use vstd::prelude::*;

use crate::ports::{copy_range, parse_u32, parsed_u32};
use crate::text::{chars_of, file_name, file_name_of, str_eq, string_of, trim_of, trimmed};

verus! {

/// One diagnostic reported by the TypeScript compiler or a linter.
#[derive(Clone, Debug)]
pub struct Problem {
    pub id: u32,
    /// "error" or "warning".
    pub problem_type: String,
    pub file: String,
    pub path: String,
    pub line: u32,
    pub column: u32,
    pub message: String,
    pub code: Option<String>,
    /// "ts" or "eslint".
    pub source: String,
}

/// The problems of one file, with their counts.
#[derive(Clone, Debug)]
pub struct FileProblems {
    pub file: String,
    pub path: String,
    pub problems: Vec<Problem>,
    pub error_count: u32,
    pub warning_count: u32,
}

/// The problems of a project, by file, with their totals.
#[derive(Clone, Debug)]
pub struct ProblemsResult {
    pub files: Vec<FileProblems>,
    pub total_errors: u32,
    pub total_warnings: u32,
}

/// The path with every backslash turned into a slash.
pub open spec fn forward_slashes(s: Seq<char>) -> Seq<char> {
    s.map_values(|c: char| if c == '\\' { '/' } else { c })
}

/// The path without its leading slashes.
pub open spec fn drop_leading_slashes(s: Seq<char>) -> Seq<char>
    decreases s.len(),
{
    if s.len() > 0 && s[0] == '/' {
        drop_leading_slashes(s.drop_first())
    } else {
        s
    }
}

/// A file path made relative to the project where it lies under it, with forward slashes.
pub open spec fn normalized_path(file_path: Seq<char>, project_path: Seq<char>) -> Seq<char> {
    let f = forward_slashes(file_path);
    let p = forward_slashes(project_path);
    if p.len() <= f.len() && f.subrange(0, p.len() as int) == p {
        drop_leading_slashes(f.subrange(p.len() as int, f.len() as int))
    } else {
        f
    }
}

fn to_forward_slashes(s: &Vec<char>) -> (r: Vec<char>)
    ensures
        r@ == forward_slashes(s@),
{
    let mut out: Vec<char> = Vec::new();
    let mut i: usize = 0;
    while i < s.len()
        invariant
            i <= s@.len(),
            out@ == forward_slashes(s@.subrange(0, i as int)),
        decreases s.len() - i,
    {
        let c = s[i];
        out.push(if c == '\\' { '/' } else { c });
        proof {
            assert(out@ =~= forward_slashes(s@.subrange(0, i + 1)));
        }
        i = i + 1;
    }
    proof {
        assert(s@.subrange(0, s@.len() as int) == s@);
    }
    out
}

/// Makes a diagnostic's file path relative to the project, with forward slashes.
pub fn normalize_path(file_path: &str, project_path: &str) -> (r: String)
    ensures
        r@ == normalized_path(file_path@, project_path@),
{
    let f = to_forward_slashes(&chars_of(file_path));
    let p = to_forward_slashes(&chars_of(project_path));
    if p.len() > f.len() {
        return string_of(&f);
    }
    let mut k: usize = 0;
    while k < p.len()
        invariant
            f@ == forward_slashes(file_path@),
            p@ == forward_slashes(project_path@),
            p@.len() <= f@.len(),
            k <= p@.len(),
            forall|q: int| 0 <= q < k ==> f@[q] == p@[q],
        decreases p.len() - k,
    {
        if f[k] != p[k] {
            proof {
                assert(f@.subrange(0, p@.len() as int)[k as int] != p@[k as int]);
                assert(f@.subrange(0, p@.len() as int) != p@);
            }
            return string_of(&f);
        }
        k = k + 1;
    }
    proof {
        assert(f@.subrange(0, p@.len() as int) =~= p@);
    }
    let mut start: usize = p.len();
    while start < f.len() && f[start] == '/'
        invariant
            f@ == forward_slashes(file_path@),
            p@ == forward_slashes(project_path@),
            f@.subrange(0, p@.len() as int) == p@,
            p@.len() <= start <= f@.len(),
            drop_leading_slashes(f@.subrange(p@.len() as int, f@.len() as int))
                == drop_leading_slashes(f@.subrange(start as int, f@.len() as int)),
        decreases f.len() - start,
    {
        proof {
            assert(f@.subrange(start as int, f@.len() as int).drop_first() == f@.subrange(
                start + 1,
                f@.len() as int,
            ));
        }
        start = start + 1;
    }
    let mut out: Vec<char> = Vec::new();
    let mut j: usize = start;
    while j < f.len()
        invariant
            f@ == forward_slashes(file_path@),
            p@ == forward_slashes(project_path@),
            f@.subrange(0, p@.len() as int) == p@,
            p@.len() <= start <= j <= f@.len(),
            start == f@.len() || f@[start as int] != '/',
            drop_leading_slashes(f@.subrange(p@.len() as int, f@.len() as int))
                == drop_leading_slashes(f@.subrange(start as int, f@.len() as int)),
            out@ == f@.subrange(start as int, j as int),
        decreases f.len() - j,
    {
        proof {
            assert(f@.subrange(start as int, j + 1) == f@.subrange(start as int, j as int).push(
                f@[j as int],
            ));
        }
        out.push(f[j]);
        j = j + 1;
    }
    proof {
        let rest = f@.subrange(start as int, f@.len() as int);
        assert(rest.len() == 0 || rest[0] != '/');
        assert(drop_leading_slashes(rest) == rest);
    }
    string_of(&out)
}

/// Where the first ':' of `s` stands, if any.
pub open spec fn first_colon(s: Seq<char>) -> Option<int> {
    if exists|k: int| 0 <= k < s.len() && s[k] == ':' {
        Some(choose|k: int| 0 <= k < s.len() && s[k] == ':' && forall|q: int| 0 <= q < k ==> s[q] != ':')
    } else {
        None
    }
}

/// The code and message of "TS2304: Cannot find name 'x'.": a code where the text before
/// the first ':' begins with "TS" once trimmed, else no code and the whole text.
pub open spec fn ts_code_and_message(s: Seq<char>) -> (Option<Seq<char>>, Seq<char>) {
    match first_colon(s) {
        Some(k) => {
            let code = trim_of(s.subrange(0, k));
            if code.len() >= 2 && code[0] == 'T' && code[1] == 'S' {
                (Some(code), trim_of(s.subrange(k + 1, s.len() as int)))
            } else {
                (None, s)
            }
        },
        None => (None, s),
    }
}

/// Splits the text after "error" or "warning" in a compiler line into the diagnostic's
/// code and its message.
pub fn parse_ts_code_and_message(s: &str) -> (r: (Option<String>, String))
    ensures
        r.1@ == ts_code_and_message(s@).1,
        r.0 is Some <==> ts_code_and_message(s@).0 is Some,
        r.0 is Some ==> r.0->Some_0@ == ts_code_and_message(s@).0->Some_0,
{
    let v = chars_of(s);
    let mut k: usize = 0;
    while k < v.len() && v[k] != ':'
        invariant
            k <= v@.len(),
            v@ == s@,
            forall|q: int| 0 <= q < k ==> v@[q] != ':',
        decreases v.len() - k,
    {
        k = k + 1;
    }
    if k == v.len() {
        return (None, s.to_owned());
    }
    proof {
        let c = choose|c: int| 0 <= c < s@.len() && s@[c] == ':' && forall|q: int| 0 <= q < c ==> s@[q] != ':';
        assert(s@[k as int] == ':');
        assert(c == k) by {
            if c < k {
                assert(v@[c] != ':');
            } else if c > k {
                assert(s@[k as int] != ':');
            }
        }
    }
    let mut head: Vec<char> = Vec::new();
    let mut i: usize = 0;
    while i < k
        invariant
            i <= k < v@.len(),
            head@ == v@.subrange(0, i as int),
        decreases k - i,
    {
        proof {
            assert(v@.subrange(0, i + 1) == v@.subrange(0, i as int).push(v@[i as int]));
        }
        head.push(v[i]);
        i = i + 1;
    }
    let mut tail: Vec<char> = Vec::new();
    let mut j: usize = k + 1;
    while j < v.len()
        invariant
            k + 1 <= j <= v@.len(),
            tail@ == v@.subrange(k + 1, j as int),
        decreases v.len() - j,
    {
        proof {
            assert(v@.subrange(k + 1, j + 1) == v@.subrange(k + 1, j as int).push(v@[j as int]));
        }
        tail.push(v[j]);
        j = j + 1;
    }
    let code = trimmed(string_of(&head).as_str());
    let cv = chars_of(code.as_str());
    if cv.len() >= 2 && cv[0] == 'T' && cv[1] == 'S' {
        let message = trimmed(string_of(&tail).as_str());
        (Some(code), message)
    } else {
        (None, s.to_owned())
    }
}

/// The extensions whose outline can be read.
pub open spec fn supported_extension(ext: Seq<char>) -> bool {
    ext == "js"@ || ext == "jsx"@ || ext == "ts"@ || ext == "tsx"@ || ext == "mjs"@ || ext
        == "cjs"@ || ext == "mts"@ || ext == "cts"@
}

/// Whether files with this extension are JavaScript or TypeScript sources.
pub fn is_supported_extension(ext: &str) -> (r: bool)
    ensures
        r == supported_extension(ext@),
{
    str_eq(ext, "js") || str_eq(ext, "jsx") || str_eq(ext, "ts") || str_eq(ext, "tsx")
        || str_eq(ext, "mjs") || str_eq(ext, "cjs") || str_eq(ext, "mts") || str_eq(ext, "cts")
}

/// `j` is where `c` first stands in `s`.
pub open spec fn first_char_at(s: Seq<char>, c: char, j: int) -> bool {
    0 <= j < s.len() && s[j] == c && forall|q: int| 0 <= q < j ==> s[q] != c
}

/// Where `c` first stands in `s`, if it does.
pub open spec fn first_of(s: Seq<char>, c: char) -> Option<int> {
    if exists|j: int| first_char_at(s, c, j) {
        Some(choose|j: int| first_char_at(s, c, j))
    } else {
        None
    }
}

fn find_char(v: &Vec<char>, c: char) -> (r: Option<usize>)
    ensures
        r is None ==> first_of(v@, c) is None,
        r is Some ==> first_of(v@, c) == Some(r->Some_0 as int) && r->Some_0 < v@.len(),
{
    let mut j: usize = 0;
    while j < v.len() && v[j] != c
        invariant
            j <= v@.len(),
            forall|q: int| 0 <= q < j ==> v@[q] != c,
        decreases v.len() - j,
    {
        j = j + 1;
    }
    if j == v.len() {
        proof {
            assert forall|j2: int| !first_char_at(v@, c, j2) by {}
        }
        None
    } else {
        proof {
            assert(first_char_at(v@, c, j as int));
            assert forall|j2: int| first_char_at(v@, c, j2) implies j2 == j by {
                if j2 > j {
                    assert(v@[j as int] != c);
                }
            }
        }
        Some(j)
    }
}

/// The text without its leading ':' characters.
pub open spec fn drop_leading_colons(s: Seq<char>) -> Seq<char>
    decreases s.len(),
{
    if s.len() > 0 && s[0] == ':' {
        drop_leading_colons(s.drop_first())
    } else {
        s
    }
}

/// The kind, file path, line, column, code and message of a compiler line
/// `path/file.ts(line,col): error TS2304: message`.
pub open spec fn ts_line(line: Seq<char>) -> Option<(Seq<char>, Seq<char>, u32, u32, Option<Seq<char>>, Seq<char>)> {
    let l = trim_of(line);
    if l.len() == 0 || first_of(l, '(') is None || first_of(l, ')') is None {
        None
    } else {
        let ps = first_of(l, '(')->Some_0;
        let pe = first_of(l, ')')->Some_0;
        let pos = l.subrange(ps + 1, pe);
        if ps >= pe || first_of(pos, ',') is None {
            None
        } else {
            let c1 = first_of(pos, ',')->Some_0;
            let after = pos.subrange(c1 + 1, pos.len() as int);
            let p1 = match first_of(after, ',') {
                Some(c2) => after.subrange(0, c2),
                None => after,
            };
            let line_num = parsed_u32(trim_of(pos.subrange(0, c1)));
            let col_num = parsed_u32(trim_of(p1));
            let rest = trim_of(drop_leading_colons(l.subrange(pe + 1, l.len() as int)));
            if line_num is None || col_num is None {
                None
            } else if rest.len() >= 5 && rest.subrange(0, 5) == "error"@ {
                let cm = ts_code_and_message(trim_of(rest.subrange(5, rest.len() as int)));
                Some(("error"@, l.subrange(0, ps), line_num->Some_0, col_num->Some_0, cm.0, cm.1))
            } else if rest.len() >= 7 && rest.subrange(0, 7) == "warning"@ {
                let cm = ts_code_and_message(trim_of(rest.subrange(7, rest.len() as int)));
                Some(("warning"@, l.subrange(0, ps), line_num->Some_0, col_num->Some_0, cm.0, cm.1))
            } else {
                None
            }
        }
    }
}

fn drop_colons(v: &Vec<char>, from: usize) -> (r: usize)
    requires
        from <= v@.len(),
    ensures
        from <= r <= v@.len(),
        drop_leading_colons(v@.subrange(from as int, v@.len() as int)) == v@.subrange(
            r as int,
            v@.len() as int,
        ),
{
    let mut k = from;
    while k < v.len() && v[k] == ':'
        invariant
            from <= k <= v@.len(),
            drop_leading_colons(v@.subrange(from as int, v@.len() as int)) == drop_leading_colons(
                v@.subrange(k as int, v@.len() as int),
            ),
        decreases v.len() - k,
    {
        proof {
            assert(v@.subrange(k as int, v@.len() as int).drop_first() == v@.subrange(
                k + 1,
                v@.len() as int,
            ));
        }
        k = k + 1;
    }
    proof {
        let s = v@.subrange(k as int, v@.len() as int);
        assert(s.len() == 0 || s[0] != ':');
    }
    k
}

fn has_prefix(v: &Vec<char>, p: &str) -> (r: bool)
    ensures
        r == (p@.len() <= v@.len() && v@.subrange(0, p@.len() as int) == p@),
{
    let pv = chars_of(p);
    if pv.len() > v.len() {
        return false;
    }
    let mut i: usize = 0;
    while i < pv.len()
        invariant
            pv@ == p@,
            pv@.len() <= v@.len(),
            i <= pv@.len(),
            forall|q: int| 0 <= q < i ==> v@[q] == pv@[q],
        decreases pv.len() - i,
    {
        if v[i] != pv[i] {
            proof {
                assert(v@.subrange(0, pv@.len() as int)[i as int] != pv@[i as int]);
            }
            return false;
        }
        i = i + 1;
    }
    proof {
        assert(v@.subrange(0, pv@.len() as int) =~= pv@);
    }
    true
}

/// Reads one line of TypeScript compiler output as a problem of the project, numbered
/// with the counter, which then moves on by one; `None` for a line of another shape.
pub fn parse_typescript_line(line: &str, project_path: &str, id_counter: &mut u32) -> (r: Option<Problem>)
    requires
        *old(id_counter) < u32::MAX,
    ensures
        r is Some <==> ts_line(line@) is Some,
        r is None ==> *final(id_counter) == *old(id_counter),
        r is Some ==> *final(id_counter) == *old(id_counter) + 1,
        r is Some ==> ({
            let f = ts_line(line@)->Some_0;
            let p = r->Some_0;
            &&& p.id == *old(id_counter)
            &&& p.problem_type@ == f.0
            &&& p.path@ == normalized_path(f.1, project_path@)
            &&& p.file@ == (match file_name_of(p.path@) {
                Some(n) => n,
                None => p.path@,
            })
            &&& p.line == f.2
            &&& p.column == f.3
            &&& (p.code is Some <==> f.4 is Some)
            &&& (p.code is Some ==> p.code->Some_0@ == f.4->Some_0)
            &&& p.message@ == f.5
            &&& p.source@ == "ts"@
        }),
{
    let lt = trimmed(line);
    let l = chars_of(lt.as_str());
    if l.len() == 0 {
        return None;
    }
    let ps = match find_char(&l, '(') {
        Some(x) => x,
        None => {
            return None;
        },
    };
    let pe = match find_char(&l, ')') {
        Some(x) => x,
        None => {
            return None;
        },
    };
    if ps >= pe {
        return None;
    }
    let pos = copy_range(&l, ps + 1, pe);
    let c1 = match find_char(&pos, ',') {
        Some(x) => x,
        None => {
            return None;
        },
    };
    let after = copy_range(&pos, c1 + 1, pos.len());
    let p1 = match find_char(&after, ',') {
        Some(c2) => copy_range(&after, 0, c2),
        None => copy_range(&after, 0, after.len()),
    };
    proof {
        assert(after@.subrange(0, after@.len() as int) == after@);
    }
    let p0 = copy_range(&pos, 0, c1);
    let p0t = chars_of(trimmed(string_of(&p0).as_str()).as_str());
    let p1t = chars_of(trimmed(string_of(&p1).as_str()).as_str());
    let line_num = parse_u32(&p0t, 0, p0t.len());
    let col_num = parse_u32(&p1t, 0, p1t.len());
    proof {
        assert(p0t@.subrange(0, p0t@.len() as int) == p0t@);
        assert(p1t@.subrange(0, p1t@.len() as int) == p1t@);
    }
    let rs = drop_colons(&l, pe + 1);
    let rest_raw = copy_range(&l, rs, l.len());
    let rest = chars_of(trimmed(string_of(&rest_raw).as_str()).as_str());
    let (ln, col) = match (line_num, col_num) {
        (Some(a), Some(b)) => (a, b),
        _ => {
            return None;
        },
    };
    let kind_len: usize = if has_prefix(&rest, "error") {
        5
    } else if has_prefix(&rest, "warning") {
        7
    } else {
        return None;
    };
    proof {
        reveal_strlit("error");
        reveal_strlit("warning");
    }
    let kind = copy_range(&rest, 0, kind_len);
    let tail = copy_range(&rest, kind_len, rest.len());
    let after_kind = trimmed(string_of(&tail).as_str());
    let (code, message) = parse_ts_code_and_message(after_kind.as_str());
    let file_part = copy_range(&l, 0, ps);
    let path = normalize_path(string_of(&file_part).as_str(), project_path);
    let file = match file_name(path.as_str()) {
        Some(n) => n,
        None => path.clone(),
    };
    let id = *id_counter;
    *id_counter = *id_counter + 1;
    Some(
        Problem {
            id,
            problem_type: string_of(&kind),
            file,
            path,
            line: ln,
            column: col,
            message,
            code,
            source: "ts".to_owned(),
        },
    )
}

} // verus!
