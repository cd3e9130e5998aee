use vstd::prelude::*;
use vstd::string::StringExecFns;

verus! {

/// What `str::to_lowercase` gives for a string.
pub uninterp spec fn lower_of(s: Seq<char>) -> Seq<char>;

/// Whether `char::is_uppercase` holds of a character.
pub uninterp spec fn upper_char(c: char) -> bool;

/// Whether `char::is_lowercase` holds of a character.
pub uninterp spec fn lower_char(c: char) -> bool;

/// What `String::from_utf8_lossy` gives for a byte sequence.
pub uninterp spec fn lossy_text(b: Seq<u8>) -> Seq<char>;

/// A character with the Unicode White_Space property, as `char::is_whitespace` has it.
pub open spec fn is_white(c: char) -> bool {
    ('\t' <= c && c <= '\r') || c == ' ' || c == '\u{85}' || c == '\u{a0}' || c == '\u{1680}'
        || ('\u{2000}' <= c && c <= '\u{200a}') || c == '\u{2028}' || c == '\u{2029}' || c
        == '\u{202f}' || c == '\u{205f}' || c == '\u{3000}'
}

pub fn is_white_char(c: char) -> (r: bool)
    ensures
        r == is_white(c),
{
    ('\t' <= c && c <= '\r') || c == ' ' || c == '\u{85}' || c == '\u{a0}' || c == '\u{1680}'
        || ('\u{2000}' <= c && c <= '\u{200a}') || c == '\u{2028}' || c == '\u{2029}' || c
        == '\u{202f}' || c == '\u{205f}' || c == '\u{3000}'
}

/// The string without its leading white space.
pub open spec fn trim_start_of(s: Seq<char>) -> Seq<char>
    decreases s.len(),
{
    if s.len() > 0 && is_white(s[0]) {
        trim_start_of(s.drop_first())
    } else {
        s
    }
}

/// The string without its trailing white space.
pub open spec fn trim_end_of(s: Seq<char>) -> Seq<char>
    decreases s.len(),
{
    if s.len() > 0 && is_white(s.last()) {
        trim_end_of(s.drop_last())
    } else {
        s
    }
}

/// What `str::trim` leaves of a string: the string without leading and trailing white
/// space.
pub open spec fn trim_of(s: Seq<char>) -> Seq<char> {
    trim_end_of(trim_start_of(s))
}

/// The string without leading and trailing white space, as `str::trim` gives it.
pub fn trimmed(s: &str) -> (r: String)
    ensures
        r@ == trim_of(s@),
{
    let v = chars_of(s);
    let mut a: usize = 0;
    proof {
        assert(v@.subrange(0, v@.len() as int) == v@);
    }
    while a < v.len() && is_white_char(v[a])
        invariant
            v@ == s@,
            a <= v@.len(),
            trim_start_of(v@) == trim_start_of(v@.subrange(a as int, v@.len() as int)),
        decreases v.len() - a,
    {
        proof {
            assert(v@.subrange(a as int, v@.len() as int).drop_first() == v@.subrange(
                a + 1,
                v@.len() as int,
            ));
        }
        a = a + 1;
    }
    proof {
        let rest = v@.subrange(a as int, v@.len() as int);
        assert(rest.len() == 0 || !is_white(rest[0]));
        assert(trim_start_of(v@) == rest);
    }
    let mut b: usize = v.len();
    while b > a && is_white_char(v[b - 1])
        invariant
            v@ == s@,
            a <= b <= v@.len(),
            trim_of(v@) == trim_end_of(v@.subrange(a as int, b as int)),
        decreases b,
    {
        proof {
            assert(v@.subrange(a as int, b as int).drop_last() == v@.subrange(a as int, b - 1));
        }
        b = b - 1;
    }
    proof {
        let mid = v@.subrange(a as int, b as int);
        assert(mid.len() == 0 || !is_white(mid.last()));
        assert(trim_of(v@) == mid);
    }
    let mut out: Vec<char> = Vec::new();
    let mut j: usize = a;
    while j < b
        invariant
            a <= j <= b <= v@.len(),
            out@ == v@.subrange(a as int, j as int),
        decreases b - j,
    {
        proof {
            assert(v@.subrange(a as int, j + 1) == v@.subrange(a as int, j as int).push(v@[j as int]));
        }
        out.push(v[j]);
        j = j + 1;
    }
    string_of(&out)
}

/// Whether `char::is_alphabetic` holds of a character.
pub uninterp spec fn alpha_char(c: char) -> bool;

/// What `str::to_uppercase` gives for a string.
pub uninterp spec fn upper_of(s: Seq<char>) -> Seq<char>;

/// What `char::to_uppercase` gives for a character, as a string.
pub uninterp spec fn char_upper_of(c: char) -> Seq<char>;

/// Relies on `char::is_alphabetic` (the Unicode `Alphabetic` property).
#[verifier::external_body]
pub(crate) fn is_alpha(c: char) -> (r: bool)
    ensures
        r == alpha_char(c),
{
    c.is_alphabetic()
}

/// Relies on `str::to_uppercase`, whose result depends on the characters alone.
#[verifier::external_body]
pub(crate) fn uppercase(s: &str) -> (r: String)
    ensures
        r@ == upper_of(s@),
{
    s.to_uppercase()
}

/// Relies on `char::to_uppercase`, whose result depends on the character alone.
#[verifier::external_body]
pub(crate) fn uppercase_char(c: char) -> (r: String)
    ensures
        r@ == char_upper_of(c),
{
    c.to_uppercase().collect()
}

/// What `Path::file_name` gives for a path: its last component, if it has one.
pub uninterp spec fn file_name_of(s: Seq<char>) -> Option<Seq<char>>;

/// Relies on `std::path::Path::file_name`: the last component of the path, if any; a
/// function of the path's text alone.
#[verifier::external_body]
pub(crate) fn file_name(s: &str) -> (r: Option<String>)
    ensures
        r is Some <==> file_name_of(s@) is Some,
        r is Some ==> r->Some_0@ == file_name_of(s@)->Some_0,
{
    std::path::Path::new(s).file_name().map(|n| n.to_string_lossy().into_owned())
}

/// A line without its line end: the '\r' of a "\r\n" ending goes too.
pub open spec fn without_cr(line: Seq<char>) -> Seq<char> {
    if line.len() > 0 && line.last() == '\r' {
        line.drop_last()
    } else {
        line
    }
}

/// The lines of `s` from the one that starts at `start`, scanning from `i`.
pub open spec fn lines_from(s: Seq<char>, start: int, i: int) -> Seq<Seq<char>>
    decreases s.len() - i,
{
    if i < 0 || i >= s.len() {
        if 0 <= start < s.len() {
            seq![s.subrange(start, s.len() as int)]
        } else {
            Seq::empty()
        }
    } else if s[i] == '\n' {
        seq![without_cr(s.subrange(start, i))] + lines_from(s, i + 1, i + 1)
    } else {
        lines_from(s, start, i + 1)
    }
}

/// The lines of a text as `str::lines` gives them: split at each '\n', a '\r' just before
/// it dropped, and no empty line after a final '\n'.
pub open spec fn lines_of(s: Seq<char>) -> Seq<Seq<char>> {
    lines_from(s, 0, 0)
}

/// The non-empty run that starts at `start` and ends at `i`, if there is one.
pub open spec fn run(s: Seq<char>, start: int, i: int) -> Seq<Seq<char>> {
    if start < i {
        seq![s.subrange(start, i)]
    } else {
        Seq::empty()
    }
}

/// The words of `s` from the one that starts at `start`, scanning from `i`.
pub open spec fn words_from(s: Seq<char>, start: int, i: int) -> Seq<Seq<char>>
    decreases s.len() - i,
{
    if i < 0 || i >= s.len() {
        run(s, start, s.len() as int)
    } else if is_white(s[i]) {
        run(s, start, i) + words_from(s, i + 1, i + 1)
    } else {
        words_from(s, start, i + 1)
    }
}

/// What `str::split_whitespace` gives: the maximal runs of characters that are not white
/// space.
pub open spec fn words_of(s: Seq<char>) -> Seq<Seq<char>> {
    words_from(s, 0, 0)
}

fn copy_line(v: &Vec<char>, from: usize, to: usize) -> (r: String)
    requires
        from <= to <= v@.len(),
    ensures
        r@ == without_cr(v@.subrange(from as int, to as int)),
{
    let mut end = to;
    if end > from && v[end - 1] == '\r' {
        end = end - 1;
    }
    let mut out: Vec<char> = Vec::new();
    let mut j: usize = from;
    while j < end
        invariant
            from <= j <= end <= to <= v@.len(),
            out@ == v@.subrange(from as int, j as int),
        decreases end - j,
    {
        proof {
            assert(v@.subrange(from as int, j + 1) == v@.subrange(from as int, j as int).push(
                v@[j as int],
            ));
        }
        out.push(v[j]);
        j = j + 1;
    }
    proof {
        assert(out@ =~= without_cr(v@.subrange(from as int, to as int)));
    }
    string_of(&out)
}

/// The lines of a text, as `str::lines` gives them.
pub fn lines(s: &str) -> (r: Vec<String>)
    ensures
        r@.map_values(|l: String| l@) == lines_of(s@),
{
    let v = chars_of(s);
    let mut out: Vec<String> = Vec::new();
    let mut start: usize = 0;
    let mut i: usize = 0;
    while i < v.len()
        invariant
            v@ == s@,
            start <= i <= v@.len(),
            out@.map_values(|l: String| l@) + lines_from(v@, start as int, i as int) == lines_of(s@),
        decreases v.len() - i,
    {
        if v[i] == '\n' {
            let ghost before = out@.map_values(|l: String| l@);
            let line = copy_line(&v, start, i);
            out.push(line);
            proof {
                let l = without_cr(v@.subrange(start as int, i as int));
                assert(out@.map_values(|l: String| l@) =~= before.push(l));
                assert(before + (seq![l] + lines_from(v@, i + 1, i + 1)) =~= before.push(l)
                    + lines_from(v@, i + 1, i + 1));
            }
            start = i + 1;
        }
        i = i + 1;
    }
    if start < v.len() {
        let ghost before = out@.map_values(|l: String| l@);
        let mut last: Vec<char> = Vec::new();
        let mut j: usize = start;
        while j < v.len()
            invariant
                start <= j <= v@.len(),
                last@ == v@.subrange(start as int, j as int),
            decreases v.len() - j,
        {
            proof {
                assert(v@.subrange(start as int, j + 1) == v@.subrange(start as int, j as int).push(
                    v@[j as int],
                ));
            }
            last.push(v[j]);
            j = j + 1;
        }
        out.push(string_of(&last));
        proof {
            assert(out@.map_values(|l: String| l@) =~= before + seq![v@.subrange(start as int, v@.len() as int)]);
        }
    } else {
        proof {
            assert(out@.map_values(|l: String| l@) + Seq::<Seq<char>>::empty() == out@.map_values(|l: String| l@));
        }
    }
    out
}

fn push_run(out: &mut Vec<String>, v: &Vec<char>, start: usize, i: usize)
    requires
        start <= i <= v@.len(),
    ensures
        final(out)@.map_values(|w: String| w@) == old(out)@.map_values(|w: String| w@) + run(
            v@,
            start as int,
            i as int,
        ),
{
    if start < i {
        let mut w: Vec<char> = Vec::new();
        let mut j: usize = start;
        while j < i
            invariant
                start <= j <= i <= v@.len(),
                w@ == v@.subrange(start as int, j as int),
            decreases i - j,
        {
            proof {
                assert(v@.subrange(start as int, j + 1) == v@.subrange(start as int, j as int).push(
                    v@[j as int],
                ));
            }
            w.push(v[j]);
            j = j + 1;
        }
        out.push(string_of(&w));
        proof {
            assert(out@.map_values(|w: String| w@) =~= old(out)@.map_values(|w: String| w@) + run(
                v@,
                start as int,
                i as int,
            ));
        }
    } else {
        proof {
            assert(out@.map_values(|w: String| w@) =~= old(out)@.map_values(|w: String| w@) + run(
                v@,
                start as int,
                i as int,
            ));
        }
    }
}

/// The words of a text, as `str::split_whitespace` gives them.
pub fn words(s: &str) -> (r: Vec<String>)
    ensures
        r@.map_values(|w: String| w@) == words_of(s@),
{
    let v = chars_of(s);
    let mut out: Vec<String> = Vec::new();
    let mut start: usize = 0;
    let mut i: usize = 0;
    while i < v.len()
        invariant
            v@ == s@,
            start <= i <= v@.len(),
            out@.map_values(|w: String| w@) + words_from(v@, start as int, i as int) == words_of(s@),
        decreases v.len() - i,
    {
        if is_white_char(v[i]) {
            let ghost before = out@.map_values(|w: String| w@);
            push_run(&mut out, &v, start, i);
            proof {
                let r1 = run(v@, start as int, i as int);
                assert(before + (r1 + words_from(v@, i + 1, i + 1)) =~= (before + r1) + words_from(
                    v@,
                    i + 1,
                    i + 1,
                ));
            }
            start = i + 1;
        }
        i = i + 1;
    }
    let ghost before = out@.map_values(|w: String| w@);
    push_run(&mut out, &v, start, v.len());
    out
}

/// Relies on `str::chars`: the characters of a string, in order.
#[verifier::external_body]
pub(crate) fn chars_of(s: &str) -> (r: Vec<char>)
    ensures
        r@ == s@,
{
    s.chars().collect()
}

/// Relies on `String::from_iter` over characters: the string made of them, in order.
#[verifier::external_body]
pub(crate) fn string_of(v: &Vec<char>) -> (r: String)
    ensures
        r@ == v@,
{
    v.iter().collect()
}

/// Relies on `str::to_lowercase`, whose result depends on the characters alone.
#[verifier::external_body]
pub(crate) fn lowercase(s: &str) -> (r: String)
    ensures
        r@ == lower_of(s@),
{
    s.to_lowercase()
}

/// Relies on `char::is_uppercase` (the Unicode `Uppercase` property).
#[verifier::external_body]
pub(crate) fn is_upper(c: char) -> (r: bool)
    ensures
        r == upper_char(c),
{
    c.is_uppercase()
}

/// Relies on `char::is_lowercase` (the Unicode `Lowercase` property).
#[verifier::external_body]
pub(crate) fn is_lower(c: char) -> (r: bool)
    ensures
        r == lower_char(c),
{
    c.is_lowercase()
}

/// Relies on `String::from_utf8_lossy`: a function of the bytes alone.
#[verifier::external_body]
pub(crate) fn decode_lossy(b: &[u8]) -> (r: String)
    ensures
        r@ == lossy_text(b@),
{
    String::from_utf8_lossy(b).into_owned()
}

/// The two strings one after the other.
pub fn join(a: &str, b: &str) -> (r: String)
    ensures
        r@ == a@ + b@,
{
    let head = a.to_owned();
    head.concat(b)
}

/// Whether `a` and `b` hold the same characters.
pub fn str_eq(a: &str, b: &str) -> (r: bool)
    ensures
        r == (a@ == b@),
{
    let av = chars_of(a);
    let bv = chars_of(b);
    if av.len() != bv.len() {
        return false;
    }
    let mut i: usize = 0;
    while i < av.len()
        invariant
            av@ == a@,
            bv@ == b@,
            av.len() == bv.len(),
            i <= av.len(),
            forall|k: int| 0 <= k < i ==> av@[k] == bv@[k],
        decreases av.len() - i,
    {
        if av[i] != bv[i] {
            return false;
        }
        i = i + 1;
    }
    assert(av@ =~= bv@);
    true
}

/// Whether `s` begins with `p`.
pub open spec fn starts_with(s: Seq<char>, p: Seq<char>) -> bool {
    p.len() <= s.len() && s.subrange(0, p.len() as int) == p
}

/// Whether `p` occurs in `s` at some position.
pub open spec fn contains(s: Seq<char>, p: Seq<char>) -> bool {
    exists|k: int| 0 <= k && k + p.len() <= s.len() && #[trigger] s.subrange(k, k + p.len()) == p
}

/// Whether the character sequence `p` occurs in `s`.
pub fn contains_chars(s: &Vec<char>, p: &Vec<char>) -> (r: bool)
    ensures
        r == contains(s@, p@),
{
    if p.len() > s.len() {
        return false;
    }
    let mut k: usize = 0;
    while k <= s.len() - p.len()
        invariant
            p.len() <= s.len(),
            k <= s.len() - p.len() + 1,
            forall|j: int| 0 <= j < k ==> #[trigger] s@.subrange(j, j + p.len()) != p@,
        decreases s.len() - k,
    {
        let mut m: usize = 0;
        let mut same = true;
        while m < p.len()
            invariant
                k + p.len() <= s.len(),
                m <= p.len(),
                same == (forall|q: int| 0 <= q < m ==> s@[k + q] == p@[q]),
            decreases p.len() - m,
        {
            if s[k + m] != p[m] {
                same = false;
            }
            m = m + 1;
        }
        if same {
            assert(s@.subrange(k as int, k + p.len()) =~= p@);
            return true;
        }
        assert(s@.subrange(k as int, k + p.len())[(choose|q: int| 0 <= q < p.len() && s@[k + q] != p@[q])] != p@[(choose|q: int| 0 <= q < p.len() && s@[k + q] != p@[q])]);
        k = k + 1;
    }
    proof {
        assert forall|j: int| 0 <= j && j + p@.len() <= s@.len() implies #[trigger] s@.subrange(j, j + p@.len()) != p@ by {
            assert(j < k);
        }
    }
    false
}

} // verus!
