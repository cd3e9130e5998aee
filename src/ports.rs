use vstd::prelude::*;

use crate::text::{
    starts_with, chars_of, decode_lossy, lines, lines_of, lossy_text, str_eq, string_of, upper_of, uppercase, words,
    words_of,
};

verus! {

/// A port that a process listens on.
#[derive(Clone, Debug)]
pub struct PortInfo {
    pub port: u16,
    pub protocol: String,
    pub pid: Option<u32>,
    pub process_name: Option<String>,
    pub local_address: String,
    pub state: String,
}

pub open spec fn is_digit(c: char) -> bool {
    '0' <= c && c <= '9'
}

/// The number that a run of decimal digits spells.
pub open spec fn digits_value(s: Seq<char>) -> int
    decreases s.len(),
{
    if s.len() == 0 {
        0
    } else {
        digits_value(s.drop_last()) * 10 + (s.last() as int - '0' as int)
    }
}

/// The text without its one leading '+', if it has one.
pub open spec fn without_plus(s: Seq<char>) -> Seq<char> {
    if s.len() > 0 && s[0] == '+' {
        s.drop_first()
    } else {
        s
    }
}

pub open spec fn all_digits(d: Seq<char>) -> bool {
    forall|k: int| 0 <= k < d.len() ==> is_digit(#[trigger] d[k])
}

/// What `str::parse::<u32>` gives: an optional '+', then one or more decimal digits whose
/// value fits in a `u32`.
pub open spec fn parsed_u32(s: Seq<char>) -> Option<u32> {
    let d = without_plus(s);
    if d.len() > 0 && all_digits(d) && digits_value(d) <= u32::MAX {
        Some(digits_value(d) as u32)
    } else {
        None
    }
}

proof fn lemma_digits_grow(s: Seq<char>, i: int)
    requires
        0 <= i <= s.len(),
        forall|k: int| 0 <= k < s.len() ==> is_digit(#[trigger] s[k]),
    ensures
        digits_value(s.subrange(0, i)) <= digits_value(s),
        digits_value(s) >= 0,
    decreases s.len() - i,
{
    if i < s.len() {
        lemma_digits_grow(s, i + 1);
        assert(s.subrange(0, i + 1).drop_last() == s.subrange(0, i));
        lemma_digits_nonneg(s.subrange(0, i));
    } else {
        assert(s.subrange(0, i) == s);
        lemma_digits_nonneg(s);
    }
}

proof fn lemma_digits_nonneg(s: Seq<char>)
    requires
        forall|k: int| 0 <= k < s.len() ==> is_digit(#[trigger] s[k]),
    ensures
        digits_value(s) >= 0,
    decreases s.len(),
{
    if s.len() > 0 {
        lemma_digits_nonneg(s.drop_last());
    }
}

/// Parses a decimal `u32` as `str::parse` does.
pub fn parse_u32(s: &Vec<char>, from: usize, to: usize) -> (r: Option<u32>)
    requires
        from <= to <= s@.len(),
    ensures
        r == parsed_u32(s@.subrange(from as int, to as int)),
{
    let ghost t = s@.subrange(from as int, to as int);
    let mut start = from;
    if start < to && s[start] == '+' {
        start = start + 1;
    }
    let ghost d = s@.subrange(start as int, to as int);
    proof {
        if t.len() > 0 && t[0] == '+' {
            assert(d == t.drop_first());
        } else {
            assert(d == t);
        }
    }
    if start == to {
        proof {
            assert(without_plus(t).len() == 0);
        }
        return None;
    }
    let mut value: u64 = 0;
    let mut i: usize = start;
    while i < to
        invariant
            from <= start <= i <= to <= s@.len(),
            start < to,
            t == s@.subrange(from as int, to as int),
            (t.len() > 0 && t[0] == '+') ==> d == t.drop_first(),
            !(t.len() > 0 && t[0] == '+') ==> d == t,
            d == s@.subrange(start as int, to as int),
            forall|k: int| 0 <= k < i - start ==> is_digit(#[trigger] d[k]),
            value == digits_value(d.subrange(0, i - start)),
            value <= u32::MAX,
        decreases to - i,
    {
        let c = s[i];
        proof {
            assert(d[i - start] == c);
            assert(d.subrange(0, i - start + 1).drop_last() == d.subrange(0, i - start));
        }
        if !('0' <= c && c <= '9') {
            proof {
                assert(!is_digit(d[i - start]));
                assert(without_plus(t) == d);
                assert(!all_digits(d));
            }
            return None;
        }
        let digit = (c as u32 - '0' as u32) as u64;
        let next = value * 10 + digit;
        if next > 4294967295 {
            proof {
                let j = i - start;
                assert(d.subrange(0, j + 1).last() == c);
                assert(next == digits_value(d.subrange(0, j + 1)));
                assert(without_plus(t) == d);
                if forall|k: int| 0 <= k < d.len() ==> is_digit(#[trigger] d[k]) {
                    lemma_digits_grow(d, j + 1);
                    assert(digits_value(d) > u32::MAX);
                }
            }
            return None;
        }
        value = next;
        i = i + 1;
    }
    proof {
        assert(d.subrange(0, d.len() as int) == d);
        assert(without_plus(t) == d);
    }
    Some(value as u32)
}

/// `p` occurs in `s` at `k`.
pub open spec fn occurs_at(s: Seq<char>, p: Seq<char>, k: int) -> bool {
    0 <= k && k + p.len() <= s.len() && s.subrange(k, k + p.len()) == p
}

/// `k` is where `p` first occurs in `s`.
pub open spec fn first_occurrence(s: Seq<char>, p: Seq<char>, k: int) -> bool {
    occurs_at(s, p, k) && forall|q: int| 0 <= q < k ==> !occurs_at(s, p, q)
}

/// `k` is where `p` first occurs in `s` at or after `from`.
pub open spec fn first_occurrence_from(s: Seq<char>, p: Seq<char>, from: int, k: int) -> bool {
    from <= k && occurs_at(s, p, k) && forall|q: int| from <= q < k ==> !occurs_at(s, p, q)
}

pub(crate) fn find_chars_from(s: &Vec<char>, p: &Vec<char>, from: usize) -> (r: Option<usize>)
    ensures
        r is Some ==> first_occurrence_from(s@, p@, from as int, r->Some_0 as int),
        r is None ==> forall|q: int| from <= q ==> !occurs_at(s@, p@, q),
{
    if p.len() > s.len() {
        return None;
    }
    let mut k: usize = from;
    while k <= s.len() - p.len()
        invariant
            p.len() <= s.len(),
            from <= k,
            k <= s.len() - p.len() + 1 || k == from,
            forall|q: int| from <= q < k ==> !occurs_at(s@, p@, q),
        decreases s.len() + 1 - k,
    {
        let mut m: usize = 0;
        let mut same = true;
        while m < p.len()
            invariant
                k + p.len() <= s.len(),
                m <= p.len(),
                same == (forall|q: int| 0 <= q < m ==> s@[k + q] == p@[q]),
            decreases p.len() - m,
        {
            if s[k + m] != p[m] {
                same = false;
            }
            m = m + 1;
        }
        if same {
            assert(s@.subrange(k as int, k + p@.len()) =~= p@);
            return Some(k);
        }
        proof {
            let q = choose|q: int| 0 <= q < p@.len() && s@[k + q] != p@[q];
            assert(s@.subrange(k as int, k + p@.len())[q] != p@[q]);
        }
        k = k + 1;
    }
    None
}

fn find_chars(s: &Vec<char>, p: &Vec<char>) -> (r: Option<usize>)
    ensures
        r is Some ==> first_occurrence(s@, p@, r->Some_0 as int),
        r is None ==> forall|q: int| !occurs_at(s@, p@, q),
{
    find_chars_from(s, p, 0)
}

/// Where in `s`, from `from` on, the first ',' or ')' stands.
pub open spec fn first_close(s: Seq<char>, from: int, e: int) -> bool {
    from <= e < s.len() && (s[e] == ',' || s[e] == ')') && forall|q: int|
        from <= q < e ==> !(s[q] == ',' || s[q] == ')')
}

/// `e` ends the pid that follows the "pid=" found at `k`.
pub open spec fn pid_end(s: Seq<char>, k: int, e: int) -> bool {
    first_close(s, k + 4, e)
}

/// `e` is the first '"' after the `(("` found at `k`.
pub open spec fn name_end(s: Seq<char>, k: int, e: int) -> bool {
    k + 3 <= e < s.len() && s[e] == '"' && forall|q: int| k + 3 <= q < e ==> s[q] != '"'
}

/// The process id in `ss` output such as `users:(("sshd",pid=1234,fd=3))`: the number
/// after the first "pid=", up to the next ',' or ')'.
pub open spec fn linux_pid(info: Seq<char>) -> Option<u32> {
    if exists|k: int| first_occurrence(info, "pid="@, k) {
        let k = choose|k: int| first_occurrence(info, "pid="@, k);
        if exists|e: int| pid_end(info, k, e) {
            let e = choose|e: int| pid_end(info, k, e);
            parsed_u32(info.subrange(k + 4, e))
        } else {
            None
        }
    } else {
        None
    }
}

/// The process name in `ss` output: the text after the first `(("` up to the next '"'.
pub open spec fn linux_name(info: Seq<char>) -> Option<Seq<char>> {
    if exists|k: int| first_occurrence(info, "((\""@, k) {
        let k = choose|k: int| first_occurrence(info, "((\""@, k);
        if exists|e: int| name_end(info, k, e) {
            let e = choose|e: int| name_end(info, k, e);
            Some(info.subrange(k + 3, e))
        } else {
            None
        }
    } else {
        None
    }
}

proof fn lemma_first_unique(s: Seq<char>, p: Seq<char>, a: int, b: int)
    requires
        first_occurrence(s, p, a),
        first_occurrence(s, p, b),
    ensures
        a == b,
{
    if a < b {
        assert(!occurs_at(s, p, a));
    } else if b < a {
        assert(!occurs_at(s, p, b));
    }
}

pub(crate) fn copy_range(s: &Vec<char>, from: usize, to: usize) -> (r: Vec<char>)
    requires
        from <= to <= s@.len(),
    ensures
        r@ == s@.subrange(from as int, to as int),
{
    let mut out: Vec<char> = Vec::new();
    let mut j: usize = from;
    while j < to
        invariant
            from <= j <= to <= s@.len(),
            out@ == s@.subrange(from as int, j as int),
        decreases to - j,
    {
        proof {
            assert(s@.subrange(from as int, j + 1) == s@.subrange(from as int, j as int).push(
                s@[j as int],
            ));
        }
        out.push(s[j]);
        j = j + 1;
    }
    out
}

/// Reads the process id and name out of the process column of `ss`.
pub fn parse_linux_process_info(info: &str) -> (r: (Option<u32>, Option<String>))
    ensures
        r.0 == linux_pid(info@),
        r.1 is Some <==> linux_name(info@) is Some,
        r.1 is Some ==> r.1->Some_0@ == linux_name(info@)->Some_0,
{
    let s = chars_of(info);
    let pid_tag = chars_of("pid=");
    let name_tag = chars_of("((\"");
    proof {
        reveal_strlit("pid=");
        reveal_strlit("((\"");
        assert(pid_tag@.len() == 4);
        assert(name_tag@.len() == 3);
    }
    let mut pid: Option<u32> = None;
    match find_chars(&s, &pid_tag) {
        Some(k) => {
            let n = s.len();
            proof {
                assert(occurs_at(s@, pid_tag@, k as int));
                assert(k + 4 <= n);
            }
            let start = k + 4;
            let mut e: usize = start;
            while e < s.len() && !(s[e] == ',' || s[e] == ')')
                invariant
                    start <= e <= s@.len(),
                    forall|q: int| start <= q < e ==> !(s@[q] == ',' || s@[q] == ')'),
                decreases s.len() - e,
            {
                e = e + 1;
            }
            proof {
                assert forall|k2: int| first_occurrence(info@, "pid="@, k2) implies k2 == k by {
                    lemma_first_unique(info@, "pid="@, k2, k as int);
                }
            }
            if e < s.len() {
                proof {
                    assert(pid_end(info@, k as int, e as int));
                    assert forall|e2: int| pid_end(info@, k as int, e2) implies e2 == e by {
                        if e2 < e {
                        } else if e2 > e {
                            assert(!(s@[e as int] == ',' || s@[e as int] == ')'));
                        }
                    }
                }
                pid = parse_u32(&s, start, e);
            } else {
                proof {
                    assert forall|e2: int| !pid_end(info@, k as int, e2) by {}
                }
            }
        },
        None => {},
    }
    let mut name: Option<String> = None;
    match find_chars(&s, &name_tag) {
        Some(k) => {
            let n = s.len();
            proof {
                assert(occurs_at(s@, name_tag@, k as int));
                assert(k + 3 <= n);
            }
            let start = k + 3;
            let mut e: usize = start;
            while e < s.len() && s[e] != '"'
                invariant
                    start <= e <= s@.len(),
                    forall|q: int| start <= q < e ==> s@[q] != '"',
                decreases s.len() - e,
            {
                e = e + 1;
            }
            proof {
                assert forall|k2: int| first_occurrence(info@, "((\""@, k2) implies k2 == k by {
                    lemma_first_unique(info@, "((\""@, k2, k as int);
                }
            }
            if e < s.len() {
                proof {
                    assert(name_end(info@, k as int, e as int));
                    assert forall|e2: int| name_end(info@, k as int, e2) implies e2 == e by {
                        if e2 > e {
                            assert(info@[e as int] != '"');
                        }
                    }
                }
                let part = copy_range(&s, start, e);
                proof {
                    assert(first_occurrence(info@, "((\""@, k as int));
                    assert(exists|k2: int| first_occurrence(info@, "((\""@, k2));
                    assert(exists|e2: int| name_end(info@, k as int, e2));
                    let kk = choose|k2: int| first_occurrence(info@, "((\""@, k2);
                    assert(kk == k);
                    let ee = choose|e2: int| name_end(info@, kk, e2);
                    assert(name_end(info@, kk, ee));
                    assert(ee == e);
                    assert(part@ == info@.subrange(kk + 3, ee));
                    assert(linux_name(info@) == Some(part@));
                }
                name = Some(string_of(&part));
            } else {
                proof {
                    assert forall|e2: int| !name_end(info@, k as int, e2) by {}
                }
            }
        },
        None => {},
    }
    (pid, name)
}

/// The pid and the name in the program column of `netstat -p`: "1234/name", or "-".
pub open spec fn netstat_info(info: Seq<char>) -> (Option<u32>, Option<Seq<char>>) {
    if info == "-"@ {
        (None, None)
    } else if exists|k: int| 0 <= k < info.len() && info[k] == '/' {
        let k = choose|k: int| 0 <= k < info.len() && info[k] == '/' && forall|q: int|
            0 <= q < k ==> info[q] != '/';
        (parsed_u32(info.subrange(0, k)), Some(info.subrange(k + 1, info.len() as int)))
    } else {
        (parsed_u32(info), None)
    }
}

/// Reads the pid and the name out of the program column of `netstat -p`.
pub fn parse_netstat_process_info(info: &str) -> (r: (Option<u32>, Option<String>))
    ensures
        r.0 == netstat_info(info@).0,
        r.1 is Some <==> netstat_info(info@).1 is Some,
        r.1 is Some ==> r.1->Some_0@ == netstat_info(info@).1->Some_0,
{
    if str_eq(info, "-") {
        return (None, None);
    }
    let s = chars_of(info);
    let mut k: usize = 0;
    while k < s.len() && s[k] != '/'
        invariant
            k <= s@.len(),
            forall|q: int| 0 <= q < k ==> s@[q] != '/',
        decreases s.len() - k,
    {
        k = k + 1;
    }
    if k == s.len() {
        proof {
            assert(s@.subrange(0, s@.len() as int) == s@);
        }
        return (parse_u32(&s, 0, s.len()), None);
    }
    proof {
        let c = choose|c: int| 0 <= c < info@.len() && info@[c] == '/' && forall|q: int|
            0 <= q < c ==> info@[q] != '/';
        assert(info@[k as int] == '/');
        assert(c == k) by {
            if c > k {
                assert(info@[k as int] != '/');
            }
        }
    }
    let pid = parse_u32(&s, 0, k);
    let rest = copy_range(&s, k + 1, s.len());
    (pid, Some(string_of(&rest)))
}

/// What `str::parse::<u16>` gives: a `u32` parse that also fits in 16 bits.
pub open spec fn parsed_u16(s: Seq<char>) -> Option<u16> {
    match parsed_u32(s) {
        Some(v) => if v <= 65535 {
            Some(v as u16)
        } else {
            None
        },
        None => None,
    }
}

/// The text after the last ':' of `s`, or all of it.
pub open spec fn after_last_colon(s: Seq<char>) -> Seq<char>
    decreases s.len(),
{
    if s.len() == 0 {
        s
    } else if s.last() == ':' {
        Seq::empty()
    } else {
        after_last_colon(s.drop_last()).push(s.last())
    }
}

/// A listening port read from `lsof`: port, pid, command and local address.
pub open spec fn lsof_entry(words: Seq<Seq<char>>) -> Option<(u16, Option<u32>, Seq<char>, Seq<char>)> {
    if words.len() < 9 {
        None
    } else {
        match parsed_u16(after_last_colon(words[8])) {
            Some(port) => if port > 0 {
                Some((port, parsed_u32(words[1]), words[0], words[8]))
            } else {
                None
            },
            None => None,
        }
    }
}

/// The ports of `lsof` output lines from `i` on, each port once (the first line for it
/// wins), skipping ports already in `seen`.
pub open spec fn lsof_ports(ls: Seq<Seq<char>>, i: int, seen: Set<u16>) -> Seq<(u16, Option<u32>, Seq<char>, Seq<char>)>
    decreases ls.len() - i,
{
    if i < 0 || i >= ls.len() {
        Seq::empty()
    } else {
        match lsof_entry(words_of(ls[i])) {
            Some(e) => if seen.contains(e.0) {
                lsof_ports(ls, i + 1, seen)
            } else {
                seq![e] + lsof_ports(ls, i + 1, seen.insert(e.0))
            },
            None => lsof_ports(ls, i + 1, seen),
        }
    }
}

pub open spec fn port_view(p: PortInfo) -> (u16, Option<u32>, Seq<char>, Seq<char>) {
    (p.port, p.pid, match p.process_name {
        Some(n) => n@,
        None => Seq::empty(),
    }, p.local_address@)
}

fn parse_u16(s: &Vec<char>) -> (r: Option<u16>)
    ensures
        r == parsed_u16(s@),
{
    proof {
        assert(s@.subrange(0, s@.len() as int) == s@);
    }
    match parse_u32(s, 0, s.len()) {
        Some(v) => if v <= 65535 {
            Some(v as u16)
        } else {
            None
        },
        None => None,
    }
}

fn last_colon_tail(s: &Vec<char>) -> (r: Vec<char>)
    ensures
        r@ == after_last_colon(s@),
{
    let mut start: usize = 0;
    let mut i: usize = 0;
    while i < s.len()
        invariant
            start <= i <= s@.len(),
            after_last_colon(s@.subrange(0, i as int)) == s@.subrange(start as int, i as int),
        decreases s.len() - i,
    {
        proof {
            assert(s@.subrange(0, i + 1).drop_last() == s@.subrange(0, i as int));
            assert(s@.subrange(0, i + 1).last() == s@[i as int]);
        }
        if s[i] == ':' {
            start = i + 1;
            proof {
                assert(s@.subrange(start as int, i + 1) =~= Seq::<char>::empty());
            }
        } else {
            proof {
                assert(s@.subrange(start as int, i + 1) == s@.subrange(start as int, i as int).push(
                    s@[i as int],
                ));
            }
        }
        i = i + 1;
    }
    proof {
        assert(s@.subrange(0, s@.len() as int) == s@);
    }
    copy_range(s, start, s.len())
}

/// Reads the listening ports out of `lsof -iTCP -sTCP:LISTEN` (or UDP) output: the lines
/// after the header with at least nine columns whose address ends in a non-zero port,
/// each port once, tagged with `protocol` and `state`.
pub fn parse_lsof_output(stdout: &[u8], protocol: &str, state: &str) -> (r: Result<Vec<PortInfo>, String>)
    ensures
        r is Ok,
        r->Ok_0@.map_values(|p: PortInfo| port_view(p)) == lsof_ports(lines_of(lossy_text(stdout@)), 1, Set::empty()),
        forall|k: int| 0 <= k < r->Ok_0@.len() ==> (#[trigger] r->Ok_0@[k]).protocol@ == protocol@
            && r->Ok_0@[k].state@ == state@ && r->Ok_0@[k].process_name is Some,
{
    let text = decode_lossy(stdout);
    let ls = lines(text.as_str());
    let ghost lv = ls@.map_values(|l: String| l@);
    let mut ports: Vec<PortInfo> = Vec::new();
    let mut seen: Vec<u16> = Vec::new();
    let mut i: usize = 1;
    if ls.len() == 0 {
        proof {
            assert(ports@.map_values(|p: PortInfo| port_view(p)) =~= Seq::empty());
        }
        return Ok(ports);
    }
    proof {
        assert(seen@.to_set() =~= Set::<u16>::empty());
        assert(ports@.map_values(|p: PortInfo| port_view(p)) =~= Seq::empty());
    }
    while i < ls.len()
        invariant
            1 <= i <= ls@.len(),
            lv == ls@.map_values(|l: String| l@),
            lv == lines_of(lossy_text(stdout@)),
            ports@.map_values(|p: PortInfo| port_view(p)) + lsof_ports(lv, i as int, seen@.to_set())
                == lsof_ports(lv, 1, Set::empty()),
            forall|k: int| 0 <= k < ports@.len() ==> (#[trigger] ports@[k]).protocol@ == protocol@
                && ports@[k].state@ == state@ && ports@[k].process_name is Some,
        decreases ls.len() - i,
    {
        let ws = words(ls[i].as_str());
        let ghost wv = ws@.map_values(|w: String| w@);
        assert(lv[i as int] == ls@[i as int]@);
        let ghost before = ports@.map_values(|p: PortInfo| port_view(p));
        if ws.len() >= 9 {
            let addr = chars_of(ws[8].as_str());
            assert(wv[8] == ws@[8]@);
            let tail = last_colon_tail(&addr);
            match parse_u16(&tail) {
                Some(port) => {
                    if port > 0 {
                        let mut dup = false;
                        let mut q: usize = 0;
                        while q < seen.len()
                            invariant
                                q <= seen@.len(),
                                dup == exists|z: int| 0 <= z < q && seen@[z] == port,
                            decreases seen.len() - q,
                        {
                            if seen[q] == port {
                                dup = true;
                            }
                            q = q + 1;
                        }
                        proof {
                            assert(dup == seen@.to_set().contains(port)) by {
                                if seen@.to_set().contains(port) {
                                    let z = choose|z: int| 0 <= z < seen@.len() && seen@[z] == port;
                                    assert(seen@[z] == port);
                                }
                            }
                        }
                        if !dup {
                            let pv = chars_of(ws[1].as_str());
                            assert(wv[1] == ws@[1]@);
                            assert(wv[0] == ws@[0]@);
                            let pid = parse_u32(&pv, 0, pv.len());
                            proof {
                                assert(pv@.subrange(0, pv@.len() as int) == pv@);
                            }
                            let info = PortInfo {
                                port,
                                protocol: protocol.to_owned(),
                                pid,
                                process_name: Some(ws[0].clone()),
                                local_address: ws[8].clone(),
                                state: state.to_owned(),
                            };
                            let ghost old_seen = seen@;
                            ports.push(info);
                            seen.push(port);
                            proof {
                                assert(seen@.to_set() =~= old_seen.to_set().insert(port)) by {
                                    assert forall|x: u16| seen@.to_set().contains(x) <==> old_seen.to_set().insert(port).contains(x) by {
                                        if seen@.to_set().contains(x) {
                                            let z = choose|z: int| 0 <= z < seen@.len() && seen@[z] == x;
                                            if z < old_seen.len() {
                                                assert(old_seen[z] == x);
                                            }
                                        }
                                        if old_seen.to_set().contains(x) {
                                            let z = choose|z: int| 0 <= z < old_seen.len() && old_seen[z] == x;
                                            assert(seen@[z] == x);
                                        }
                                        if x == port {
                                            assert(seen@[seen@.len() - 1] == port);
                                        }
                                    }
                                }
                                let e = (port, pid, ws@[0]@, ws@[8]@);
                                assert(ports@.map_values(|p: PortInfo| port_view(p)) =~= before.push(e));
                                assert(before + (seq![e] + lsof_ports(lv, i + 1, old_seen.to_set().insert(port)))
                                    =~= before.push(e) + lsof_ports(lv, i + 1, old_seen.to_set().insert(port)));
                            }
                        }
                    }
                },
                None => {},
            }
        }
        i = i + 1;
    }
    proof {
        assert(lsof_ports(lv, i as int, seen@.to_set()) =~= Seq::empty());
        assert(ports@.map_values(|p: PortInfo| port_view(p)) + Seq::empty() == ports@.map_values(|p: PortInfo| port_view(p)));
    }
    Ok(ports)
}

/// Two entries for the same port and protocol.
pub open spec fn same_port(a: PortInfo, b: PortInfo) -> bool {
    a.port == b.port && a.protocol@ == b.protocol@
}

/// Some entry of `s` is for the port and protocol of `x`.
pub open spec fn covered(s: Seq<PortInfo>, x: PortInfo) -> bool {
    exists|k: int| 0 <= k < s.len() && same_port(#[trigger] s[k], x)
}

pub open spec fn sorted_by_port(s: Seq<PortInfo>) -> bool {
    forall|a: int, b: int| 0 <= a < b < s.len() ==> s[a].port <= s[b].port
}

pub open spec fn ports_distinct(s: Seq<PortInfo>) -> bool {
    forall|a: int, b: int| 0 <= a < s.len() && 0 <= b < s.len() && a != b ==> !same_port(s[a], s[b])
}

fn insert_by_port(list: &mut Vec<PortInfo>, item: PortInfo)
    requires
        sorted_by_port(old(list)@),
    ensures
        sorted_by_port(final(list)@),
        exists|pos: int| 0 <= pos <= old(list)@.len() && final(list)@ == old(list)@.insert(pos, item),
{
    let ghost before = list@;
    let mut pos: usize = 0;
    while pos < list.len() && list[pos].port <= item.port
        invariant
            pos <= list@.len(),
            list@ == before,
            forall|q: int| 0 <= q < pos ==> list@[q].port <= item.port,
        decreases list.len() - pos,
    {
        pos = pos + 1;
    }
    let ghost port = item.port;
    list.insert(pos, item);
    proof {
        let nr = list@;
        assert(nr == before.insert(pos as int, item));
        assert forall|q: int| 0 <= q < nr.len() implies #[trigger] nr[q] == (if q < pos {
            before[q]
        } else if q == pos {
            item
        } else {
            before[q - 1]
        }) by {}
        assert forall|a: int, b: int| 0 <= a < b < nr.len() implies nr[a].port <= nr[b].port by {
            if b <= pos {
            } else if a < pos {
                assert(before[a].port <= port);
                assert(before[pos as int].port > port);
                assert(before[pos as int].port <= before[b - 1].port || b - 1 == pos);
            } else if a == pos {
                assert(before[pos as int].port > port);
                assert(before[pos as int].port <= before[b - 1].port || b - 1 == pos);
            } else {
                assert(before[a - 1].port <= before[b - 1].port);
            }
        }
    }
}

fn contains_port(list: &Vec<PortInfo>, item: &PortInfo) -> (r: bool)
    ensures
        r == exists|k: int| 0 <= k < list@.len() && same_port(list@[k], *item),
{
    let mut k: usize = 0;
    while k < list.len()
        invariant
            k <= list@.len(),
            forall|q: int| 0 <= q < k ==> !same_port(list@[q], *item),
        decreases list.len() - k,
    {
        if list[k].port == item.port && str_eq(list[k].protocol.as_str(), item.protocol.as_str()) {
            return true;
        }
        k = k + 1;
    }
    false
}

/// Adds the entries of `list` in turn to `all`, skipping those whose port and protocol are
/// already there.
fn merge_into(all: &mut Vec<PortInfo>, list: Vec<PortInfo>)
    requires
        sorted_by_port(old(all)@),
        ports_distinct(old(all)@),
    ensures
        sorted_by_port(final(all)@),
        ports_distinct(final(all)@),
        forall|k: int| 0 <= k < final(all)@.len() ==> old(all)@.contains(#[trigger] final(all)@[k])
            || list@.contains(final(all)@[k]),
        list@.len() > 0 ==> final(all)@.len() > 0,
        forall|q: int| 0 <= q < list@.len() ==> #[trigger] covered(final(all)@, list@[q]),
        forall|q: int| 0 <= q < old(all)@.len() ==> #[trigger] covered(final(all)@, old(all)@[q]),
{
    let ghost src = list@;
    let ghost start = all@;
    let mut list = list;
    let ghost mut taken: int = 0;
    proof {
        assert forall|q: int| 0 <= q < start.len() implies #[trigger] covered(all@, start[q]) by {
            assert(same_port(all@[q], start[q]));
        }
    }
    while list.len() > 0
        invariant
            start == old(all)@,
            0 <= taken,
            taken + list@.len() == src.len(),
            forall|q: int| 0 <= q < list@.len() ==> #[trigger] list@[q] == src[taken + q],
            sorted_by_port(all@),
            ports_distinct(all@),
            forall|k: int| 0 <= k < all@.len() ==> start.contains(#[trigger] all@[k])
                || src.contains(all@[k]),
            taken > 0 ==> all@.len() > 0,
            forall|q: int| 0 <= q < taken ==> #[trigger] covered(all@, src[q]),
            forall|q: int| 0 <= q < start.len() ==> #[trigger] covered(all@, start[q]),
        decreases list.len(),
    {
        let ghost cur = list@;
        let item = list.remove(0);
        proof {
            assert(item == src[taken]);
            assert(src.contains(item));
            assert forall|q: int| 0 <= q < list@.len() implies #[trigger] list@[q] == src[taken + 1 + q] by {
                assert(list@[q] == cur[q + 1]);
            }
        }
        let ghost before = all@;
        if !contains_port(all, &item) {
            insert_by_port(all, item);
            proof {
                let pos = choose|pos: int| 0 <= pos <= before.len() && all@ == before.insert(pos, item);
                assert forall|q: int| 0 <= q < all@.len() implies #[trigger] all@[q] == (if q < pos {
                    before[q]
                } else if q == pos {
                    item
                } else {
                    before[q - 1]
                }) by {}
                assert forall|x: PortInfo| #[trigger] covered(before, x) implies covered(all@, x) by {
                    let k = choose|k: int| 0 <= k < before.len() && same_port(#[trigger] before[k], x);
                    if k < pos {
                        assert(all@[k] == before[k]);
                        assert(same_port(all@[k], x));
                    } else {
                        assert(all@[k + 1] == before[k]);
                        assert(same_port(all@[k + 1], x));
                    }
                }
                assert(same_port(all@[pos], item));
                assert forall|a: int, b: int| 0 <= a < all@.len() && 0 <= b < all@.len() && a != b
                    implies !same_port(all@[a], all@[b]) by {
                    let oa = if a < pos { a } else { a - 1 };
                    let ob = if b < pos { b } else { b - 1 };
                    if a != pos && b != pos {
                        assert(all@[a] == before[oa] && all@[b] == before[ob]);
                    } else if a == pos {
                        assert(all@[b] == before[ob]);
                    } else {
                        assert(all@[a] == before[oa]);
                    }
                }
                assert forall|k: int| 0 <= k < all@.len() implies start.contains(#[trigger] all@[k])
                    || src.contains(all@[k]) by {
                    if k < pos {
                        assert(all@[k] == before[k]);
                    } else if k > pos {
                        assert(all@[k] == before[k - 1]);
                    }
                }
                assert forall|q: int| 0 <= q < taken + 1 implies #[trigger] covered(all@, src[q]) by {
                    if q < taken {
                        assert(covered(before, src[q]));
                    } else {
                        assert(same_port(all@[pos], src[q]));
                    }
                }
                assert forall|q: int| 0 <= q < start.len() implies #[trigger] covered(all@, start[q]) by {
                    assert(covered(before, start[q]));
                }
            }
        } else {
            proof {
                assert forall|q: int| 0 <= q < taken + 1 implies #[trigger] covered(all@, src[q]) by {
                    if q == taken {
                        let k = choose|k: int| 0 <= k < all@.len() && same_port(all@[k], item);
                        assert(same_port(all@[k], src[q]));
                    }
                }
            }
        }
        proof {
            taken = taken + 1;
        }
    }
}

/// Merges the TCP and the UDP listings, where they could be had: one entry per port and
/// protocol (the first wins), ordered by port; an error where nothing was found.
pub fn merge_port_lists(
    tcp: Option<Vec<PortInfo>>,
    udp: Option<Vec<PortInfo>>,
) -> (r: Result<Vec<PortInfo>, String>)
    ensures
        r is Ok ==> sorted_by_port(r->Ok_0@) && ports_distinct(r->Ok_0@),
        r is Ok ==> forall|k: int| 0 <= k < r->Ok_0@.len() ==> (tcp is Some && tcp->Some_0@.contains(
            #[trigger] r->Ok_0@[k],
        )) || (udp is Some && udp->Some_0@.contains(r->Ok_0@[k])),
        r is Ok && tcp is Some ==> forall|q: int|
            0 <= q < tcp->Some_0@.len() ==> #[trigger] covered(r->Ok_0@, tcp->Some_0@[q]),
        r is Ok && udp is Some ==> forall|q: int|
            0 <= q < udp->Some_0@.len() ==> #[trigger] covered(r->Ok_0@, udp->Some_0@[q]),
        r is Err <==> (tcp is None || tcp->Some_0@.len() == 0) && (udp is None
            || udp->Some_0@.len() == 0),
        r is Err ==> r->Err_0@ == "Failed to get port information (may require sudo)"@,
{
    let mut all: Vec<PortInfo> = Vec::new();
    let ghost t = if tcp is Some {
        tcp->Some_0@
    } else {
        Seq::<PortInfo>::empty()
    };
    let ghost u = if udp is Some {
        udp->Some_0@
    } else {
        Seq::<PortInfo>::empty()
    };
    match tcp {
        Some(v) => merge_into(&mut all, v),
        None => {},
    }
    let ghost after_tcp = all@;
    match udp {
        Some(v) => merge_into(&mut all, v),
        None => {},
    }
    proof {
        assert forall|k: int| 0 <= k < all@.len() implies t.contains(#[trigger] all@[k]) || u.contains(all@[k]) by {
            if udp is Some && !u.contains(all@[k]) {
                assert(after_tcp.contains(all@[k]));
                let j = choose|j: int| 0 <= j < after_tcp.len() && after_tcp[j] == all@[k];
                assert(t.contains(after_tcp[j]) || Seq::<PortInfo>::empty().contains(after_tcp[j]));
            }
        }
    }
    proof {
        if after_tcp.len() > 0 && udp is Some {
            assert(covered(all@, after_tcp[0]));
        }
        if tcp is Some && udp is Some {
            assert forall|q: int| 0 <= q < t.len() implies #[trigger] covered(all@, t[q]) by {
                assert(covered(after_tcp, t[q]));
                let j = choose|j: int| 0 <= j < after_tcp.len() && same_port(#[trigger] after_tcp[j], t[q]);
                assert(covered(all@, after_tcp[j]));
                let k = choose|k: int| 0 <= k < all@.len() && same_port(#[trigger] all@[k], after_tcp[j]);
                assert(same_port(all@[k], t[q]));
            }
        }
    }
    if all.len() == 0 {
        proof {
            assert(t.len() == 0);
            assert(u.len() == 0);
        }
        return Err("Failed to get port information (may require sudo)".to_owned());
    }
    proof {
        let x = all@[0];
        assert(t.contains(x) || u.contains(x));
    }
    Ok(all)
}

/// What a listing shows of an entry: port, protocol, address, pid and process name.
pub open spec fn entry_view(p: PortInfo) -> (u16, Seq<char>, Seq<char>, Option<u32>, Option<Seq<char>>) {
    (p.port, p.protocol@, p.local_address@, p.pid, match p.process_name {
        Some(n) => Some(n@),
        None => None,
    })
}

/// The non-zero port at the end of an address such as "127.0.0.1:8080".
pub open spec fn address_port(addr: Seq<char>) -> Option<u16> {
    match parsed_u16(after_last_colon(addr)) {
        Some(p) => if p > 0 {
            Some(p)
        } else {
            None
        },
        None => None,
    }
}

/// `j` is the first word that starts with "users:".
pub open spec fn first_users(w: Seq<Seq<char>>, j: int) -> bool {
    0 <= j < w.len() && starts_with(w[j], "users:"@) && forall|q: int|
        0 <= q < j ==> !starts_with(w[q], "users:"@)
}

/// The entry that one line of `ss -tulnp` gives, split into words: the protocol in upper
/// case, the local address in the fifth column, and the pid and name of its "users:" field.
pub open spec fn ss_entry(w: Seq<Seq<char>>) -> Option<(u16, Seq<char>, Seq<char>, Option<u32>, Option<Seq<char>>)> {
    if w.len() < 5 || address_port(w[4]) is None {
        None
    } else if exists|j: int| first_users(w, j) {
        let j = choose|j: int| first_users(w, j);
        Some((address_port(w[4])->Some_0, upper_of(w[0]), w[4], linux_pid(w[j]), linux_name(w[j])))
    } else {
        Some((address_port(w[4])->Some_0, upper_of(w[0]), w[4], None, None))
    }
}

/// The entry that one line of `netstat -tulnp` gives, split into words: TCP or UDP lines
/// only, the local address in the fourth column, the pid and name in the last.
pub open spec fn netstat_entry(w: Seq<Seq<char>>) -> Option<(u16, Seq<char>, Seq<char>, Option<u32>, Option<Seq<char>>)> {
    if w.len() < 4 {
        None
    } else {
        let proto = upper_of(w[0]);
        if !(starts_with(proto, "TCP"@) || starts_with(proto, "UDP"@)) || address_port(w[3]) is None {
            None
        } else {
            let clean = if starts_with(proto, "TCP"@) {
                "TCP"@
            } else {
                "UDP"@
            };
            let info = netstat_info(w.last());
            Some((address_port(w[3])->Some_0, clean, w[3], info.0, info.1))
        }
    }
}

fn address_port_of(addr: &str) -> (r: Option<u16>)
    ensures
        r == address_port(addr@),
{
    let a = chars_of(addr);
    let tail = last_colon_tail(&a);
    match parse_u16(&tail) {
        Some(p) => if p > 0 {
            Some(p)
        } else {
            None
        },
        None => None,
    }
}

fn has_prefix_str(s: &str, p: &str) -> (r: bool)
    ensures
        r == starts_with(s@, p@),
{
    let sv = chars_of(s);
    let pv = chars_of(p);
    if pv.len() > sv.len() {
        return false;
    }
    let mut i: usize = 0;
    while i < pv.len()
        invariant
            sv@ == s@,
            pv@ == p@,
            pv@.len() <= sv@.len(),
            i <= pv@.len(),
            forall|q: int| 0 <= q < i ==> sv@[q] == pv@[q],
        decreases pv.len() - i,
    {
        if sv[i] != pv[i] {
            proof {
                assert(sv@.subrange(0, pv@.len() as int)[i as int] != pv@[i as int]);
                assert(sv@.subrange(0, pv@.len() as int) != pv@);
            }
            return false;
        }
        i = i + 1;
    }
    proof {
        assert(sv@.subrange(0, pv@.len() as int) =~= pv@);
    }
    true
}

/// The entry of one line of `ss -tulnp`.
pub fn ss_line(line: &str) -> (r: Option<PortInfo>)
    ensures
        r is Some <==> ss_entry(words_of(line@)) is Some,
        r is Some ==> entry_view(r->Some_0) == ss_entry(words_of(line@))->Some_0
            && r->Some_0.state@ == "LISTEN"@,
{
    let ws = words(line);
    let ghost w = ws@.map_values(|x: String| x@);
    if ws.len() < 5 {
        return None;
    }
    assert(w[4] == ws@[4]@);
    assert(w[0] == ws@[0]@);
    let port = match address_port_of(ws[4].as_str()) {
        Some(p) => p,
        None => {
            return None;
        },
    };
    let mut j: usize = 0;
    while j < ws.len() && !has_prefix_str(ws[j].as_str(), "users:")
        invariant
            j <= ws@.len(),
            w == ws@.map_values(|x: String| x@),
            forall|q: int| 0 <= q < j ==> !starts_with(w[q], "users:"@),
        decreases ws.len() - j,
    {
        proof {
            assert(w[j as int] == ws@[j as int]@);
        }
        j = j + 1;
    }
    let (pid, name) = if j < ws.len() {
        proof {
            assert(w[j as int] == ws@[j as int]@);
            assert(first_users(w, j as int));
            assert forall|j2: int| first_users(w, j2) implies j2 == j by {
                if j2 > j {
                    assert(starts_with(w[j as int], "users:"@));
                }
            }
        }
        parse_linux_process_info(ws[j].as_str())
    } else {
        proof {
            assert forall|j2: int| !first_users(w, j2) by {}
        }
        (None, None)
    };
    Some(
        PortInfo {
            port,
            protocol: uppercase(ws[0].as_str()),
            pid,
            process_name: name,
            local_address: ws[4].clone(),
            state: "LISTEN".to_owned(),
        },
    )
}

/// The entry of one line of `netstat -tulnp`.
pub fn netstat_line(line: &str) -> (r: Option<PortInfo>)
    ensures
        r is Some <==> netstat_entry(words_of(line@)) is Some,
        r is Some ==> entry_view(r->Some_0) == netstat_entry(words_of(line@))->Some_0
            && r->Some_0.state@ == "LISTEN"@,
{
    let ws = words(line);
    let ghost w = ws@.map_values(|x: String| x@);
    if ws.len() < 4 {
        return None;
    }
    assert(w[3] == ws@[3]@);
    assert(w[0] == ws@[0]@);
    let proto = uppercase(ws[0].as_str());
    let is_tcp = has_prefix_str(proto.as_str(), "TCP");
    if !is_tcp && !has_prefix_str(proto.as_str(), "UDP") {
        return None;
    }
    let port = match address_port_of(ws[3].as_str()) {
        Some(p) => p,
        None => {
            return None;
        },
    };
    let last = ws.len() - 1;
    assert(w.last() == ws@[last as int]@);
    let (pid, name) = parse_netstat_process_info(ws[last].as_str());
    Some(
        PortInfo {
            port,
            protocol: if is_tcp {
                "TCP".to_owned()
            } else {
                "UDP".to_owned()
            },
            pid,
            process_name: name,
            local_address: ws[3].clone(),
            state: "LISTEN".to_owned(),
        },
    )
}

/// The entry of a listing line: `netstat` or `ss` format.
pub open spec fn line_entry(netstat: bool, line: Seq<char>) -> Option<(u16, Seq<char>, Seq<char>, Option<u32>, Option<Seq<char>>)> {
    if netstat {
        netstat_entry(words_of(line))
    } else {
        ss_entry(words_of(line))
    }
}

/// `p` is the entry of one of the lines `ls[from..]`.
pub open spec fn from_some_line(ls: Seq<Seq<char>>, from: int, netstat: bool, p: PortInfo) -> bool {
    exists|i: int| from <= i < ls.len() && #[trigger] line_entry(netstat, ls[i]) == Some(entry_view(p))
}

/// `ps` is a listing of the lines `ls[from..]`: sorted by port, one entry per port and
/// protocol, each from one of the lines, and every line's port and protocol present.
pub open spec fn is_listing(ps: Seq<PortInfo>, ls: Seq<Seq<char>>, from: int, netstat: bool) -> bool {
    &&& sorted_by_port(ps)
    &&& ports_distinct(ps)
    &&& forall|k: int| 0 <= k < ps.len() ==> #[trigger] from_some_line(ls, from, netstat, ps[k])
    &&& forall|i: int| from <= i < ls.len() && #[trigger] line_entry(netstat, ls[i]) is Some
        ==> exists|k: int| 0 <= k < ps.len() && ps[k].port == line_entry(netstat, ls[i])->Some_0.0
            && ps[k].protocol@ == line_entry(netstat, ls[i])->Some_0.1
}

fn listing(stdout: &[u8], from: usize, netstat: bool) -> (r: Vec<PortInfo>)
    ensures
        is_listing(r@, lines_of(lossy_text(stdout@)), from as int, netstat),
{
    let text = decode_lossy(stdout);
    let ls = lines(text.as_str());
    let ghost lv = ls@.map_values(|l: String| l@);
    let mut list: Vec<PortInfo> = Vec::new();
    let mut i: usize = from;
    while i < ls.len()
        invariant
            lv == ls@.map_values(|l: String| l@),
            lv == lines_of(lossy_text(stdout@)),
            from <= i || i >= ls@.len(),
            forall|k: int| 0 <= k < list@.len() ==> #[trigger] from_some_line(lv, from as int, netstat, list@[k]),
            forall|i2: int| from <= i2 < i && #[trigger] line_entry(netstat, lv[i2]) is Some
                ==> exists|k: int| 0 <= k < list@.len() && entry_view(list@[k]) == line_entry(netstat, lv[i2])->Some_0,
        decreases ls.len() - i,
    {
        assert(lv[i as int] == ls@[i as int]@);
        let entry = if netstat {
            netstat_line(ls[i].as_str())
        } else {
            ss_line(ls[i].as_str())
        };
        let ghost old_list = list@;
        match entry {
            Some(info) => {
                list.push(info);
                proof {
                    assert forall|k: int| 0 <= k < list@.len() implies #[trigger] from_some_line(lv, from as int, netstat, list@[k]) by {
                        if k < old_list.len() {
                            assert(list@[k] == old_list[k]);
                        } else {
                            assert(line_entry(netstat, lv[i as int]) == Some(entry_view(list@[k])));
                        }
                    }
                    assert forall|i2: int| from <= i2 < i + 1 && #[trigger] line_entry(netstat, lv[i2]) is Some
                        implies exists|k: int| 0 <= k < list@.len() && entry_view(list@[k]) == line_entry(netstat, lv[i2])->Some_0 by {
                        if i2 < i {
                            let k = choose|k: int| 0 <= k < old_list.len() && entry_view(old_list[k]) == line_entry(netstat, lv[i2])->Some_0;
                            assert(list@[k] == old_list[k]);
                        } else {
                            assert(entry_view(list@[old_list.len() as int]) == line_entry(netstat, lv[i2])->Some_0);
                        }
                    }
                }
            },
            None => {},
        }
        i = i + 1;
    }
    let mut all: Vec<PortInfo> = Vec::new();
    let ghost items = list@;
    merge_into(&mut all, list);
    proof {
        assert forall|k: int| 0 <= k < all@.len() implies #[trigger] from_some_line(lv, from as int, netstat, all@[k]) by {
            assert(items.contains(all@[k]));
            let q = choose|q: int| 0 <= q < items.len() && items[q] == all@[k];
            assert(from_some_line(lv, from as int, netstat, items[q]));
        }
        assert forall|i2: int| from <= i2 < lv.len() && #[trigger] line_entry(netstat, lv[i2]) is Some
            implies exists|k: int| 0 <= k < all@.len() && all@[k].port == line_entry(netstat, lv[i2])->Some_0.0
                && all@[k].protocol@ == line_entry(netstat, lv[i2])->Some_0.1 by {
            let q = choose|q: int| 0 <= q < items.len() && entry_view(items[q]) == line_entry(netstat, lv[i2])->Some_0;
            assert(covered(all@, items[q]));
            let k = choose|k: int| 0 <= k < all@.len() && same_port(#[trigger] all@[k], items[q]);
            assert(all@[k].port == items[q].port);
        }
    }
    all
}

/// The listening ports in `ss -tulnp` output, after its header line, ordered by port.
pub fn parse_ss_output(stdout: &[u8]) -> (r: Vec<PortInfo>)
    ensures
        is_listing(r@, lines_of(lossy_text(stdout@)), 1, false),
{
    listing(stdout, 1, false)
}

/// The listening ports in `netstat -tulnp` output, ordered by port.
pub fn parse_netstat_output(stdout: &[u8]) -> (r: Vec<PortInfo>)
    ensures
        is_listing(r@, lines_of(lossy_text(stdout@)), 0, true),
{
    listing(stdout, 0, true)
}

} // verus!
