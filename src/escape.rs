use vstd::prelude::*;

use crate::text::{chars_of, contains, contains_chars, string_of};

verus! {

pub const ESC: char = '\x1b';

pub const BEL: char = '\x07';

/// A character that may stand among the parameters of a CSI sequence.
pub open spec fn is_csi_param(c: char) -> bool {
    ('0' <= c && c <= '9') || c == ';' || c == '?' || c == '>' || c == '!'
}

/// The index at which the run of CSI parameter characters that starts at `j` ends.
pub open spec fn csi_end(s: Seq<char>, j: int) -> int
    decreases s.len() - j,
{
    if j < 0 || j >= s.len() || !is_csi_param(s[j]) {
        j
    } else {
        csi_end(s, j + 1)
    }
}

/// The payload of an OSC sequence whose body starts at `j`, and the index just past
/// its terminator (BEL or ESC `\`), or the end of the input. An ESC that does not
/// begin a terminator is left out of the payload.
pub open spec fn osc_scan(s: Seq<char>, j: int) -> (Seq<char>, int)
    decreases s.len() - j,
{
    if j < 0 || j >= s.len() {
        (Seq::empty(), j)
    } else if s[j] == BEL {
        (Seq::empty(), j + 1)
    } else if s[j] == ESC {
        if j + 1 < s.len() && s[j + 1] == '\\' {
            (Seq::empty(), j + 2)
        } else {
            osc_scan(s, j + 1)
        }
    } else {
        let rest = osc_scan(s, j + 1);
        (seq![s[j]] + rest.0, rest.1)
    }
}

/// A CSI sequence that switches column mode (`?3`), reverse video (`?5`),
/// or asks for a window resize (`8 ... t`).
pub open spec fn csi_dangerous(params: Seq<char>, cmd: Option<char>) -> bool {
    match cmd {
        Some(c) => ((c == 'h' || c == 'l') && (contains(params, seq!['?', '3'])
            || contains(params, seq!['?', '5']))) || (c == 't' && params.len() > 0 && params[0]
            == '8'),
        None => false,
    }
}

/// An OSC payload that asks for a color or size report (`10...`, `11...`).
pub open spec fn osc_blocked(payload: Seq<char>) -> bool {
    payload.len() >= 2 && payload[0] == '1' && (payload[1] == '0' || payload[1] == '1')
}

/// What the filter emits for the input from index `i` on.
pub open spec fn filter_from(s: Seq<char>, i: int) -> Seq<char>
    decreases s.len() - i,
{
    if i < 0 || i >= s.len() {
        Seq::empty()
    } else if s[i] == BEL {
        filter_from(s, i + 1)
    } else if s[i] != ESC || i + 1 >= s.len() {
        seq![s[i]] + filter_from(s, i + 1)
    } else if s[i + 1] == '[' {
        let e = csi_end(s, i + 2);
        let params = s.subrange(i + 2, e);
        let cmd = if e < s.len() { Some(s[e]) } else { None };
        let next = if e < s.len() { e + 1 } else { e };
        proof {
            lemma_csi_end_bounds(s, i + 2);
        }
        if csi_dangerous(params, cmd) {
            filter_from(s, next)
        } else {
            s.subrange(i, next) + filter_from(s, next)
        }
    } else if s[i + 1] == ']' {
        let scan = osc_scan(s, i + 2);
        proof {
            lemma_osc_scan_bounds(s, i + 2);
        }
        if osc_blocked(scan.0) {
            filter_from(s, scan.1)
        } else {
            seq![ESC, ']'] + scan.0 + seq![BEL] + filter_from(s, scan.1)
        }
    } else {
        seq![s[i], s[i + 1]] + filter_from(s, i + 2)
    }
}

/// The filtered form of a whole chunk.
pub open spec fn filtered(s: Seq<char>) -> Seq<char> {
    filter_from(s, 0)
}

/// The chunk with every BEL removed.
pub open spec fn without_bell(s: Seq<char>) -> Seq<char> {
    s.filter(|c: char| c != BEL)
}

pub proof fn lemma_csi_end_bounds(s: Seq<char>, j: int)
    requires
        0 <= j <= s.len(),
    ensures
        j <= csi_end(s, j) <= s.len(),
        forall|k: int| j <= k < csi_end(s, j) ==> is_csi_param(#[trigger] s[k]),
        csi_end(s, j) < s.len() ==> !is_csi_param(s[csi_end(s, j)]),
    decreases s.len() - j,
{
    if j < s.len() && is_csi_param(s[j]) {
        lemma_csi_end_bounds(s, j + 1);
    }
}

pub proof fn lemma_osc_scan_bounds(s: Seq<char>, j: int)
    requires
        0 <= j <= s.len(),
    ensures
        j <= osc_scan(s, j).1 <= s.len(),
    decreases s.len() - j,
{
    if j < s.len() && s[j] != BEL {
        if s[j] == ESC {
            if !(j + 1 < s.len() && s[j + 1] == '\\') {
                lemma_osc_scan_bounds(s, j + 1);
            }
        } else {
            lemma_osc_scan_bounds(s, j + 1);
        }
    }
}

/// Reads the OSC body that starts at `start`; returns its payload and the index past it.
fn scan_osc(s: &Vec<char>, start: usize) -> (r: (Vec<char>, usize))
    requires
        start <= s.len(),
    ensures
        r.0@ == osc_scan(s@, start as int).0,
        r.1 as int == osc_scan(s@, start as int).1,
{
    let mut payload: Vec<char> = Vec::new();
    let mut j: usize = start;
    while j < s.len()
        invariant
            start <= j <= s.len(),
            osc_scan(s@, start as int) == (payload@ + osc_scan(s@, j as int).0, osc_scan(
                s@,
                j as int,
            ).1),
        decreases s.len() - j,
    {
        let c = s[j];
        if c == BEL {
            return (payload, j + 1);
        } else if c == ESC {
            if j + 1 < s.len() && s[j + 1] == '\\' {
                return (payload, j + 2);
            }
            j = j + 1;
        } else {
            proof {
                let rest = osc_scan(s@, j + 1);
                assert(payload@ + (seq![c] + rest.0) == payload@.push(c) + rest.0);
            }
            payload.push(c);
            j = j + 1;
        }
    }
    proof {
        assert(payload@ + Seq::<char>::empty() == payload@);
    }
    (payload, j)
}

fn is_csi_param_char(c: char) -> (r: bool)
    ensures
        r == is_csi_param(c),
{
    ('0' <= c && c <= '9') || c == ';' || c == '?' || c == '>' || c == '!'
}

fn push_all(out: &mut Vec<char>, s: &Vec<char>, from: usize, to: usize)
    requires
        from <= to <= s.len(),
    ensures
        final(out)@ == old(out)@ + s@.subrange(from as int, to as int),
{
    let mut k: usize = from;
    while k < to
        invariant
            from <= k <= to <= s.len(),
            out@ == old(out)@ + s@.subrange(from as int, k as int),
        decreases to - k,
    {
        proof {
            assert(s@.subrange(from as int, k + 1) == s@.subrange(from as int, k as int).push(
                s@[k as int],
            ));
        }
        out.push(s[k]);
        k = k + 1;
    }
}

/// Removes the control sequences that could break the host's layout: column-mode and
/// reverse-video switches, window-resize requests, color and size report requests, and
/// stray BEL characters. Every other character and sequence passes unchanged; an OSC
/// sequence that stays is re-terminated with BEL. Each chunk is filtered on its own: a
/// sequence split across two chunks may escape the filter.
pub fn filter_dangerous_escapes(data: &str) -> (r: String)
    ensures
        r@ == filtered(data@),
{
    let s = chars_of(data);
    let mut out: Vec<char> = Vec::new();
    let mut i: usize = 0;
    let q3: Vec<char> = vec!['?', '3'];
    let q5: Vec<char> = vec!['?', '5'];
    assert(q3@ == seq!['?', '3']);
    assert(q5@ == seq!['?', '5']);
    while i < s.len()
        invariant
            s@ == data@,
            i <= s.len(),
            q3@ == seq!['?', '3'],
            q5@ == seq!['?', '5'],
            out@ + filter_from(s@, i as int) == filtered(s@),
        decreases s.len() - i,
    {
        let c = s[i];
        if c == BEL {
            i = i + 1;
        } else if c != ESC || i + 1 >= s.len() {
            proof {
                assert(out@ + (seq![c] + filter_from(s@, i + 1)) == out@.push(c) + filter_from(
                    s@,
                    i + 1,
                ));
            }
            out.push(c);
            i = i + 1;
        } else if s[i + 1] == '[' {
            let mut e: usize = i + 2;
            while e < s.len() && is_csi_param_char(s[e])
                invariant
                    i + 2 <= e <= s.len(),
                    csi_end(s@, i + 2) == csi_end(s@, e as int),
                decreases s.len() - e,
            {
                e = e + 1;
            }
            let mut params: Vec<char> = Vec::new();
            push_all(&mut params, &s, i + 2, e);
            let cmd: Option<char> = if e < s.len() {
                Some(s[e])
            } else {
                None
            };
            let next: usize = if e < s.len() {
                e + 1
            } else {
                e
            };
            let ghost old_out = out@;
            let dangerous = match cmd {
                Some(ch) => ((ch == 'h' || ch == 'l') && (contains_chars(&params, &q3)
                    || contains_chars(&params, &q5))) || (ch == 't' && params.len() > 0
                    && params[0] == '8'),
                None => false,
            };
            if !dangerous {
                push_all(&mut out, &s, i, next);
            }
            proof {
                assert(params@ == s@.subrange(i + 2, e as int));
                assert(dangerous == csi_dangerous(s@.subrange(i + 2, e as int), cmd));
                lemma_csi_end_bounds(s@, i + 2);
                let piece = s@.subrange(i as int, next as int);
                let rest = filter_from(s@, next as int);
                assert(old_out + (piece + rest) =~= (old_out + piece) + rest);
            }
            i = next;
        } else if s[i + 1] == ']' {
            let scan = scan_osc(&s, i + 2);
            let payload = scan.0;
            proof {
                lemma_osc_scan_bounds(s@, i + 2);
            }
            let blocked = payload.len() >= 2 && payload[0] == '1' && (payload[1] == '0'
                || payload[1] == '1');
            if !blocked {
                let ghost before = out@;
                out.push(ESC);
                out.push(']');
                push_all(&mut out, &payload, 0, payload.len());
                out.push(BEL);
                proof {
                    assert(payload@.subrange(0, payload@.len() as int) == payload@);
                    let piece = seq![ESC, ']'] + payload@ + seq![BEL];
                    let rest = filter_from(s@, scan.1 as int);
                    assert(out@ =~= before + piece);
                    assert(before + (piece + rest) =~= (before + piece) + rest);
                }
            }
            i = scan.1;
        } else {
            let d = s[i + 1];
            proof {
                assert(out@ + (seq![c, d] + filter_from(s@, i + 2)) == out@.push(c).push(d)
                    + filter_from(s@, i + 2));
            }
            out.push(c);
            out.push(d);
            i = i + 2;
        }
    }
    proof {
        assert(out@ + Seq::<char>::empty() == out@);
    }
    string_of(&out)
}

/// Removes every BEL character, so that the shell cannot sound the bell.
pub fn strip_bell(data: &str) -> (r: String)
    ensures
        r@ == without_bell(data@),
{
    let s = chars_of(data);
    let mut out: Vec<char> = Vec::new();
    let mut i: usize = 0;
    while i < s.len()
        invariant
            s@ == data@,
            i <= s.len(),
            out@ == without_bell(s@.subrange(0, i as int)),
        decreases s.len() - i,
    {
        proof {
            let pre = s@.subrange(0, i as int);
            assert(s@.subrange(0, i + 1) == pre.push(s@[i as int]));
            pre.lemma_filter_push(s@[i as int], |c: char| c != BEL);
        }
        if s[i] != BEL {
            out.push(s[i]);
        }
        i = i + 1;
    }
    proof {
        assert(s@.subrange(0, s@.len() as int) == s@);
    }
    string_of(&out)
}

/// A character that the filter passes through on its own.
pub open spec fn is_plain(c: char) -> bool {
    c != ESC && c != BEL
}

/// A run of plain characters passes through unchanged, and the filter goes on after it.
pub proof fn lemma_plain_run(s: Seq<char>, i: int, j: int)
    requires
        0 <= i <= j <= s.len(),
        forall|k: int| i <= k < j ==> is_plain(#[trigger] s[k]),
    ensures
        filter_from(s, i) == s.subrange(i, j) + filter_from(s, j),
    decreases j - i,
{
    if i < j {
        lemma_plain_run(s, i + 1, j);
        assert(s.subrange(i, j) == seq![s[i]] + s.subrange(i + 1, j));
    } else {
        assert(s.subrange(i, j) == Seq::<char>::empty());
    }
}

/// Text without ESC and BEL characters comes out of the filter unchanged.
pub proof fn lemma_plain_text_unchanged(s: Seq<char>)
    requires
        forall|k: int| 0 <= k < s.len() ==> is_plain(#[trigger] s[k]),
    ensures
        filtered(s) == s,
{
    lemma_plain_run(s, 0, s.len() as int);
    assert(s.subrange(0, s.len() as int) == s);
    assert(s.subrange(0, s.len() as int) + Seq::<char>::empty() == s);
}

/// A switch to 132-column mode (ESC `[?3h`) is removed, and the plain text on either
/// side of it is kept exactly.
pub proof fn lemma_column_mode_removed(pre: Seq<char>, post: Seq<char>)
    requires
        forall|k: int| 0 <= k < pre.len() ==> is_plain(#[trigger] pre[k]),
        forall|k: int| 0 <= k < post.len() ==> is_plain(#[trigger] post[k]),
    ensures
        filtered(pre + seq![ESC, '[', '?', '3', 'h'] + post) == pre + post,
{
    let s = pre + seq![ESC, '[', '?', '3', 'h'] + post;
    let p = pre.len() as int;
    assert forall|k: int| 0 <= k < p implies is_plain(#[trigger] s[k]) by {
        assert(s[k] == pre[k]);
    }
    lemma_plain_run(s, 0, p);
    assert(s[p] == ESC);
    assert(s[p + 1] == '[');
    assert(s[p + 2] == '?');
    assert(s[p + 3] == '3');
    assert(s[p + 4] == 'h');
    assert(csi_end(s, p + 4) == p + 4);
    assert(csi_end(s, p + 3) == p + 4);
    assert(csi_end(s, p + 2) == p + 4);
    let params = s.subrange(p + 2, p + 4);
    let q = seq!['?', '3'];
    assert(params.subrange(0, 0 + q.len() as int) == q);
    assert(contains(params, q));
    assert(csi_dangerous(params, Some('h')));
    assert(filter_from(s, p) == filter_from(s, p + 5));
    assert forall|k: int| p + 5 <= k < s.len() implies is_plain(#[trigger] s[k]) by {
        assert(s[k] == post[k - p - 5]);
    }
    lemma_plain_run(s, p + 5, s.len() as int);
    assert(s.subrange(0, p) == pre);
    assert(s.subrange(p + 5, s.len() as int) == post);
    assert(post + Seq::<char>::empty() == post);
}

/// A BEL outside any OSC sequence is removed, and the plain text on either side of it
/// is kept exactly.
pub proof fn lemma_bell_removed(pre: Seq<char>, post: Seq<char>)
    requires
        forall|k: int| 0 <= k < pre.len() ==> is_plain(#[trigger] pre[k]),
        forall|k: int| 0 <= k < post.len() ==> is_plain(#[trigger] post[k]),
    ensures
        filtered(pre + seq![BEL] + post) == pre + post,
{
    let s = pre + seq![BEL] + post;
    let p = pre.len() as int;
    assert forall|k: int| 0 <= k < p implies is_plain(#[trigger] s[k]) by {
        assert(s[k] == pre[k]);
    }
    lemma_plain_run(s, 0, p);
    assert(s[p] == BEL);
    assert(filter_from(s, p) == filter_from(s, p + 1));
    assert forall|k: int| p + 1 <= k < s.len() implies is_plain(#[trigger] s[k]) by {
        assert(s[k] == post[k - p - 1]);
    }
    lemma_plain_run(s, p + 1, s.len() as int);
    assert(s.subrange(0, p) == pre);
    assert(s.subrange(p + 1, s.len() as int) == post);
    assert(post + Seq::<char>::empty() == post);
}

} // verus!
