use vstd::prelude::*;

use crate::text::{chars_of, is_lower, is_upper, join, lower_char, lower_of, lowercase, upper_char};

verus! {

/// Score and matched character positions of a fuzzy match.
pub struct FuzzyMatch {
    pub score: i32,
    pub matched_indices: Vec<usize>,
}

/// The score of a cell that no match reaches.
pub const NEG: i32 = -1073741824;

/// The longest (lower-cased) pattern that is matched; longer ones match nothing. A match
/// scores at most 50 per character, and the score must fit an `i32` beside the unreachable
/// mark `NEG`.
pub const MAX_PATTERN_LEN: usize = 20000000;

/// Characters after which a match starts a word.
pub open spec fn is_sep(c: char) -> bool {
    c == ' ' || c == '.' || c == '_' || c == '-' || c == '/' || c == ':' || c == '\\'
}

/// The bonus for matching the pattern's next character at `pos` of the text as written:
/// a base of 10, 15 more for the pattern's first character at the very start, 20 at the
/// start of the text or of a word, 15 at a camelCase boundary, and 5 for an upper-case
/// character.
pub open spec fn bonus(o: Seq<char>, pos: int, first: bool) -> int {
    10 + (if first && pos == 0 {
        15int
    } else {
        0int
    }) + (if pos > 0 {
        if pos - 1 < o.len() && is_sep(o[pos - 1]) {
            20int
        } else if pos < o.len() && lower_char(o[pos - 1]) && upper_char(o[pos]) {
            15int
        } else {
            0int
        }
    } else {
        20int
    }) + (if 0 <= pos < o.len() && upper_char(o[pos]) {
        5int
    } else {
        0int
    })
}

/// `e` places the first `i` pattern characters, in order, at distinct positions of
/// `t` below `j`.
pub open spec fn is_embedding_at(p: Seq<char>, t: Seq<char>, e: Seq<int>, i: int, j: int) -> bool {
    &&& e.len() == i
    &&& i <= p.len()
    &&& j <= t.len()
    &&& forall|k: int| 0 <= k < i ==> 0 <= #[trigger] e[k] < j && t[e[k]] == p[k]
    &&& forall|a: int, b: int| 0 <= a < b < i ==> e[a] < e[b]
}

/// `e` places the whole pattern `p` in `t`.
pub open spec fn embeds(p: Seq<char>, t: Seq<char>, e: Seq<int>) -> bool {
    is_embedding_at(p, t, e, p.len() as int, t.len() as int)
}

/// The score of a placement: the sum of the bonuses of its positions.
pub open spec fn match_score(o: Seq<char>, e: Seq<int>) -> int
    decreases e.len(),
{
    if e.len() == 0 {
        0
    } else {
        match_score(o, e.drop_last()) + bonus(o, e.last(), e.len() == 1)
    }
}

/// `(s, e)` is a best placement of `p` in `t`: a placement whose score `s` no other
/// placement exceeds.
pub open spec fn is_best_match(p: Seq<char>, t: Seq<char>, o: Seq<char>, s: int, e: Seq<int>) -> bool {
    &&& embeds(p, t, e)
    &&& s == match_score(o, e)
    &&& forall|e2: Seq<int>| embeds(p, t, e2) ==> match_score(o, e2) <= s
    &&& forall|e2: Seq<int>| embeds(p, t, e2) && match_score(o, e2) == s ==> earlier_or_same(e, e2)
}

/// Among placements of the same length, `a` comes no later than `b`: its last position is
/// earlier, or the same with the rest of `a` no later than the rest of `b`.
pub open spec fn earlier_or_same(a: Seq<int>, b: Seq<int>) -> bool
    decreases a.len(),
{
    if a.len() == 0 || a.len() != b.len() {
        true
    } else if a.last() < b.last() {
        true
    } else if a.last() == b.last() {
        earlier_or_same(a.drop_last(), b.drop_last())
    } else {
        false
    }
}

pub open spec fn index_view(v: Seq<usize>) -> Seq<int> {
    v.map_values(|x: usize| x as int)
}


fn is_separator(c: char) -> (r: bool)
    ensures
        r == is_sep(c),
{
    c == ' ' || c == '.' || c == '_' || c == '-' || c == '/' || c == ':' || c == '\\'
}

fn calculate_match_bonus(pos: usize, text: &Vec<char>, is_first: bool) -> (r: i32)
    ensures
        r == bonus(text@, pos as int, is_first),
        10 <= r <= 50,
{
    let mut b: i32 = 10;
    if is_first && pos == 0 {
        b = b + 15;
    }
    if pos > 0 {
        if pos - 1 < text.len() && is_separator(text[pos - 1]) {
            b = b + 20;
        } else if pos < text.len() && is_lower(text[pos - 1]) && is_upper(text[pos]) {
            b = b + 15;
        }
    } else {
        b = b + 20;
    }
    if pos < text.len() && is_upper(text[pos]) {
        b = b + 5;
    }
    b
}

/// How the best score of a cell was reached.
#[derive(Clone, Copy, PartialEq, Eq, Structural)]
enum Step {
    /// No placement reaches the cell.
    Stay,
    /// The text character is skipped.
    Skip,
    /// The text character matches the pattern character.
    Take,
}

/// Cell `(i, j)` of the table, for `i >= 1`, given row `i - 1`, row `i` and its steps.
spec fn cell_ok(
    p: Seq<char>,
    t: Seq<char>,
    o: Seq<char>,
    prev: Seq<i32>,
    row: Seq<i32>,
    steps: Seq<Step>,
    i: int,
    j: int,
) -> bool {
    &&& NEG <= row[j] <= 50 * i
    &&& (row[j] >= 0 || row[j] <= NEG + 50 * i)
    &&& j < i ==> row[j] == NEG && steps[j] == Step::Stay
    &&& j >= i ==> {
        &&& row[j] >= row[j - 1]
        &&& p[i - 1] == t[j - 1] ==> row[j] >= prev[j - 1] + bonus(o, j - 1, i == 1)
        &&& steps[j] == Step::Skip ==> row[j] == row[j - 1]
        &&& steps[j] == Step::Take ==> row[j] > row[j - 1]
        &&& steps[j] == Step::Take ==> p[i - 1] == t[j - 1] && row[j] == prev[j - 1] + bonus(
            o,
            j - 1,
            i == 1,
        )
        &&& steps[j] == Step::Stay ==> row[j] == NEG
    }
}

/// The first `rows` rows of the score table `d` and the step table `f` are filled in.
spec fn table_ok(
    p: Seq<char>,
    t: Seq<char>,
    o: Seq<char>,
    d: Seq<Seq<i32>>,
    f: Seq<Seq<Step>>,
    rows: int,
) -> bool {
    &&& d.len() == rows
    &&& f.len() == rows
    &&& rows >= 1
    &&& rows <= p.len() + 1
    &&& p.len() <= MAX_PATTERN_LEN
    &&& forall|r: int| 0 <= r < rows ==> #[trigger] d[r].len() == t.len() + 1
    &&& forall|r: int| 0 <= r < rows ==> #[trigger] f[r].len() == t.len() + 1
    &&& forall|c: int| 0 <= c <= t.len() ==> #[trigger] d[0][c] == 0
    &&& forall|r: int, c: int|
        1 <= r < rows && 0 <= c <= t.len() ==> #[trigger] cell_ok(p, t, o, d[r - 1], d[r], f[r], r, c)
}

proof fn lemma_cell(
    p: Seq<char>,
    t: Seq<char>,
    o: Seq<char>,
    d: Seq<Seq<i32>>,
    f: Seq<Seq<Step>>,
    rows: int,
    r: int,
    c: int,
)
    requires
        table_ok(p, t, o, d, f, rows),
        1 <= r < rows,
        0 <= c <= t.len(),
    ensures
        cell_ok(p, t, o, d[r - 1], d[r], f[r], r, c),
{
}

/// The placement that following the steps back from cell `(i, j)` gives.
spec fn path(f: Seq<Seq<Step>>, i: int, j: int) -> Seq<int>
    decreases i + j,
{
    if i <= 0 || j <= 0 || i >= f.len() || j >= f[i].len() {
        Seq::empty()
    } else if f[i][j] == Step::Skip {
        path(f, i, j - 1)
    } else if f[i][j] == Step::Take {
        path(f, i - 1, j - 1).push(j - 1)
    } else {
        Seq::empty()
    }
}

proof fn lemma_score_nonneg(o: Seq<char>, e: Seq<int>)
    ensures
        match_score(o, e) >= 0,
    decreases e.len(),
{
    if e.len() > 0 {
        lemma_score_nonneg(o, e.drop_last());
    }
}

proof fn lemma_embedding_fits(p: Seq<char>, t: Seq<char>, e: Seq<int>, i: int, j: int)
    requires
        is_embedding_at(p, t, e, i, j),
        i > 0,
    ensures
        e[i - 1] >= i - 1,
        i <= j,
    decreases i,
{
    if i > 1 {
        let e2 = e.drop_last();
        assert(is_embedding_at(p, t, e2, i - 1, e[i - 1])) by {
            assert forall|k: int| 0 <= k < i - 1 implies 0 <= #[trigger] e2[k] < e[i - 1] && t[e2[k]]
                == p[k] by {
                assert(e2[k] == e[k]);
            }
        }
        lemma_embedding_fits(p, t, e2, i - 1, e[i - 1]);
    }
}

/// Every placement of the first `i` pattern characters below `j` scores at most the cell.
proof fn lemma_cell_is_upper_bound(
    p: Seq<char>,
    t: Seq<char>,
    o: Seq<char>,
    d: Seq<Seq<i32>>,
    f: Seq<Seq<Step>>,
    i: int,
    j: int,
    e: Seq<int>,
)
    requires
        table_ok(p, t, o, d, f, p.len() + 1int),
        0 <= i <= p.len(),
        0 <= j <= t.len(),
        is_embedding_at(p, t, e, i, j),
    ensures
        d[i][j] >= match_score(o, e),
    decreases j,
{
    if i == 0 {
        assert(e.len() == 0);
    } else {
        lemma_embedding_fits(p, t, e, i, j);
        assert(cell_ok(p, t, o, d[i - 1], d[i], f[i], i, j));
        let last = e[i - 1];
        if last < j - 1 {
            assert(is_embedding_at(p, t, e, i, j - 1)) by {
                assert forall|k: int| 0 <= k < i implies 0 <= #[trigger] e[k] < j - 1 && t[e[k]]
                    == p[k] by {
                    if k < i - 1 {
                        assert(e[k] < e[i - 1]);
                    }
                }
            }
            lemma_cell_is_upper_bound(p, t, o, d, f, i, j - 1, e);
        } else {
            let e2 = e.drop_last();
            assert(is_embedding_at(p, t, e2, i - 1, j - 1)) by {
                assert forall|k: int| 0 <= k < i - 1 implies 0 <= #[trigger] e2[k] < j - 1 && t[e2[k]]
                    == p[k] by {
                    assert(e2[k] == e[k]);
                    assert(e[k] < e[i - 1]);
                }
            }
            lemma_cell_is_upper_bound(p, t, o, d, f, i - 1, j - 1, e2);
        }
    }
}

/// A reachable cell's steps lead back to a placement that scores exactly the cell.
proof fn lemma_path_scores_cell(
    p: Seq<char>,
    t: Seq<char>,
    o: Seq<char>,
    d: Seq<Seq<i32>>,
    f: Seq<Seq<Step>>,
    i: int,
    j: int,
)
    requires
        table_ok(p, t, o, d, f, p.len() + 1int),
        0 <= i <= p.len(),
        0 <= j <= t.len(),
        d[i][j] >= 0,
    ensures
        is_embedding_at(p, t, path(f, i, j), i, j),
        match_score(o, path(f, i, j)) == d[i][j],
    decreases i + j,
{
    if i == 0 {
        assert(path(f, i, j) =~= Seq::<int>::empty());
    } else {
        assert(cell_ok(p, t, o, d[i - 1], d[i], f[i], i, j));
        if f[i][j] == Step::Skip {
            lemma_path_scores_cell(p, t, o, d, f, i, j - 1);
        } else if f[i][j] == Step::Take {
            lemma_take_reachable(p, t, o, d, f, i, j);
            lemma_path_scores_cell(p, t, o, d, f, i - 1, j - 1);
            let e2 = path(f, i - 1, j - 1);
            let e = e2.push(j - 1);
            assert(e.drop_last() == e2);
            assert forall|k: int| 0 <= k < i implies 0 <= #[trigger] e[k] < j && t[e[k]] == p[k] by {
                if k < i - 1 {
                    assert(e[k] == e2[k]);
                }
            }
            assert forall|a: int, b: int| 0 <= a < b < i implies e[a] < e[b] by {
                if b < i - 1 {
                    assert(e[a] == e2[a] && e[b] == e2[b]);
                } else {
                    assert(e[a] == e2[a]);
                }
            }
        }
    }
}

/// Among the best placements below a reachable cell, the steps lead back to the earliest.
proof fn lemma_path_is_earliest(
    p: Seq<char>,
    t: Seq<char>,
    o: Seq<char>,
    d: Seq<Seq<i32>>,
    f: Seq<Seq<Step>>,
    i: int,
    j: int,
    e: Seq<int>,
)
    requires
        table_ok(p, t, o, d, f, p.len() + 1int),
        0 <= i <= p.len(),
        0 <= j <= t.len(),
        d[i][j] >= 0,
        is_embedding_at(p, t, e, i, j),
        match_score(o, e) == d[i][j],
    ensures
        earlier_or_same(path(f, i, j), e),
    decreases i + j,
{
    lemma_path_scores_cell(p, t, o, d, f, i, j);
    if i > 0 {
        lemma_embedding_fits(p, t, e, i, j);
        assert(cell_ok(p, t, o, d[i - 1], d[i], f[i], i, j));
        let last = e[i - 1];
        if f[i][j] == Step::Skip {
            if last < j - 1 {
                assert(is_embedding_at(p, t, e, i, j - 1)) by {
                    assert forall|k: int| 0 <= k < i implies 0 <= #[trigger] e[k] < j - 1 && t[e[k]]
                        == p[k] by {
                        if k < i - 1 {
                            assert(e[k] < e[i - 1]);
                        }
                    }
                }
                lemma_path_is_earliest(p, t, o, d, f, i, j - 1, e);
            } else {
                lemma_path_scores_cell(p, t, o, d, f, i, j - 1);
                assert(path(f, i, j) == path(f, i, j - 1));
                assert(path(f, i, j).last() < j - 1);
            }
        } else if f[i][j] == Step::Take {
            lemma_take_reachable(p, t, o, d, f, i, j);
            if last < j - 1 {
                assert(is_embedding_at(p, t, e, i, j - 1)) by {
                    assert forall|k: int| 0 <= k < i implies 0 <= #[trigger] e[k] < j - 1 && t[e[k]]
                        == p[k] by {
                        if k < i - 1 {
                            assert(e[k] < e[i - 1]);
                        }
                    }
                }
                lemma_cell_is_upper_bound(p, t, o, d, f, i, j - 1, e);
                assert(false);
            } else {
                let e2 = e.drop_last();
                assert(is_embedding_at(p, t, e2, i - 1, j - 1)) by {
                    assert forall|k: int| 0 <= k < i - 1 implies 0 <= #[trigger] e2[k] < j - 1 && t[e2[k]]
                        == p[k] by {
                        assert(e2[k] == e[k]);
                        assert(e[k] < e[i - 1]);
                    }
                }
                assert(match_score(o, e) == match_score(o, e2) + bonus(o, j - 1, i == 1));
                lemma_path_is_earliest(p, t, o, d, f, i - 1, j - 1, e2);
                let pa = path(f, i, j);
                assert(pa == path(f, i - 1, j - 1).push(j - 1));
                assert(pa.drop_last() == path(f, i - 1, j - 1));
                assert(pa.last() == e.last());
            }
        }
    }
}

/// Where a reachable cell was reached by a match, the cell it came from is reachable.
proof fn lemma_take_reachable(
    p: Seq<char>,
    t: Seq<char>,
    o: Seq<char>,
    d: Seq<Seq<i32>>,
    f: Seq<Seq<Step>>,
    i: int,
    j: int,
)
    requires
        table_ok(p, t, o, d, f, p.len() + 1int),
        1 <= i <= p.len(),
        0 <= j <= t.len(),
        d[i][j] >= 0,
        f[i][j] == Step::Take,
    ensures
        j >= i,
        d[i - 1][j - 1] >= 0,
{
    assert(cell_ok(p, t, o, d[i - 1], d[i], f[i], i, j));
    if i - 1 >= 1 {
        lemma_cell(p, t, o, d, f, p.len() + 1int, i - 1, j - 1);
    }
}

/// Finds a best placement of `pattern` in `text_lower` by dynamic programming, scoring
/// positions by the characters of `text_chars`; `None` where there is none.
pub fn find_best_match(
    pattern: &Vec<char>,
    text_lower: &Vec<char>,
    text_chars: &Vec<char>,
) -> (r: Option<(i32, Vec<usize>)>)
    requires
        pattern@.len() <= MAX_PATTERN_LEN,
        text_lower@.len() < usize::MAX,
    ensures
        r is Some <==> exists|e: Seq<int>| embeds(pattern@, text_lower@, e),
        r is Some ==> 0 <= r->Some_0.0 <= 50 * MAX_PATTERN_LEN,
        r is Some ==> is_best_match(
            pattern@,
            text_lower@,
            text_chars@,
            r->Some_0.0 as int,
            index_view(r->Some_0.1@),
        ),
{
    let ghost p = pattern@;
    let ghost t = text_lower@;
    let ghost o = text_chars@;
    let n = pattern.len();
    let m = text_lower.len();
    let mut dp: Vec<Vec<i32>> = Vec::new();
    let mut from: Vec<Vec<Step>> = Vec::new();
    let mut row0: Vec<i32> = Vec::new();
    let mut steps0: Vec<Step> = Vec::new();
    let mut c: usize = 0;
    while c <= m
        invariant
            c <= m + 1,
            m == t.len(),
            m < usize::MAX,
            row0@.len() == c,
            steps0@.len() == c,
            forall|k: int| 0 <= k < c ==> row0@[k] == 0,
        decreases m + 1 - c,
    {
        row0.push(0);
        steps0.push(Step::Stay);
        c = c + 1;
    }
    dp.push(row0);
    from.push(steps0);
    let mut i: usize = 1;
    while i <= n
        invariant
            1 <= i <= n + 1,
            n == p.len(),
            m == t.len(),
            m < usize::MAX,
            pattern@ == p,
            text_lower@ == t,
            text_chars@ == o,
            table_ok(p, t, o, dp@.map_values(|r: Vec<i32>| r@), from@.map_values(
                |r: Vec<Step>| r@,
            ), i as int),
        decreases n + 1 - i,
    {
        let ghost d = dp@.map_values(|r: Vec<i32>| r@);
        let ghost fs = from@.map_values(|r: Vec<Step>| r@);
        let mut cur: Vec<i32> = Vec::new();
        let mut steps: Vec<Step> = Vec::new();
        let mut j: usize = 0;
        while j <= m
            invariant
                1 <= i <= n,
                j <= m + 1,
                n == p.len(),
                m == t.len(),
                m < usize::MAX,
                pattern@ == p,
                text_lower@ == t,
                text_chars@ == o,
                d == dp@.map_values(|r: Vec<i32>| r@),
                fs == from@.map_values(|r: Vec<Step>| r@),
                table_ok(p, t, o, d, fs, i as int),
                cur@.len() == j,
                steps@.len() == j,
                forall|c: int| 0 <= c < j ==> #[trigger] cell_ok(p, t, o, d[i - 1], cur@, steps@, i as int, c),
            decreases m + 1 - j,
        {
            assert(d[i - 1].len() == m + 1);
            let ghost old_cur = cur@;
            let ghost old_steps = steps@;
            if j < i {
                cur.push(NEG);
                steps.push(Step::Stay);
            } else {
                let mut best: i32 = NEG;
                let mut step = Step::Stay;
                assert(cell_ok(p, t, o, d[i - 1], cur@, steps@, i as int, j - 1));
                if cur[j - 1] > best {
                    best = cur[j - 1];
                    step = Step::Skip;
                }
                if pattern[i - 1] == text_lower[j - 1] {
                    let b = calculate_match_bonus(j - 1, text_chars, i == 1);
                    let prev = dp[i - 1][j - 1];
                    proof {
                        if i - 1 >= 1 {
                            lemma_cell(p, t, o, d, fs, i as int, i - 1, j - 1);
                        } else {
                            assert(d[0][j - 1] == 0);
                        }
                    }
                    let s = prev + b;
                    if s > best {
                        best = s;
                        step = Step::Take;
                    }
                }
                cur.push(best);
                steps.push(step);
            }
            proof {
                assert forall|c: int| 0 <= c < j + 1 implies #[trigger] cell_ok(
                    p,
                    t,
                    o,
                    d[i - 1],
                    cur@,
                    steps@,
                    i as int,
                    c,
                ) by {
                    if c < j {
                        assert(cur@[c] == old_cur[c] && steps@[c] == old_steps[c]);
                        if c > 0 {
                            assert(cur@[c - 1] == old_cur[c - 1]);
                        }
                        assert(cell_ok(p, t, o, d[i - 1], old_cur, old_steps, i as int, c));
                    } else if c > 0 {
                        assert(cur@[c - 1] == old_cur[c - 1]);
                    }
                }
            }
            j = j + 1;
        }
        dp.push(cur);
        from.push(steps);
        proof {
            let d2 = dp@.map_values(|r: Vec<i32>| r@);
            let f2 = from@.map_values(|r: Vec<Step>| r@);
            assert(d2 == d.push(cur@));
            assert(f2 == fs.push(steps@));
            assert forall|r: int, c: int| 1 <= r < i + 1 && 0 <= c <= t.len() implies #[trigger] cell_ok(
                p,
                t,
                o,
                d2[r - 1],
                d2[r],
                f2[r],
                r,
                c,
            ) by {
                if r < i {
                    assert(d2[r - 1] == d[r - 1] && d2[r] == d[r] && f2[r] == fs[r]);
                }
            }
        }
        i = i + 1;
    }
    let ghost d = dp@.map_values(|r: Vec<i32>| r@);
    let ghost fs = from@.map_values(|r: Vec<Step>| r@);
    assert(d[n as int].len() == m + 1);
    let total = dp[n][m];
    if total < 0 {
        proof {
            assert forall|e: Seq<int>| !embeds(p, t, e) by {
                if embeds(p, t, e) {
                    lemma_cell_is_upper_bound(p, t, o, d, fs, n as int, m as int, e);
                    lemma_score_nonneg(o, e);
                }
            }
        }
        return None;
    }
    proof {
        lemma_path_scores_cell(p, t, o, d, fs, n as int, m as int);
        if n >= 1 {
            lemma_cell(p, t, o, d, fs, n + 1int, n as int, m as int);
        }
    }
    let ghost full = path(fs, n as int, m as int);
    let mut rev: Vec<usize> = Vec::new();
    let mut a: usize = n;
    let mut b: usize = m;
    while a > 0
        invariant
            a <= n,
            b <= m,
            n == p.len(),
            m == t.len(),
            d == dp@.map_values(|r: Vec<i32>| r@),
            fs == from@.map_values(|r: Vec<Step>| r@),
            table_ok(p, t, o, d, fs, n + 1int),
            d[a as int][b as int] >= 0,
            full == path(fs, n as int, m as int),
            full.len() == n,
            path(fs, a as int, b as int) == full.subrange(0, a as int),
            rev@.len() == n - a,
            forall|k: int| 0 <= k < n - a ==> rev@[k] as int == full[n - 1 - k],
        decreases a + b,
    {
        proof {
            assert(cell_ok(p, t, o, d[a - 1], d[a as int], fs[a as int], a as int, b as int));
            lemma_path_scores_cell(p, t, o, d, fs, a as int, b as int);
        }
        assert(fs[a as int] == from@[a as int]@);
        assert(from[a as int]@.len() == m + 1);
        let step = from[a][b];
        if step == Step::Take {
            proof {
                lemma_take_reachable(p, t, o, d, fs, a as int, b as int);
                let pa = path(fs, a as int, b as int);
                assert(pa == path(fs, a - 1, b - 1).push(b - 1));
                assert(full[a - 1] == pa[a - 1]);
                assert(path(fs, a - 1, b - 1) == pa.drop_last());
                assert(full.subrange(0, a - 1) == full.subrange(0, a as int).drop_last());
            }
            rev.push(b - 1);
            a = a - 1;
            b = b - 1;
        } else {
            proof {
                if step == Step::Stay {
                    assert(false);
                }
            }
            b = b - 1;
        }
    }
    let mut indices: Vec<usize> = Vec::new();
    let mut k: usize = 0;
    while k < n
        invariant
            k <= n,
            a == 0,
            n == p.len(),
            rev@.len() == n,
            full.len() == n,
            forall|q: int| 0 <= q < n ==> rev@[q] as int == full[n - 1 - q],
            indices@.len() == k,
            forall|q: int| 0 <= q < k ==> indices@[q] as int == full[q],
        decreases n - k,
    {
        indices.push(rev[n - 1 - k]);
        k = k + 1;
    }
    proof {
        assert(index_view(indices@) =~= full);
        assert(embeds(p, t, full));
        assert forall|e2: Seq<int>| embeds(p, t, e2) implies match_score(o, e2) <= total by {
            lemma_cell_is_upper_bound(p, t, o, d, fs, n as int, m as int, e2);
        }
        assert forall|e2: Seq<int>| embeds(p, t, e2) && match_score(o, e2) == total implies earlier_or_same(
            full,
            e2,
        ) by {
            lemma_path_is_earliest(p, t, o, d, fs, n as int, m as int, e2);
        }
    }
    Some((total, indices))
}

/// Both lower-cased strings are small enough to be matched.
pub open spec fn within_limits(p: Seq<char>, t: Seq<char>) -> bool {
    p.len() <= MAX_PATTERN_LEN && t.len() < usize::MAX
}

/// Whether `pattern` fuzzy-matches `text`: an empty pattern matches everything; another
/// matches where its lower-cased characters occur, in order, in the lower-cased text.
pub open spec fn fuzzy_found(pattern: Seq<char>, text: Seq<char>) -> bool {
    pattern.len() == 0 || (within_limits(lower_of(pattern), lower_of(text)) && exists|e: Seq<int>|
        embeds(lower_of(pattern), lower_of(text), e))
}

/// `(score, indices)` is what matching `pattern` against `text` gives: nothing for an
/// empty pattern, else a best placement in the lower-cased text, scored on the text as written.
pub open spec fn fuzzy_result(pattern: Seq<char>, text: Seq<char>, score: int, indices: Seq<int>) -> bool {
    if pattern.len() == 0 {
        score == 0 && indices.len() == 0
    } else {
        is_best_match(lower_of(pattern), lower_of(text), text, score, indices)
    }
}

/// Fuzzy-matches `pattern` against `text`, ignoring case, and returns the best score and
/// the positions matched.
pub fn fuzzy_match(pattern: &str, text: &str) -> (r: Option<FuzzyMatch>)
    ensures
        r is Some <==> fuzzy_found(pattern@, text@),
        r is Some ==> 0 <= r->Some_0.score <= 50 * MAX_PATTERN_LEN,
        r is Some ==> fuzzy_result(
            pattern@,
            text@,
            r->Some_0.score as int,
            index_view(r->Some_0.matched_indices@),
        ),
{
    if pattern.is_empty() {
        let none: Vec<usize> = Vec::new();
        proof {
            assert(index_view(none@) =~= Seq::<int>::empty());
        }
        return Some(FuzzyMatch { score: 0, matched_indices: none });
    }
    let pattern_lower = chars_of(lowercase(pattern).as_str());
    let text_lower = chars_of(lowercase(text).as_str());
    let text_chars = chars_of(text);
    if pattern_lower.len() > MAX_PATTERN_LEN || text_lower.len() == usize::MAX {
        return None;
    }
    match find_best_match(&pattern_lower, &text_lower, &text_chars) {
        Some((score, indices)) => Some(FuzzyMatch { score, matched_indices: indices }),
        None => None,
    }
}

/// The text that a command's category and label are matched as together.
pub open spec fn category_text(category: Seq<char>, label: Seq<char>) -> Seq<char> {
    category + ": "@ + label
}

/// Whether `pattern` matches a command's label, its "category: label" or its description.
pub open spec fn multi_found(
    pattern: Seq<char>,
    label: Seq<char>,
    description: Option<Seq<char>>,
    category: Seq<char>,
) -> bool {
    fuzzy_found(pattern, label) || fuzzy_found(pattern, category_text(category, label)) || (
    description is Some && fuzzy_found(pattern, description->Some_0))
}

/// `(score, indices)` is what matching `pattern` against a command gives: the label's match
/// raised by 100, else the "category: label" match raised by 50, else the description's
/// match raised by 25 with no positions.
pub open spec fn multi_result(
    pattern: Seq<char>,
    label: Seq<char>,
    description: Option<Seq<char>>,
    category: Seq<char>,
    score: int,
    indices: Seq<int>,
) -> bool {
    if fuzzy_found(pattern, label) {
        fuzzy_result(pattern, label, score - 100, indices)
    } else if fuzzy_found(pattern, category_text(category, label)) {
        fuzzy_result(pattern, category_text(category, label), score - 50, indices)
    } else {
        indices.len() == 0 && exists|ix: Seq<int>|
            #[trigger] fuzzy_result(pattern, description->Some_0, score - 25, ix)
    }
}

pub open spec fn opt_str_view(s: Option<&str>) -> Option<Seq<char>> {
    match s {
        Some(v) => Some(v@),
        None => None,
    }
}

/// Matches `pattern` against a command's label (score raised by 100), else against
/// "category: label" (raised by 50), else against its description (raised by 25, with no
/// positions, since they would not be positions of the label).
pub fn fuzzy_match_multi(
    pattern: &str,
    label: &str,
    description: Option<&str>,
    category: &str,
) -> (r: Option<FuzzyMatch>)
    ensures
        r is Some <==> multi_found(pattern@, label@, opt_str_view(description), category@),
        r is Some ==> multi_result(
            pattern@,
            label@,
            opt_str_view(description),
            category@,
            r->Some_0.score as int,
            index_view(r->Some_0.matched_indices@),
        ),
{
    if let Some(m) = fuzzy_match(pattern, label) {
        return Some(FuzzyMatch { score: m.score + 100, matched_indices: m.matched_indices });
    }
    let lead = join(category, ": ");
    let category_label = join(lead.as_str(), label);
    proof {
        assert(category_label@ == category@ + ": "@ + label@);
    }
    if let Some(m) = fuzzy_match(pattern, category_label.as_str()) {
        return Some(FuzzyMatch { score: m.score + 50, matched_indices: m.matched_indices });
    }
    if let Some(desc) = description {
        if let Some(m) = fuzzy_match(pattern, desc) {
            let none: Vec<usize> = Vec::new();
            let res = FuzzyMatch { score: m.score + 25, matched_indices: none };
            proof {
                assert(res.score - 25 == m.score);
                assert(description->Some_0@ == desc@);
                assert(fuzzy_result(pattern@, desc@, res.score - 25, index_view(m.matched_indices@)));
            }
            let r = Some(res);
            proof {
                assert(fuzzy_result(pattern@, opt_str_view(description)->Some_0, r->Some_0.score - 25, index_view(m.matched_indices@)));
            }
            return r;
        }
    }
    None
}

} // verus!
