use vstd::prelude::*;

use crate::text::{
    alpha_char, char_upper_of, chars_of, is_alpha, is_lower, is_upper, join, lower_char, lower_of,
    lowercase, string_of, upper_char, upper_of, uppercase, uppercase_char,
};

verus! {

/// `s` holds a letter, and every letter of it is upper case.
pub open spec fn all_upper(s: Seq<char>) -> bool {
    (exists|k: int| 0 <= k < s.len() && alpha_char(#[trigger] s[k])) && forall|k: int|
        0 <= k < s.len() && alpha_char(#[trigger] s[k]) ==> upper_char(s[k])
}

/// `s` holds a letter, and every letter of it is lower case.
pub open spec fn all_lower(s: Seq<char>) -> bool {
    (exists|k: int| 0 <= k < s.len() && alpha_char(#[trigger] s[k])) && forall|k: int|
        0 <= k < s.len() && alpha_char(#[trigger] s[k]) ==> lower_char(s[k])
}

/// `s` starts with an upper-case character, and the rest is lower-case letters (and
/// other characters), with at least one letter.
pub open spec fn capitalized(s: Seq<char>) -> bool {
    s.len() > 0 && upper_char(s[0]) && all_lower(s.drop_first())
}

/// The replacement in the case of the text it replaces: all upper, all lower, or
/// capitalized; otherwise as given.
pub open spec fn case_preserved(replacement: Seq<char>, matched: Seq<char>) -> Seq<char> {
    if matched.len() == 0 {
        replacement
    } else if all_upper(matched) {
        upper_of(replacement)
    } else if all_lower(matched) {
        lower_of(replacement)
    } else if capitalized(matched) {
        if replacement.len() > 0 {
            char_upper_of(replacement[0]) + replacement.drop_first()
        } else {
            replacement
        }
    } else {
        replacement
    }
}

/// Whether the characters of `v` from `from` on hold a letter, all of whose letters are
/// upper case (`upper`) or lower case (`!upper`).
fn letters_all(v: &Vec<char>, from: usize, upper: bool) -> (r: bool)
    requires
        from <= v@.len(),
    ensures
        upper ==> r == all_upper(v@.subrange(from as int, v@.len() as int)),
        !upper ==> r == all_lower(v@.subrange(from as int, v@.len() as int)),
{
    let ghost s = v@.subrange(from as int, v@.len() as int);
    let mut any = false;
    let mut all = true;
    let mut i: usize = from;
    while i < v.len()
        invariant
            from <= i <= v@.len(),
            s == v@.subrange(from as int, v@.len() as int),
            any == exists|k: int| 0 <= k < i - from && alpha_char(#[trigger] s[k]),
            upper ==> all == forall|k: int| 0 <= k < i - from && alpha_char(#[trigger] s[k]) ==> upper_char(s[k]),
            !upper ==> all == forall|k: int| 0 <= k < i - from && alpha_char(#[trigger] s[k]) ==> lower_char(s[k]),
        decreases v.len() - i,
    {
        let c = v[i];
        proof {
            assert(s[i - from] == c);
        }
        if is_alpha(c) {
            any = true;
            let ok = if upper {
                is_upper(c)
            } else {
                is_lower(c)
            };
            if !ok {
                all = false;
            }
        }
        i = i + 1;
    }
    any && all
}

/// Gives `replacement` the case of `matched`, as replace-all does when asked to keep case.
pub fn preserve_case(replacement: &str, matched: &str) -> (r: String)
    ensures
        r@ == case_preserved(replacement@, matched@),
{
    let m = chars_of(matched);
    if m.len() == 0 {
        return replacement.to_owned();
    }
    proof {
        assert(m@.subrange(0, m@.len() as int) == m@);
        assert(m@.subrange(1, m@.len() as int) == m@.drop_first());
    }
    if letters_all(&m, 0, true) {
        return uppercase(replacement);
    }
    if letters_all(&m, 0, false) {
        return lowercase(replacement);
    }
    if is_upper(m[0]) && letters_all(&m, 1, false) {
        let rv = chars_of(replacement);
        if rv.len() > 0 {
            let mut rest: Vec<char> = Vec::new();
            let mut j: usize = 1;
            while j < rv.len()
                invariant
                    1 <= j <= rv@.len(),
                    rest@ == rv@.subrange(1, j as int),
                decreases rv.len() - j,
            {
                proof {
                    assert(rv@.subrange(1, j + 1) == rv@.subrange(1, j as int).push(rv@[j as int]));
                }
                rest.push(rv[j]);
                j = j + 1;
            }
            proof {
                assert(rest@ =~= rv@.drop_first());
            }
            let head = uppercase_char(rv[0]);
            return join(head.as_str(), string_of(&rest).as_str());
        }
        return replacement.to_owned();
    }
    replacement.to_owned()
}

} // verus!
