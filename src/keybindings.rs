use vstd::prelude::*;

use crate::terminal::shell::Platform;
use crate::text::{chars_of, contains, contains_chars, join, lower_of, lowercase, string_of, trim_of, trimmed};

verus! {

/// The modifier keys of a keybinding.
#[derive(Clone, Copy, Debug, PartialEq, Eq, Hash, Structural)]
pub enum Modifier {
    Ctrl,
    Shift,
    Alt,
    /// Cmd on macOS, Win on Windows.
    Meta,
}

/// The second part of a chord, as in Ctrl+K Ctrl+O.
#[derive(Clone, Debug)]
pub struct ChordPart {
    pub key: String,
    pub modifiers: Vec<Modifier>,
}

/// Whether a keybinding is a default or the user's own.
#[derive(Clone, Copy, Debug, PartialEq, Eq, Structural)]
pub enum KeybindingSource {
    Default,
    User,
}

pub open spec fn modifier_name(m: Modifier) -> Seq<char> {
    match m {
        Modifier::Ctrl => "ctrl"@,
        Modifier::Shift => "shift"@,
        Modifier::Alt => "alt"@,
        Modifier::Meta => "meta"@,
    }
}

/// The names of the modifiers of one kind, one for each occurrence.
pub open spec fn names_of_kind(mods: Seq<Modifier>, m: Modifier) -> Seq<Seq<char>>
    decreases mods.len(),
{
    if mods.len() == 0 {
        Seq::empty()
    } else if mods.last() == m {
        names_of_kind(mods.drop_last(), m).push(modifier_name(m))
    } else {
        names_of_kind(mods.drop_last(), m)
    }
}

/// The names of the modifiers in the fixed order ctrl, shift, alt, meta.
pub open spec fn sorted_names(mods: Seq<Modifier>) -> Seq<Seq<char>> {
    names_of_kind(mods, Modifier::Ctrl) + names_of_kind(mods, Modifier::Shift) + names_of_kind(
        mods,
        Modifier::Alt,
    ) + names_of_kind(mods, Modifier::Meta)
}

/// The parts joined with "+" between them.
pub open spec fn join_plus(parts: Seq<Seq<char>>) -> Seq<char>
    decreases parts.len(),
{
    if parts.len() == 0 {
        Seq::empty()
    } else if parts.len() == 1 {
        parts[0]
    } else {
        join_plus(parts.drop_last()) + "+"@ + parts.last()
    }
}

fn modifier_label(m: Modifier) -> (r: &'static str)
    ensures
        r@ == modifier_name(m),
{
    match m {
        Modifier::Ctrl => "ctrl",
        Modifier::Shift => "shift",
        Modifier::Alt => "alt",
        Modifier::Meta => "meta",
    }
}

fn push_names_of_kind(parts: &mut Vec<String>, mods: &[Modifier], m: Modifier)
    ensures
        final(parts)@.map_values(|s: String| s@) == old(parts)@.map_values(|s: String| s@)
            + names_of_kind(mods@, m),
{
    let mut i: usize = 0;
    while i < mods.len()
        invariant
            i <= mods@.len(),
            parts@.map_values(|s: String| s@) == old(parts)@.map_values(|s: String| s@)
                + names_of_kind(mods@.subrange(0, i as int), m),
        decreases mods.len() - i,
    {
        proof {
            let pre = mods@.subrange(0, i as int);
            assert(mods@.subrange(0, i + 1) == pre.push(mods@[i as int]));
            assert(mods@.subrange(0, i + 1).drop_last() == pre);
        }
        let ghost before = parts@.map_values(|s: String| s@);
        if mods[i] == m {
            parts.push(modifier_label(m).to_owned());
            proof {
                assert(parts@.map_values(|s: String| s@) =~= before.push(modifier_name(m)));
                assert(before.push(modifier_name(m)) =~= old(parts)@.map_values(|s: String| s@)
                    + names_of_kind(mods@.subrange(0, i as int), m).push(modifier_name(m)));
            }
        }
        i = i + 1;
    }
    proof {
        assert(mods@.subrange(0, mods@.len() as int) == mods@);
    }
}

/// The key combo in its canonical text: the modifiers in the order ctrl, shift, alt, meta,
/// then the key in lower case, joined with "+".
pub fn normalize_key_combo(modifiers: &[Modifier], key: &str) -> (r: String)
    ensures
        r@ == join_plus(sorted_names(modifiers@).push(lower_of(key@))),
{
    let mut parts: Vec<String> = Vec::new();
    proof {
        assert(parts@.map_values(|s: String| s@) =~= Seq::<Seq<char>>::empty());
    }
    push_names_of_kind(&mut parts, modifiers, Modifier::Ctrl);
    push_names_of_kind(&mut parts, modifiers, Modifier::Shift);
    push_names_of_kind(&mut parts, modifiers, Modifier::Alt);
    push_names_of_kind(&mut parts, modifiers, Modifier::Meta);
    let ghost names = parts@.map_values(|s: String| s@);
    parts.push(lowercase(key));
    let ghost all = parts@.map_values(|s: String| s@);
    proof {
        assert(names =~= sorted_names(modifiers@));
        assert(all =~= names.push(lower_of(key@)));
    }
    let mut out = String::new();
    let mut k: usize = 0;
    while k < parts.len()
        invariant
            k <= parts@.len(),
            all == parts@.map_values(|s: String| s@),
            out@ == join_plus(all.subrange(0, k as int)),
        decreases parts.len() - k,
    {
        proof {
            assert(all.subrange(0, k + 1).drop_last() == all.subrange(0, k as int));
        }
        if k == 0 {
            proof {
                assert(all.subrange(0, 1).len() == 1);
            }
            out = parts[0].clone();
        } else {
            let with_plus = join(out.as_str(), "+");
            out = join(with_plus.as_str(), parts[k].as_str());
        }
        k = k + 1;
    }
    proof {
        assert(all.subrange(0, all.len() as int) == all);
    }
    out
}

/// The modifier as the platform spells it: Ctrl becomes Cmd (Meta) on macOS, and Meta
/// becomes Ctrl elsewhere.
pub open spec fn platform_modifier(platform: Platform, m: Modifier) -> Modifier {
    if platform == Platform::MacOs {
        if m == Modifier::Ctrl {
            Modifier::Meta
        } else {
            m
        }
    } else {
        if m == Modifier::Meta {
            Modifier::Ctrl
        } else {
            m
        }
    }
}

/// Each modifier as `platform` spells it, in the same order.
pub fn normalize_platform_modifiers(platform: Platform, modifiers: Vec<Modifier>) -> (r: Vec<
    Modifier,
>)
    ensures
        r@ == modifiers@.map_values(|m: Modifier| platform_modifier(platform, m)),
{
    let mut out: Vec<Modifier> = Vec::new();
    let mut i: usize = 0;
    while i < modifiers.len()
        invariant
            i <= modifiers@.len(),
            out@ == modifiers@.subrange(0, i as int).map_values(
                |m: Modifier| platform_modifier(platform, m),
            ),
        decreases modifiers.len() - i,
    {
        let m = modifiers[i];
        let n = if platform == Platform::MacOs {
            if m == Modifier::Ctrl {
                Modifier::Meta
            } else {
                m
            }
        } else {
            if m == Modifier::Meta {
                Modifier::Ctrl
            } else {
                m
            }
        };
        out.push(n);
        proof {
            assert(out@ =~= modifiers@.subrange(0, i + 1).map_values(
                |m: Modifier| platform_modifier(platform, m),
            ));
        }
        i = i + 1;
    }
    proof {
        assert(modifiers@.subrange(0, modifiers@.len() as int) == modifiers@);
    }
    out
}

/// The pieces of `s` between the occurrences of "&&" found scanning from `i` on, the
/// current piece having begun at `start`.
pub open spec fn pieces(s: Seq<char>, start: int, i: int) -> Seq<Seq<char>>
    decreases s.len() - i,
{
    if i < 0 || i + 1 >= s.len() {
        seq![s.subrange(start, s.len() as int)]
    } else if s[i] == '&' && s[i + 1] == '&' {
        seq![s.subrange(start, i)] + pieces(s, i + 2, i + 2)
    } else {
        pieces(s, start, i + 1)
    }
}

/// The conditions of a `when` clause: its pieces between "&&".
pub open spec fn split_and(s: Seq<char>) -> Seq<Seq<char>> {
    pieces(s, 0, 0)
}

/// One condition holds in `context`: "!x" where `context` does not mention x, else
/// where it mentions the condition.
pub open spec fn condition_holds(part: Seq<char>, context: Seq<char>) -> bool {
    let t = trim_of(part);
    if t.len() > 0 && t[0] == '!' {
        !contains(context, t.drop_first())
    } else {
        contains(context, t)
    }
}

fn split_conditions(s: &Vec<char>) -> (r: Vec<Vec<char>>)
    ensures
        r@.map_values(|v: Vec<char>| v@) == split_and(s@),
{
    let mut out: Vec<Vec<char>> = Vec::new();
    let mut cur: Vec<char> = Vec::new();
    let mut start: usize = 0;
    let mut i: usize = 0;
    while s.len() > 0 && i < s.len() - 1
        invariant
            start <= i <= s@.len(),
            cur@ == s@.subrange(start as int, i as int),
            out@.map_values(|v: Vec<char>| v@) + pieces(s@, start as int, i as int) == split_and(
                s@,
            ),
        decreases s.len() - i,
    {
        if s[i] == '&' && s[i + 1] == '&' {
            let ghost before = out@.map_values(|v: Vec<char>| v@);
            out.push(cur);
            cur = Vec::new();
            proof {
                assert(out@.map_values(|v: Vec<char>| v@) =~= before.push(
                    s@.subrange(start as int, i as int),
                ));
                assert(before + (seq![s@.subrange(start as int, i as int)] + pieces(
                    s@,
                    i + 2,
                    i + 2,
                )) =~= before.push(s@.subrange(start as int, i as int)) + pieces(s@, i + 2, i + 2));
                assert(s@.subrange(i + 2, i + 2) =~= Seq::<char>::empty());
            }
            start = i + 2;
            i = i + 2;
        } else {
            proof {
                assert(s@.subrange(start as int, i + 1) == s@.subrange(start as int, i as int).push(
                    s@[i as int],
                ));
            }
            cur.push(s[i]);
            i = i + 1;
        }
    }
    while i < s.len()
        invariant
            start <= i <= s@.len(),
            cur@ == s@.subrange(start as int, i as int),
        decreases s.len() - i,
    {
        proof {
            assert(s@.subrange(start as int, i + 1) == s@.subrange(start as int, i as int).push(
                s@[i as int],
            ));
        }
        cur.push(s[i]);
        i = i + 1;
    }
    let ghost before = out@.map_values(|v: Vec<char>| v@);
    out.push(cur);
    proof {
        assert(out@.map_values(|v: Vec<char>| v@) =~= before.push(
            s@.subrange(start as int, s@.len() as int),
        ));
    }
    out
}

/// Whether every "&&"-separated condition of `when` holds in `context`: "x" where the
/// context mentions x, "!x" where it does not.
pub fn evaluate_when_clause(when_clause: &str, context: &str) -> (r: bool)
    ensures
        r == forall|k: int|
            0 <= k < split_and(when_clause@).len() ==> #[trigger] condition_holds(
                split_and(when_clause@)[k],
                context@,
            ),
{
    let text = chars_of(when_clause);
    let ctx = chars_of(context);
    let parts = split_conditions(&text);
    let ghost ps = parts@.map_values(|v: Vec<char>| v@);
    let mut k: usize = 0;
    while k < parts.len()
        invariant
            k <= parts@.len(),
            ps == parts@.map_values(|v: Vec<char>| v@),
            ps == split_and(when_clause@),
            ctx@ == context@,
            forall|q: int| 0 <= q < k ==> #[trigger] condition_holds(ps[q], context@),
        decreases parts.len() - k,
    {
        let part = string_of(&parts[k]);
        let t = chars_of(trimmed(part.as_str()).as_str());
        let holds = if t.len() > 0 && t[0] == '!' {
            let mut rest: Vec<char> = Vec::new();
            let mut j: usize = 1;
            while j < t.len()
                invariant
                    1 <= j <= t@.len(),
                    rest@ == t@.subrange(1, j as int),
                decreases t.len() - j,
            {
                proof {
                    assert(t@.subrange(1, j + 1) == t@.subrange(1, j as int).push(t@[j as int]));
                }
                rest.push(t[j]);
                j = j + 1;
            }
            proof {
                assert(rest@ =~= t@.drop_first());
            }
            !contains_chars(&ctx, &rest)
        } else {
            contains_chars(&ctx, &t)
        };
        proof {
            assert(part@ == ps[k as int]);
            assert(t@ == trim_of(ps[k as int]));
            assert(holds == condition_holds(ps[k as int], context@));
        }
        if !holds {
            return false;
        }
        k = k + 1;
    }
    true
}

/// How a modifier is shown: Meta is the Command sign on macOS and "Win" elsewhere.
pub open spec fn modifier_display(platform: Platform, m: Modifier) -> Seq<char> {
    match m {
        Modifier::Ctrl => "Ctrl"@,
        Modifier::Shift => "Shift"@,
        Modifier::Alt => "Alt"@,
        Modifier::Meta => if platform == Platform::MacOs {
            "\u{2318}"@
        } else {
            "Win"@
        },
    }
}

/// The shown form of one key combo: its modifiers in their own order, then the key,
/// joined with "+".
pub open spec fn combo_display(platform: Platform, mods: Seq<Modifier>, key: Seq<char>) -> Seq<char> {
    join_plus(mods.map_values(|m: Modifier| modifier_display(platform, m)).push(key))
}

fn modifier_display_str(platform: Platform, m: Modifier) -> (r: &'static str)
    ensures
        r@ == modifier_display(platform, m),
{
    match m {
        Modifier::Ctrl => "Ctrl",
        Modifier::Shift => "Shift",
        Modifier::Alt => "Alt",
        Modifier::Meta => if platform == Platform::MacOs {
            "\u{2318}"
        } else {
            "Win"
        },
    }
}

fn format_combo(platform: Platform, mods: &[Modifier], key: &str) -> (r: String)
    ensures
        r@ == combo_display(platform, mods@, key@),
{
    let ghost parts = mods@.map_values(|m: Modifier| modifier_display(platform, m)).push(key@);
    let mut out = String::new();
    let mut k: usize = 0;
    while k < mods.len()
        invariant
            k <= mods@.len(),
            parts == mods@.map_values(|m: Modifier| modifier_display(platform, m)).push(key@),
            out@ == join_plus(parts.subrange(0, k as int)),
        decreases mods.len() - k,
    {
        proof {
            assert(parts.subrange(0, k + 1).drop_last() == parts.subrange(0, k as int));
        }
        let name = modifier_display_str(platform, mods[k]);
        if k == 0 {
            out = name.to_owned();
        } else {
            let with_plus = join(out.as_str(), "+");
            out = join(with_plus.as_str(), name);
        }
        k = k + 1;
    }
    proof {
        assert(parts.subrange(0, k + 1).drop_last() == parts.subrange(0, k as int));
    }
    if k == 0 {
        key.to_owned()
    } else {
        let with_plus = join(out.as_str(), "+");
        let r = join(with_plus.as_str(), key);
        proof {
            assert(parts.subrange(0, parts.len() as int) == parts);
        }
        r
    }
}

/// A keybinding as shown beside a command: "Ctrl+Shift+P", and for a chord the second
/// combo after a space ("Ctrl+K Ctrl+O").
pub fn format_keybinding(
    platform: Platform,
    modifiers: &[Modifier],
    key: &str,
    chord_part: Option<&ChordPart>,
) -> (r: String)
    ensures
        chord_part is None ==> r@ == combo_display(platform, modifiers@, key@),
        chord_part is Some ==> r@ == combo_display(platform, modifiers@, key@) + " "@
            + combo_display(platform, chord_part->Some_0.modifiers@, chord_part->Some_0.key@),
{
    let first = format_combo(platform, modifiers, key);
    match chord_part {
        Some(chord) => {
            let second = format_combo(platform, chord.modifiers.as_slice(), chord.key.as_str());
            let spaced = join(first.as_str(), " ");
            join(spaced.as_str(), second.as_str())
        },
        None => first,
    }
}

} // verus!
