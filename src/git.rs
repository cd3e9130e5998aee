use vstd::prelude::*;

use md5::Digest;

use crate::ports::{
    copy_range, find_chars_from, first_occurrence, first_occurrence_from, occurs_at,
};
use crate::text::{
    chars_of, contains, contains_chars, join, lower_of, lowercase, starts_with, string_of, trim_of,
    trimmed,
};

verus! {

/// The second piece of `s` split at `p`: the text after the first occurrence of `p` up to
/// the next one, or to the end; `None` where `p` does not occur.
pub open spec fn second_piece(s: Seq<char>, p: Seq<char>) -> Option<Seq<char>> {
    if exists|k: int| first_occurrence(s, p, k) {
        let k = choose|k: int| first_occurrence(s, p, k);
        let st = k + p.len();
        if exists|j: int| first_occurrence_from(s, p, st, j) {
            let j = choose|j: int| first_occurrence_from(s, p, st, j);
            Some(s.subrange(st, j))
        } else {
            Some(s.subrange(st, s.len() as int))
        }
    } else {
        None
    }
}

/// `j` is where the first '/' of `t` stands.
pub open spec fn first_slash(t: Seq<char>, j: int) -> bool {
    0 <= j < t.len() && t[j] == '/' && forall|q: int| 0 <= q < j ==> t[q] != '/'
}

/// The text before the first '/', or all of it.
pub open spec fn up_to_slash(t: Seq<char>) -> Seq<char> {
    if exists|j: int| first_slash(t, j) {
        t.subrange(0, choose|j: int| first_slash(t, j))
    } else {
        t
    }
}

/// The user of a GitHub remote: after "git@...:" in the SSH form, after "github.com/"
/// otherwise, up to the next '/'.
pub open spec fn github_user(url: Seq<char>) -> Option<Seq<char>> {
    if contains(url, "github.com"@) {
        let piece = if starts_with(url, "git@"@) {
            second_piece(url, ":"@)
        } else {
            second_piece(url, "github.com/"@)
        };
        match piece {
            Some(t) => Some(up_to_slash(t)),
            None => None,
        }
    } else {
        None
    }
}

fn piece_after(s: &Vec<char>, p: &Vec<char>) -> (r: Option<Vec<char>>)
    requires
        p@.len() > 0,
    ensures
        r is Some <==> second_piece(s@, p@) is Some,
        r is Some ==> r->Some_0@ == second_piece(s@, p@)->Some_0,
{
    match find_chars_from(s, p, 0) {
        Some(k) => {
            let n = s.len();
            proof {
                assert(occurs_at(s@, p@, k as int));
                assert(first_occurrence(s@, p@, k as int));
                assert forall|k2: int| first_occurrence(s@, p@, k2) implies k2 == k by {
                    if k2 < k {
                        assert(!occurs_at(s@, p@, k2));
                    } else if k2 > k {
                        assert(!occurs_at(s@, p@, k as int));
                    }
                }
            }
            let st = k + p.len();
            match find_chars_from(s, p, st) {
                Some(j) => {
                    proof {
                        assert forall|j2: int| first_occurrence_from(s@, p@, st as int, j2) implies j2 == j by {
                            if j2 < j {
                                assert(!occurs_at(s@, p@, j2));
                            } else if j2 > j {
                                assert(!occurs_at(s@, p@, j as int));
                            }
                        }
                    }
                    Some(copy_range(s, st, j))
                },
                None => {
                    proof {
                        assert forall|j2: int| !first_occurrence_from(s@, p@, st as int, j2) by {}
                    }
                    Some(copy_range(s, st, n))
                },
            }
        },
        None => {
            proof {
                assert forall|k2: int| !first_occurrence(s@, p@, k2) by {}
            }
            None
        },
    }
}

fn before_slash(t: &Vec<char>) -> (r: Vec<char>)
    ensures
        r@ == up_to_slash(t@),
{
    let mut j: usize = 0;
    while j < t.len() && t[j] != '/'
        invariant
            j <= t@.len(),
            forall|q: int| 0 <= q < j ==> t@[q] != '/',
        decreases t.len() - j,
    {
        j = j + 1;
    }
    if j < t.len() {
        proof {
            assert(first_slash(t@, j as int));
            assert forall|j2: int| first_slash(t@, j2) implies j2 == j by {
                if j2 > j {
                    assert(t@[j as int] != '/');
                }
            }
        }
        copy_range(t, 0, j)
    } else {
        proof {
            assert forall|j2: int| !first_slash(t@, j2) by {}
            assert(t@.subrange(0, t@.len() as int) == t@);
        }
        copy_range(t, 0, t.len())
    }
}

/// The GitHub user name in a remote URL, where the remote is on GitHub.
pub fn extract_github_username(url: &str) -> (r: Option<String>)
    ensures
        r is Some <==> github_user(url@) is Some,
        r is Some ==> r->Some_0@ == github_user(url@)->Some_0,
{
    let s = chars_of(url);
    let host = chars_of("github.com");
    if !contains_chars(&s, &host) {
        return None;
    }
    let ssh = chars_of("git@");
    let colon = chars_of(":");
    let host_slash = chars_of("github.com/");
    proof {
        reveal_strlit(":");
        reveal_strlit("github.com/");
        assert(colon@.len() == 1);
        assert(host_slash@.len() == 11);
    }
    let mut is_ssh = ssh.len() <= s.len();
    let mut i: usize = 0;
    while is_ssh && i < ssh.len()
        invariant
            ssh@.len() <= s@.len() || !is_ssh,
            i <= ssh@.len(),
            is_ssh ==> forall|q: int| 0 <= q < i ==> s@[q] == ssh@[q],
            !is_ssh ==> !starts_with(s@, ssh@),
        decreases ssh.len() - i,
    {
        if s[i] != ssh[i] {
            proof {
                assert(s@.subrange(0, ssh@.len() as int)[i as int] != ssh@[i as int]);
            }
            is_ssh = false;
        }
        i = i + 1;
    }
    proof {
        if is_ssh {
            assert(s@.subrange(0, ssh@.len() as int) =~= ssh@);
        }
    }
    let piece = if is_ssh {
        piece_after(&s, &colon)
    } else {
        piece_after(&s, &host_slash)
    };
    match piece {
        Some(t) => Some(string_of(&before_slash(&t))),
        None => None,
    }
}

/// What the MD5 digest of a string's UTF-8 bytes is, written in lower-case hex.
pub uninterp spec fn md5_hex_of(s: Seq<char>) -> Seq<char>;

/// Relies on md-5's `Md5` (`Digest::update` then `finalize`) and the `{:x}` form of the
/// digest: the MD5 of the string's bytes in lower-case hex, a function of the string alone.
#[verifier::external_body]
fn md5_hash(input: &str) -> (r: String)
    ensures
        r@ == md5_hex_of(input@),
{
    let mut hasher = md5::Md5::new();
    hasher.update(input.as_bytes());
    format!("{:x}", hasher.finalize())
}

/// The text before the first '@', or all of it.
pub open spec fn up_to_at(t: Seq<char>) -> Seq<char> {
    if exists|j: int| 0 <= j < t.len() && t[j] == '@' && forall|q: int| 0 <= q < j ==> t[q] != '@' {
        t.subrange(
            0,
            choose|j: int| 0 <= j < t.len() && t[j] == '@' && forall|q: int| 0 <= q < j ==> t[q] != '@',
        )
    } else {
        t
    }
}

/// The user of a GitHub no-reply address "id+user@users.noreply.github.com": the text after
/// the first '+' (up to the next '+') and before its '@', else the text before the '@'.
pub open spec fn noreply_user(email: Seq<char>) -> Seq<char> {
    match second_piece(email, "+"@) {
        Some(p) => up_to_at(p),
        None => up_to_at(email),
    }
}

pub open spec fn github_avatar(user: Seq<char>) -> Seq<char> {
    "https://github.com/"@ + user + ".png?size=40"@
}

/// The avatar shown for a contributor: their GitHub picture where the address or the name
/// tells the GitHub user, else the Gravatar of the address.
pub open spec fn avatar_url(
    email: Seq<char>,
    name: Seq<char>,
    is_local: bool,
    github_username: Option<Seq<char>>,
) -> Seq<char> {
    if contains(email, "@users.noreply.github.com"@) {
        github_avatar(noreply_user(email))
    } else if is_local && github_username is Some {
        github_avatar(github_username->Some_0)
    } else if !contains(trim_of(name), " "@) && trim_of(name).len() > 0 {
        github_avatar(trim_of(name))
    } else {
        "https://www.gravatar.com/avatar/"@ + md5_hex_of(lower_of(trim_of(email)))
            + "?s=40&d=retro"@
    }
}

fn before_at(t: &Vec<char>) -> (r: Vec<char>)
    ensures
        r@ == up_to_at(t@),
{
    let mut j: usize = 0;
    while j < t.len() && t[j] != '@'
        invariant
            j <= t@.len(),
            forall|q: int| 0 <= q < j ==> t@[q] != '@',
        decreases t.len() - j,
    {
        j = j + 1;
    }
    if j < t.len() {
        proof {
            let w = j as int;
            assert(0 <= w < t@.len() && t@[w] == '@' && forall|q: int| 0 <= q < w ==> t@[q] != '@');
            assert forall|j2: int| 0 <= j2 < t@.len() && t@[j2] == '@' && (forall|q: int|
                0 <= q < j2 ==> t@[q] != '@') implies j2 == j by {
                if j2 > j {
                    assert(t@[j as int] != '@');
                }
            }
        }
        copy_range(t, 0, j)
    } else {
        proof {
            assert(t@.subrange(0, t@.len() as int) == t@);
        }
        copy_range(t, 0, t.len())
    }
}

fn github_avatar_url(user: &str) -> (r: String)
    ensures
        r@ == github_avatar(user@),
{
    let lead = join("https://github.com/", user);
    join(lead.as_str(), ".png?size=40")
}

/// The avatar URL of a contributor.
pub fn get_avatar_url(
    email: &str,
    name: &str,
    is_local: bool,
    github_username: Option<&str>,
) -> (r: Option<String>)
    ensures
        r is Some,
        r->Some_0@ == avatar_url(
            email@,
            name@,
            is_local,
            match github_username {
                Some(u) => Some(u@),
                None => None,
            },
        ),
{
    let e = chars_of(email);
    let noreply = chars_of("@users.noreply.github.com");
    if contains_chars(&e, &noreply) {
        let plus = chars_of("+");
        proof {
            reveal_strlit("+");
            assert(plus@.len() == 1);
        }
        let user = match piece_after(&e, &plus) {
            Some(p) => before_at(&p),
            None => before_at(&e),
        };
        return Some(github_avatar_url(string_of(&user).as_str()));
    }
    if is_local {
        if let Some(gh) = github_username {
            return Some(github_avatar_url(gh));
        }
    }
    let name_trimmed = trimmed(name);
    let nt = chars_of(name_trimmed.as_str());
    let space = chars_of(" ");
    if !contains_chars(&nt, &space) && nt.len() > 0 {
        return Some(github_avatar_url(name_trimmed.as_str()));
    }
    let key = lowercase(trimmed(email).as_str());
    let hash = md5_hash(key.as_str());
    let lead = join("https://www.gravatar.com/avatar/", hash.as_str());
    Some(join(lead.as_str(), "?s=40&d=retro"))
}

} // verus!
