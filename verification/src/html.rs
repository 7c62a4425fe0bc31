//! The computational parts of catalogue-page handling: deciding which
//! links lead to module descriptions, and capturing the module name
//! from a link title of the form `"... (Name) ..."` — the first
//! parenthesized, nonempty, parenthesis-free group.

use vstd::prelude::*;

use crate::chars::{has_match, find_from, to_chars, sub_chars};

verus! {

/// The first `')'` strictly after `i`, reachable only over characters
/// that are no `')'` by construction.
pub open spec fn close_after(s: Seq<char>, i: int) -> Option<int>
    decreases s.len() - i,
{
    if i + 1 < 0 || i + 1 >= s.len() {
        None
    } else if s[i + 1] == ')' {
        Some(i + 1)
    } else {
        close_after(s, i + 1)
    }
}

/// A parenthesized group starts at `i`: an opening parenthesis whose
/// first closing parenthesis comes after at least one other character.
pub open spec fn paren_match_at(s: Seq<char>, i: int) -> bool {
    0 <= i < s.len() && s[i] == '(' && match close_after(s, i) {
        Some(j) => j >= i + 2,
        None => false,
    }
}

/// The leftmost parenthesized group at or after `i`.
pub open spec fn paren_scan(s: Seq<char>, i: int) -> Option<int>
    decreases s.len() - i,
{
    if i < 0 || i >= s.len() {
        None
    } else if paren_match_at(s, i) {
        Some(i)
    } else {
        paren_scan(s, i + 1)
    }
}

/// The captured title: the inside of the leftmost nonempty
/// parenthesized group.
pub open spec fn title_of(s: Seq<char>) -> Option<Seq<char>> {
    match paren_scan(s, 0) {
        Some(i) => match close_after(s, i) {
            Some(j) => Some(s.subrange(i + 1, j)),
            None => None,
        },
        None => None,
    }
}

/// Does this link lead to a module-description document?
pub fn is_module_link(href: &str) -> (r: bool)
    ensures
        r == has_match(href@, "/modulbeschriebe"@),
{
    let h = to_chars(href);
    let needle = to_chars("/modulbeschriebe");
    match find_from(&h, &needle, 0) {
        Some(_) => true,
        None => false,
    }
}

/// Finds the first `')'` strictly after `i`.
fn close_after_exec(t: &Vec<char>, i: usize) -> (r: Option<usize>)
    requires
        i < t@.len(),
    ensures
        match r {
            Some(j) => close_after(t@, i as int) == Some(j as int) && i < j < t@.len(),
            None => close_after(t@, i as int) is None,
        },
{
    let tlen = t.len();
    proof {
        assert(i < tlen);
    }
    let mut j: usize = i + 1;
    while j < t.len()
        invariant
            i < j <= t@.len(),
            close_after(t@, i as int) == close_after(t@, j - 1),
        decreases t@.len() - j,
    {
        if t[j] == ')' {
            proof {
                assert(close_after(t@, j - 1) == Some(j as int));
            }
            return Some(j);
        }
        proof {
            assert(close_after(t@, j - 1) == close_after(t@, j as int));
        }
        j = j + 1;
    }
    proof {
        assert(close_after(t@, j - 1) is None);
    }
    None
}

/// Captures the module name from a link title, as `title_of` says.
pub fn extract_title(full_title: &str) -> (r: Option<Vec<char>>)
    ensures
        match r {
            Some(v) => title_of(full_title@) == Some(v@),
            None => title_of(full_title@) is None,
        },
{
    let t = to_chars(full_title);
    let mut i: usize = 0;
    while i < t.len()
        invariant
            i <= t@.len(),
            t@ == full_title@,
            paren_scan(t@, 0) == paren_scan(t@, i as int),
        decreases t@.len() - i,
    {
        let hit: Option<usize> = if t[i] == '(' {
            close_after_exec(&t, i)
        } else {
            None
        };
        match hit {
            Some(j) => {
                if j >= i + 2 {
                    proof {
                        assert(paren_match_at(t@, i as int));
                        assert(paren_scan(t@, i as int) == Some(i as int));
                    }
                    let v = sub_chars(&t, i + 1, j);
                    return Some(v);
                }
                proof {
                    assert(!paren_match_at(t@, i as int));
                    assert(paren_scan(t@, i as int) == paren_scan(t@, i + 1));
                }
            },
            None => {
                proof {
                    assert(!paren_match_at(t@, i as int));
                    assert(paren_scan(t@, i as int) == paren_scan(t@, i + 1));
                }
            },
        }
        i = i + 1;
    }
    proof {
        assert(paren_scan(t@, i as int) is None);
    }
    None
}

} // verus!
