//! Which image protocols the terminal is likely to support, from the
//! `TERM_PROGRAM` and `LC_TERMINAL` variables of the environment.

use vstd::prelude::*;
use crate::text::str_eq;

verus! {

/// Whether `s` holds `part` somewhere.
pub open spec fn contains_text(s: Seq<char>, part: Seq<char>) -> bool {
    exists|i: int| 0 <= i && i + part.len() <= s.len() && #[trigger] s.subrange(i, i + part.len()) == part
}

/// Whether `s` holds `part` somewhere.
pub fn str_contains(s: &str, part: &str) -> (r: bool)
    ensures
        r == contains_text(s@, part@),
{
    let n = s.unicode_len();
    let m = part.unicode_len();
    if m > n {
        proof {
            assert forall|i: int| 0 <= i && i + part@.len() <= s@.len() implies #[trigger] s@.subrange(
                i,
                i + part@.len(),
            ) != part@ by {}
        }
        return false;
    }
    let mut i: usize = 0;
    while i <= n - m
        invariant
            n == s@.len(),
            m == part@.len(),
            m <= n,
            i <= n - m + 1,
            forall|k: int| 0 <= k < i ==> #[trigger] s@.subrange(k, k + m) != part@,
        decreases n - m + 1 - i,
    {
        let mut j: usize = 0;
        let mut same = true;
        while j < m
            invariant
                n == s@.len(),
                m == part@.len(),
                i + m <= n,
                j <= m,
                same == forall|k: int| 0 <= k < j ==> s@[i + k] == part@[k],
            decreases m - j,
        {
            if s.get_char(i + j) != part.get_char(j) {
                same = false;
            }
            j = j + 1;
        }
        if same {
            assert(s@.subrange(i as int, i + m) =~= part@);
            return true;
        }
        proof {
            let k0 = choose|k: int| 0 <= k < m && s@[i + k] != part@[k];
            assert(s@.subrange(i as int, i + m)[k0] != part@[k0]);
        }
        i = i + 1;
    }
    false
}

/// Whether the terminal is iTerm, by `TERM_PROGRAM` or `LC_TERMINAL`.
pub open spec fn iterm_spec(term_program: Option<Seq<char>>, lc_terminal: Option<Seq<char>>) -> bool {
    (term_program matches Some(t) && contains_text(t, "iTerm"@)) || (lc_terminal matches Some(t)
        && contains_text(t, "iTerm"@))
}

/// Whether the terminal is iTerm, from `TERM_PROGRAM` and `LC_TERMINAL`.
pub fn is_iterm_terminal(term_program: Option<&str>, lc_terminal: Option<&str>) -> (r: bool)
    ensures
        r == iterm_spec(
            match term_program {
                Some(t) => Some(t@),
                None => None,
            },
            match lc_terminal {
                Some(t) => Some(t@),
                None => None,
            },
        ),
{
    let a = match term_program {
        Some(t) => str_contains(t, "iTerm"),
        None => false,
    };
    let b = match lc_terminal {
        Some(t) => str_contains(t, "iTerm"),
        None => false,
    };
    a || b
}

/// Whether the kitty graphics protocol may be used: everywhere but in Apple's
/// Terminal.
pub fn can_use_kitty_graphics(term_program: Option<&str>) -> (r: bool)
    ensures
        r == !(term_program matches Some(t) && t@ == "Apple_Terminal"@),
{
    match term_program {
        Some(t) => !str_eq(t, "Apple_Terminal"),
        None => true,
    }
}

/// Whether at least one supported image protocol is likely available.
pub fn terminal_supports_graphics(term_program: Option<&str>, lc_terminal: Option<&str>) -> (r: bool)
    ensures
        r == (!(term_program matches Some(t) && t@ == "Apple_Terminal"@) || iterm_spec(
            match term_program {
                Some(t) => Some(t@),
                None => None,
            },
            match lc_terminal {
                Some(t) => Some(t@),
                None => None,
            },
        )),
{
    can_use_kitty_graphics(term_program) || is_iterm_terminal(term_program, lc_terminal)
}

} // verus!
