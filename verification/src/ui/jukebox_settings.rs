//! The settings dialog of the jukebox: which option a dropdown starts on, and
//! the anti-loop settings read back from the dialog's fields.

use vstd::prelude::*;
use crate::jukebox::settings::{
    AntiLoopSettings, LoopCountMode, LoopCounter, LoopIdentity, LoopSkipAction, loop_count_mode_of,
    loop_counter_of, loop_identity_of, loop_skip_action_of,
};
use crate::text::{ascii_lower, decimal_value, parse_u64, parsed_decimal};

verus! {

/// `s` in ASCII lower case.
pub open spec fn lower_seq(s: Seq<char>) -> Seq<char> {
    s.map_values(|c: char| ascii_lower(c))
}

/// Whether two texts are equal but for ASCII case.
pub fn eq_ignore_ascii_case(a: &str, b: &str) -> (r: bool)
    ensures
        r == (lower_seq(a@) == lower_seq(b@)),
{
    let n = a.unicode_len();
    if n != b.unicode_len() {
        proof {
            assert(lower_seq(a@).len() != lower_seq(b@).len());
        }
        return false;
    }
    let mut i: usize = 0;
    while i < n
        invariant
            n == a@.len(),
            n == b@.len(),
            i <= n,
            forall|k: int| 0 <= k < i ==> ascii_lower(#[trigger] a@[k]) == ascii_lower(b@[k]),
        decreases n - i,
    {
        let x = a.get_char(i);
        let y = b.get_char(i);
        let lx = if 'A' <= x && x <= 'Z' {
            ((x as u8) + 32) as char
        } else {
            x
        };
        let ly = if 'A' <= y && y <= 'Z' {
            ((y as u8) + 32) as char
        } else {
            y
        };
        proof {
            assert(lx == ascii_lower(x));
            assert(ly == ascii_lower(y));
        }
        if lx != ly {
            proof {
                assert(lower_seq(a@)[i as int] != lower_seq(b@)[i as int]);
            }
            return false;
        }
        i = i + 1;
    }
    assert(lower_seq(a@) =~= lower_seq(b@));
    true
}

/// The first option equal to `current` but for ASCII case.
pub open spec fn first_match(options: Seq<Seq<char>>, current: Seq<char>, n: int) -> Option<int>
    decreases n,
{
    if n <= 0 {
        None
    } else {
        match first_match(options, current, n - 1) {
            Some(i) => Some(i),
            None => if lower_seq(options[n - 1]) == lower_seq(current) {
                Some(n - 1)
            } else {
                None
            },
        }
    }
}

proof fn lemma_first_match_stays(options: Seq<Seq<char>>, current: Seq<char>, n: int, m: int)
    requires
        n <= m,
        first_match(options, current, n) is Some,
    ensures
        first_match(options, current, m) == first_match(options, current, n),
    decreases m - n,
{
    if m > n {
        lemma_first_match_stays(options, current, n, m - 1);
    }
}

/// The option a dropdown starts on: the first equal to `current` but for
/// ASCII case, else the first.
pub fn enum_select_index(options: &[&str], current: &str) -> (r: usize)
    ensures
        r == (match first_match(options@.map_values(|o: &str| o@), current@, options@.len() as int) {
            Some(i) => i as usize,
            None => 0,
        }),
{
    let ghost opts = options@.map_values(|o: &str| o@);
    let mut i: usize = 0;
    while i < options.len()
        invariant
            i <= options@.len(),
            opts == options@.map_values(|o: &str| o@),
            first_match(opts, current@, i as int) is None,
        decreases options@.len() - i,
    {
        if eq_ignore_ascii_case(options[i], current) {
            proof {
                assert(opts[i as int] == options@[i as int]@);
                lemma_first_match_stays(opts, current@, i + 1, options@.len() as int);
            }
            return i;
        }
        proof {
            assert(opts[i as int] == options@[i as int]@);
        }
        i = i + 1;
    }
    0
}

/// What `str::parse::<usize>` gives.
pub open spec fn parsed_usize(s: Seq<char>) -> Option<usize> {
    match parsed_decimal(s, usize::MAX as int) {
        Some(v) => Some(v as usize),
        None => None,
    }
}

/// The value of decimal digits is never negative.
proof fn lemma_decimal_value_nonneg(s: Seq<char>)
    ensures
        decimal_value(s) >= 0,
    decreases s.len(),
{
    if s.len() > 0 {
        lemma_decimal_value_nonneg(s.drop_last());
    }
}

fn parse_usize(s: &str) -> (r: Option<usize>)
    ensures
        r == parsed_usize(s@),
{
    assert(usize::MAX <= u64::MAX);
    let ghost p64 = parsed_decimal(s@, u64::MAX as int);
    let ghost psz = parsed_decimal(s@, usize::MAX as int);
    proof {
        let d = if s@.len() > 0 && s@[0] == '+' {
            s@.drop_first()
        } else {
            s@
        };
        lemma_decimal_value_nonneg(d);
    }
    match parse_u64(s) {
        Some(v) => {
            assert(p64 == Some(v as int));
            if v as u128 <= usize::MAX as u128 {
                assert(psz == Some(v as int));
                Some(v as usize)
            } else {
                assert(psz is None);
                None
            }
        },
        None => {
            assert(p64 is None);
            assert(psz is None);
            None
        },
    }
}

/// The anti-loop settings read back from the dialog: each field's value
/// where the field is there (and, for the threshold, parses), else the
/// current setting; a threshold of at least one.
pub fn collect_anti_loop(
    cur: &AntiLoopSettings,
    enabled: Option<bool>,
    threshold: Option<&str>,
    identity: Option<&str>,
    count_mode: Option<&str>,
    skip_action: Option<&str>,
    break_last_branch: Option<bool>,
    counter: Option<&str>,
) -> (r: AntiLoopSettings)
    ensures
        r.enabled == (match enabled {
            Some(b) => b,
            None => cur.enabled,
        }),
        r.threshold == ({
            let t = match threshold {
                Some(s) => match parsed_usize(s@) {
                    Some(v) => v,
                    None => cur.threshold,
                },
                None => cur.threshold,
            };
            if t < 1 {
                1
            } else {
                t
            }
        }),
        r.identity == (match identity {
            Some(s) => loop_identity_of(s@),
            None => cur.identity,
        }),
        r.count_mode == (match count_mode {
            Some(s) => loop_count_mode_of(s@),
            None => cur.count_mode,
        }),
        r.skip_action == (match skip_action {
            Some(s) => loop_skip_action_of(s@),
            None => cur.skip_action,
        }),
        r.break_last_branch == (match break_last_branch {
            Some(b) => b,
            None => cur.break_last_branch,
        }),
        r.counter == (match counter {
            Some(s) => loop_counter_of(s@),
            None => cur.counter,
        }),
{
    let t = match threshold {
        Some(s) => match parse_usize(s) {
            Some(v) => v,
            None => cur.threshold,
        },
        None => cur.threshold,
    };
    AntiLoopSettings {
        enabled: match enabled {
            Some(b) => b,
            None => cur.enabled,
        },
        threshold: if t < 1 {
            1
        } else {
            t
        },
        identity: match identity {
            Some(s) => LoopIdentity::parse(s),
            None => cur.identity,
        },
        count_mode: match count_mode {
            Some(s) => LoopCountMode::parse(s),
            None => cur.count_mode,
        },
        skip_action: match skip_action {
            Some(s) => LoopSkipAction::parse(s),
            None => cur.skip_action,
        },
        break_last_branch: match break_last_branch {
            Some(b) => b,
            None => cur.break_last_branch,
        },
        counter: match counter {
            Some(s) => LoopCounter::parse(s),
            None => cur.counter,
        },
    }
}

} // verus!
