//! The duration grammar: a token is either `minutes:seconds`, or a chain of
//! optional `<int>h`, `<int>m` and trailing-second segments, e.g. `1h05m10s`.
//! `t_to_sec` turns such a token into a second count, reporting malformed
//! input instead of failing.

use crate::digits::{
    all_digits, count_char, count_in, digits_val, digits_value_capped, find_first, is_number,
    lemma_first_index_is, lemma_first_index_none, range_all_digits, str_chars,
};
use vstd::prelude::*;

verus! {

/// Why a duration token was rejected.
#[derive(Clone, Copy, Debug, PartialEq, Eq, Structural)]
pub enum TimeError {
    /// A colon-form token did not have exactly two parts.
    InvalidColonFormat,
    /// A segment that should be an unsigned integer is not.
    InvalidNumber,
    /// The token is well-formed but the second count does not fit in a `u32`.
    TooLarge,
}

/// The part of `s` before the first occurrence of `c`.
pub open spec fn seg_before(s: Seq<char>, c: char) -> Seq<char> {
    s.take(s.index_of_first(c).unwrap())
}

/// The part of `s` after the first occurrence of `c`.
pub open spec fn seg_after(s: Seq<char>, c: char) -> Seq<char> {
    s.skip(s.index_of_first(c).unwrap() + 1)
}

/// What is left of an `h`/`m`/`s` token once the hours segment is consumed.
pub open spec fn hms_rest1(s: Seq<char>) -> Seq<char> {
    if s.contains('h') {
        seg_after(s, 'h')
    } else {
        s
    }
}

/// What is left once the minutes segment is also consumed.
pub open spec fn hms_rest2(s: Seq<char>) -> Seq<char> {
    let r1 = hms_rest1(s);
    if r1.contains('m') {
        seg_after(r1, 'm')
    } else {
        r1
    }
}

/// The bare-seconds digits: the remainder with an optional trailing `s`
/// (and anything after it) stripped.
pub open spec fn hms_tail(s: Seq<char>) -> Seq<char> {
    let r2 = hms_rest2(s);
    if r2.contains('s') {
        seg_before(r2, 's')
    } else {
        r2
    }
}

/// The `h`/`m`/`s` chain is grammatically sound: every segment that must be
/// a number is one, and the remainder is digits (possibly none).
pub open spec fn hms_ok(s: Seq<char>) -> bool {
    &&& (s.contains('h') ==> is_number(seg_before(s, 'h')))
    &&& (hms_rest1(s).contains('m') ==> is_number(seg_before(hms_rest1(s), 'm')))
    &&& all_digits(hms_tail(s))
}

/// The second count an `h`/`m`/`s` chain denotes.
pub open spec fn hms_val(s: Seq<char>) -> nat {
    (if s.contains('h') {
        3600 * digits_val(seg_before(s, 'h'))
    } else {
        0
    }) + (if hms_rest1(s).contains('m') {
        60 * digits_val(seg_before(hms_rest1(s), 'm'))
    } else {
        0
    }) + digits_val(hms_tail(s))
}

/// The meaning of a duration token: the colon form `minutes:seconds` when a
/// colon is present (exactly one colon, both parts numbers), otherwise the
/// `h`/`m`/`s` chain. An empty token counts zero seconds.
pub open spec fn time_sec_spec(s: Seq<char>) -> Result<u32, TimeError> {
    if s.contains(':') {
        if count_char(s, ':') != 1 {
            Err(TimeError::InvalidColonFormat)
        } else if is_number(seg_before(s, ':')) && is_number(seg_after(s, ':')) {
            let v = 60 * digits_val(seg_before(s, ':')) + digits_val(seg_after(s, ':'));
            if v <= u32::MAX {
                Ok(v as u32)
            } else {
                Err(TimeError::TooLarge)
            }
        } else {
            Err(TimeError::InvalidNumber)
        }
    } else if !hms_ok(s) {
        Err(TimeError::InvalidNumber)
    } else if hms_val(s) > u32::MAX {
        Err(TimeError::TooLarge)
    } else {
        Ok(hms_val(s) as u32)
    }
}

/// Parse a duration token into seconds.
pub fn t_to_sec(t: &str) -> (r: Result<u32, TimeError>)
    ensures
        r == time_sec_spec(t@),
{
    let ghost s = t@;
    let v = str_chars(t);
    let n = v.len();
    match find_first(&v, ':', 0) {
        Some(ci) => {
            proof {
                lemma_first_index_is(s, ':', ci as int);
                assert(s.contains(':')) by {
                    assert(s[ci as int] == ':');
                }
            }
            let cnt = count_in(&v, ':', 0, n);
            proof {
                assert(v@.subrange(0, n as int) =~= s);
            }
            if cnt != 1 {
                return Err(TimeError::InvalidColonFormat);
            }
            proof {
                assert(seg_before(s, ':') =~= v@.subrange(0, ci as int));
                assert(seg_after(s, ':') =~= v@.subrange(ci + 1, n as int));
            }
            let a_ok = ci > 0 && range_all_digits(&v, 0, ci);
            let b_ok = ci + 1 < n && range_all_digits(&v, ci + 1, n);
            if !a_ok || !b_ok {
                return Err(TimeError::InvalidNumber);
            }
            let mv = digits_value_capped(&v, 0, ci);
            let sv = digits_value_capped(&v, ci + 1, n);
            match (mv, sv) {
                (Some(x), Some(y)) => {
                    let tot: u64 = 60 * x + y;
                    if tot <= u32::MAX as u64 {
                        Ok(tot as u32)
                    } else {
                        Err(TimeError::TooLarge)
                    }
                },
                _ => {
                    proof {
                        assert(60 * digits_val(seg_before(s, ':')) + digits_val(
                            seg_after(s, ':'),
                        ) > u32::MAX);
                    }
                    Err(TimeError::TooLarge)
                },
            }
        },
        None => {
            proof {
                lemma_first_index_none(s, ':');
            }
            t_to_sec_hms(&v, Ghost(s))
        },
    }
}

/// Parse the `h`/`m`/`s` chain of a colon-free duration token.
#[verifier::rlimit(60)]
fn t_to_sec_hms(v: &Vec<char>, Ghost(s): Ghost<Seq<char>>) -> (r: Result<u32, TimeError>)
    requires
        v@ == s,
        !s.contains(':'),
    ensures
        r == time_sec_spec(s),
{
    let n = v.len();
    let ghost hval: nat = if s.contains('h') {
        digits_val(seg_before(s, 'h'))
    } else {
        0
    };
    let rest1_from: usize;
    let hv: Option<u64>;
    match find_first(v, 'h', 0) {
        Some(hi) => {
            proof {
                lemma_first_index_is(s, 'h', hi as int);
                assert(s.contains('h')) by {
                    assert(s[hi as int] == 'h');
                }
                assert(seg_before(s, 'h') =~= v@.subrange(0, hi as int));
            }
            if hi == 0 || !range_all_digits(v, 0, hi) {
                assert(!hms_ok(s));
                return Err(TimeError::InvalidNumber);
            }
            hv = digits_value_capped(v, 0, hi);
            rest1_from = hi + 1;
            proof {
                assert(hms_rest1(s) =~= v@.subrange(rest1_from as int, n as int));
            }
        },
        None => {
            proof {
                lemma_first_index_none(s, 'h');
            }
            hv = Some(0);
            rest1_from = 0;
            proof {
                assert(hms_rest1(s) =~= v@.subrange(0, n as int));
            }
        },
    }
    assert(s.contains('h') ==> is_number(seg_before(s, 'h')));
    assert(hms_rest1(s) == v@.subrange(rest1_from as int, n as int));
    assert(match hv {
        Some(x) => x == hval && x <= u32::MAX,
        None => hval > u32::MAX,
    });
    let ghost r1 = hms_rest1(s);
    let ghost mval: nat = if r1.contains('m') {
        digits_val(seg_before(r1, 'm'))
    } else {
        0
    };
    let rest2_from: usize;
    let mv: Option<u64>;
    match find_first(v, 'm', rest1_from) {
        Some(mi) => {
            proof {
                assert(r1[mi - rest1_from] == 'm');
                assert forall|x: int| 0 <= x < mi - rest1_from implies r1[x] != 'm' by {
                    assert(v@[rest1_from + x] != 'm');
                }
                lemma_first_index_is(r1, 'm', mi - rest1_from);
                assert(r1.contains('m')) by {
                    assert(r1[mi - rest1_from] == 'm');
                }
                assert(seg_before(r1, 'm') =~= v@.subrange(rest1_from as int, mi as int));
            }
            if mi == rest1_from || !range_all_digits(v, rest1_from, mi) {
                assert(!hms_ok(s));
                return Err(TimeError::InvalidNumber);
            }
            mv = digits_value_capped(v, rest1_from, mi);
            rest2_from = mi + 1;
            proof {
                assert(hms_rest2(s) =~= v@.subrange(rest2_from as int, n as int));
            }
        },
        None => {
            proof {
                assert forall|x: int| 0 <= x < r1.len() implies r1[x] != 'm' by {
                    assert(v@[rest1_from + x] != 'm');
                }
                lemma_first_index_none(r1, 'm');
            }
            mv = Some(0);
            rest2_from = rest1_from;
            proof {
                assert(hms_rest2(s) =~= v@.subrange(rest2_from as int, n as int));
            }
        },
    }
    assert(r1.contains('m') ==> is_number(seg_before(r1, 'm')));
    assert(hms_rest2(s) == v@.subrange(rest2_from as int, n as int));
    assert(match mv {
        Some(x) => x == mval && x <= u32::MAX,
        None => mval > u32::MAX,
    });
    let ghost r2 = hms_rest2(s);
    let tail_end: usize;
    match find_first(v, 's', rest2_from) {
        Some(si) => {
            proof {
                assert(r2[si - rest2_from] == 's');
                assert forall|x: int| 0 <= x < si - rest2_from implies r2[x] != 's' by {
                    assert(v@[rest2_from + x] != 's');
                }
                lemma_first_index_is(r2, 's', si - rest2_from);
                assert(r2.contains('s')) by {
                    assert(r2[si - rest2_from] == 's');
                }
            }
            tail_end = si;
            proof {
                assert(hms_tail(s) =~= v@.subrange(rest2_from as int, tail_end as int));
            }
        },
        None => {
            proof {
                assert forall|x: int| 0 <= x < r2.len() implies r2[x] != 's' by {
                    assert(v@[rest2_from + x] != 's');
                }
                lemma_first_index_none(r2, 's');
            }
            tail_end = n;
            proof {
                assert(hms_tail(s) =~= v@.subrange(rest2_from as int, tail_end as int));
            }
        },
    }
    assert(hms_tail(s) == v@.subrange(rest2_from as int, tail_end as int));
    if !range_all_digits(v, rest2_from, tail_end) {
        assert(!hms_ok(s));
        return Err(TimeError::InvalidNumber);
    }
    let sv = digits_value_capped(v, rest2_from, tail_end);
    assert(hms_ok(s));
    assert(hms_val(s) == 3600 * hval + 60 * mval + digits_val(hms_tail(s)));
    match (hv, mv, sv) {
        (Some(a), Some(b), Some(c)) => {
            let tot: u64 = 3600 * a + 60 * b + c;
            if tot <= u32::MAX as u64 {
                Ok(tot as u32)
            } else {
                Err(TimeError::TooLarge)
            }
        },
        _ => {
            assert(hms_val(s) > u32::MAX);
            Err(TimeError::TooLarge)
        },
    }
}

} // verus!
