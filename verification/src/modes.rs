//! The two operating modes. Distance mode takes a distance token and a
//! duration token and reports the pace per kilometre and per mile. Pace mode
//! takes a pace token and projects finish times for the standard races.

use crate::digits::{
    all_digits, count_char, count_in, digits_val, digits_value12, find_first,
    lemma_first_index_is, range_all_digits, str_chars, str_eq_str,
};
use crate::distance::{all_distances, DistUnit};
use crate::errors::PaceError;
use crate::projector::{convert_to_per_km, display_distances, race_line, PACE_MILE_TO_KM_NUM};
use crate::render::{sec_string, sec_to_string, two_dp, two_dp_string};
use crate::scaled::{lemma_pow10_adds, lemma_pow10_mono, pow10, pow10_u128, Scaled};
use crate::time::{seg_after, seg_before, t_to_sec, time_sec_spec, TimeError};
use vstd::prelude::*;

verus! {

/// The textual distance aliases, expanded before the unit letter is read.
pub open spec fn expand_alias(s: Seq<char>) -> Seq<char> {
    if s == "marathon"@ {
        "42.2k"@
    } else if s == "half"@ {
        "21.1k"@
    } else {
        s
    }
}

/// Expand the textual distance aliases.
pub fn expand_alias_str<'a>(d: &'a str) -> (r: &'a str)
    ensures
        r@ == expand_alias(d@),
{
    if str_eq_str(d, "marathon") {
        "42.2k"
    } else if str_eq_str(d, "half") {
        "21.1k"
    } else {
        d
    }
}

/// The digits of a decimal token, the optional dot removed.
pub open spec fn dec_digits_of(p: Seq<char>) -> Seq<char> {
    if p.contains('.') {
        seg_before(p, '.') + seg_after(p, '.')
    } else {
        p
    }
}

/// How many digits stand after the dot.
pub open spec fn dec_scale_of(p: Seq<char>) -> nat {
    if p.contains('.') {
        seg_after(p, '.').len()
    } else {
        0
    }
}

/// An unsigned decimal literal: at most one dot, at least one digit, nothing
/// but digits besides the dot.
pub open spec fn is_decimal(p: Seq<char>) -> bool {
    count_char(p, '.') <= 1 && all_digits(dec_digits_of(p)) && dec_digits_of(p).len() > 0
}

/// The numerator of the decimal: its value is `dec_num_of / 10^dec_scale_of`.
pub open spec fn dec_num_of(p: Seq<char>) -> nat {
    digits_val(dec_digits_of(p))
}

/// Distance-mode kilometres to miles: multiply by 0.62137119, that is by
/// this numerator at eight more decimal places.
pub open spec fn km_to_miles_num(n: nat) -> nat {
    n * 62137119
}

/// Distance-mode miles to kilometres: multiply by 1.609, that is by this
/// numerator at three more decimal places.
pub open spec fn miles_to_km_num(n: nat) -> nat {
    n * 1609
}

/// Law: converting a distance from kilometres to miles and back with the two
/// distance-mode factors is not exact — the factors are not inverses — but
/// the round trip lands within one percent of the original. Both sides are
/// stated at eleven more decimal places, the scale the round trip produces.
pub proof fn lemma_distance_round_trip(num: nat)
    requires
        num >= 1,
    ensures
        miles_to_km_num(km_to_miles_num(num)) < num * pow10(11),
        100 * (num * pow10(11) - miles_to_km_num(km_to_miles_num(num))) < num * pow10(11),
{
    assert(pow10(11) == 100_000_000_000) by {
        reveal_with_fuel(pow10, 12);
    }
    assert(62137119 * 1609 == 99978624471);
    assert((num * 62137119) * 1609 == num * (62137119 * 1609)) by (nonlinear_arith);
    assert(100 * (num * 100_000_000_000 - num * 99978624471) < num * 100_000_000_000)
        by (nonlinear_arith)
        requires
            num >= 1,
    ;
}

/// Convert a distance in kilometres to miles, exactly: the value is
/// multiplied by 0.62137119.
pub fn km_to_miles(d: Scaled) -> (r: Scaled)
    requires
        d.num < pow10(30),
        d.scale <= 30,
    ensures
        r.num == km_to_miles_num(d.num as nat),
        r.scale == d.scale + 8,
{
    proof {
        lemma_pow10_adds(30, 8);
        crate::scaled::lemma_pow10_38_fits();
        assert(pow10(8) == 100_000_000) by {
            reveal_with_fuel(pow10, 9);
        }
        assert((d.num as int) * 62_137_119 < pow10(30) * pow10(8)) by (nonlinear_arith)
            requires
                0 <= (d.num as int) < pow10(30),
                0 < 62_137_119 < pow10(8),
                pow10(30) > 0,
        ;
    }
    Scaled { num: d.num * 62_137_119, scale: d.scale + 8 }
}

/// Convert a distance in miles to kilometres, exactly: the value is
/// multiplied by 1.609.
pub fn miles_to_km(d: Scaled) -> (r: Scaled)
    requires
        d.num < pow10(30),
        d.scale <= 30,
    ensures
        r.num == miles_to_km_num(d.num as nat),
        r.scale == d.scale + 3,
{
    proof {
        lemma_pow10_adds(30, 8);
        crate::scaled::lemma_pow10_38_fits();
        assert(pow10(8) == 100_000_000) by {
            reveal_with_fuel(pow10, 9);
        }
        assert((d.num as int) * 1609 < pow10(30) * pow10(8)) by (nonlinear_arith)
            requires
                0 <= (d.num as int) < pow10(30),
                0 < 1609 < pow10(8),
                pow10(30) > 0,
        ;
    }
    Scaled { num: d.num * 1609, scale: d.scale + 3 }
}

/// How the numeric prefix of a distance token parses.
enum DecParse {
    /// The numerator and the number of decimal places.
    Value(u64, u32),
    /// Not an unsigned decimal literal.
    NotDecimal,
    /// A decimal of more than twelve digits.
    TooLong,
}

/// Parse `v[0..end]` as an unsigned decimal of at most twelve digits.
#[verifier::loop_isolation(false)]
#[verifier::rlimit(60)]
fn parse_decimal(v: &Vec<char>, end: usize) -> (r: DecParse)
    requires
        end <= v@.len(),
    ensures
        ({
            let p = v@.subrange(0, end as int);
            match r {
                DecParse::Value(num, sc) => {
                    &&& is_decimal(p)
                    &&& dec_digits_of(p).len() <= 12
                    &&& num == dec_num_of(p)
                    &&& sc == dec_scale_of(p)
                    &&& num < 1_000_000_000_000
                    &&& sc <= 12
                },
                DecParse::NotDecimal => !is_decimal(p),
                DecParse::TooLong => is_decimal(p) && dec_digits_of(p).len() > 12,
            }
        }),
{
    let ghost p = v@.subrange(0, end as int);
    let dots = count_in(v, '.', 0, end);
    if dots >= 2 {
        return DecParse::NotDecimal;
    }
    if dots == 0 {
        proof {
            crate::digits::lemma_count_none(p, '.');
            assert(!p.contains('.'));
            assert(dec_digits_of(p) == p);
        }
        if end == 0 || !range_all_digits(v, 0, end) {
            return DecParse::NotDecimal;
        }
        if end > 12 {
            return DecParse::TooLong;
        }
        let num = digits_value12(v, 0, end);
        return DecParse::Value(num, 0);
    }
    // exactly one dot: find it
    let di = match find_first(v, '.', 0) {
        Some(i) => i,
        None => {
            proof {
                assert(count_char(p, '.') == 0) by {
                    crate::digits::lemma_count_none(p, '.');
                }
            }
            return DecParse::NotDecimal;  // unreachable: a dot was counted
        },
    };
    if di >= end {
        proof {
            crate::digits::lemma_count_none(p, '.');
        }
        return DecParse::NotDecimal;  // unreachable: the dot lies in the range
    }
    proof {
        lemma_first_index_is(p, '.', di as int);
        assert(p.contains('.')) by {
            assert(p[di as int] == '.');
        }
        assert(seg_before(p, '.') =~= v@.subrange(0, di as int));
        assert(seg_after(p, '.') =~= v@.subrange(di + 1, end as int));
    }
    let ghost a = seg_before(p, '.');
    let ghost b = seg_after(p, '.');
    // copy the digits around the dot into one run
    let mut dv: Vec<char> = Vec::new();
    let mut i: usize = 0;
    while i < di
        invariant
            0 <= i <= di,
            di < end,
            dv@ =~= v@.subrange(0, i as int),
        decreases di - i,
    {
        dv.push(v[i]);
        i = i + 1;
    }
    assert(dv@ =~= a);
    let mut j: usize = di + 1;
    while j < end
        invariant
            di + 1 <= j <= end,
            dv@ =~= a + v@.subrange(di + 1, j as int),
        decreases end - j,
    {
        proof {
            assert(v@.subrange(di + 1, j + 1) =~= v@.subrange(di + 1, j as int).push(v@[j as int]));
        }
        dv.push(v[j]);
        j = j + 1;
    }
    assert(dv@ =~= dec_digits_of(p));
    let dn = dv.len();
    if dn == 0 || !range_all_digits(&dv, 0, dn) {
        proof {
            assert(dv@.subrange(0, dn as int) =~= dv@);
        }
        return DecParse::NotDecimal;
    }
    proof {
        assert(dv@.subrange(0, dn as int) =~= dv@);
    }
    if dn > 12 {
        return DecParse::TooLong;
    }
    let num = digits_value12(&dv, 0, dn);
    let sc = (end - di - 1) as u32;
    assert(sc == dec_scale_of(p));
    DecParse::Value(num, sc)
}

/// A well-formed distance token, once aliases are expanded: a unit letter
/// after a positive decimal of at most twelve digits.
pub open spec fn dist_token_ok(x: Seq<char>) -> bool {
    &&& x.len() > 0
    &&& (x.last() == 'k' || x.last() == 'm')
    &&& is_decimal(x.drop_last())
    &&& dec_digits_of(x.drop_last()).len() <= 12
    &&& dec_num_of(x.drop_last()) > 0
}

/// The distance in kilometres: numerator and decimal places.
pub open spec fn dist_km_num(x: Seq<char>) -> nat {
    if x.last() == 'k' {
        dec_num_of(x.drop_last())
    } else {
        miles_to_km_num(dec_num_of(x.drop_last()))
    }
}

pub open spec fn dist_km_scale(x: Seq<char>) -> nat {
    if x.last() == 'k' {
        dec_scale_of(x.drop_last())
    } else {
        dec_scale_of(x.drop_last()) + 3
    }
}

/// The distance in miles: numerator and decimal places.
pub open spec fn dist_mi_num(x: Seq<char>) -> nat {
    if x.last() == 'k' {
        km_to_miles_num(dec_num_of(x.drop_last()))
    } else {
        dec_num_of(x.drop_last())
    }
}

pub open spec fn dist_mi_scale(x: Seq<char>) -> nat {
    if x.last() == 'k' {
        dec_scale_of(x.drop_last()) + 8
    } else {
        dec_scale_of(x.drop_last())
    }
}

/// The heading line of a distance-mode report.
pub open spec fn distance_line0(x: Seq<char>, t: Seq<char>) -> Seq<char> {
    two_dp(dist_km_num(x), dist_km_scale(x)) + " km / "@ + two_dp(dist_mi_num(x), dist_mi_scale(x))
        + " miles in "@ + t + ":"@
}

/// The pace-per-kilometre line of a distance-mode report.
pub open spec fn distance_line_km(x: Seq<char>, secs: nat) -> Seq<char> {
    seq!['\t'] + sec_string(secs * pow10(dist_km_scale(x)) / dist_km_num(x)) + " / km"@
}

/// The pace-per-mile line of a distance-mode report.
pub open spec fn distance_line_mi(x: Seq<char>, secs: nat) -> Seq<char> {
    seq!['\t'] + sec_string(secs * pow10(dist_mi_scale(x)) / dist_mi_num(x)) + " / mile"@
}

/// Exactly which error a distance-mode request reports, and for which inputs.
pub open spec fn dist_err_spec(x: Seq<char>, t: Seq<char>, e: PaceError) -> bool {
    let p = x.drop_last();
    match e {
        PaceError::EmptyToken => x.len() == 0,
        PaceError::BadDistanceUnit(c) => x.len() > 0 && x.last() != 'k' && x.last() != 'm' && c
            == x.last(),
        PaceError::BadDistanceNumber(tok) => x.len() > 0 && (x.last() == 'k' || x.last() == 'm')
            && !is_decimal(p) && tok@ == p,
        PaceError::DistanceTooLarge(tok) => x.len() > 0 && (x.last() == 'k' || x.last() == 'm')
            && is_decimal(p) && dec_digits_of(p).len() > 12 && tok@ == p,
        PaceError::ZeroDistance(tok) => x.len() > 0 && (x.last() == 'k' || x.last() == 'm')
            && is_decimal(p) && dec_digits_of(p).len() <= 12 && dec_num_of(p) == 0 && tok@ == p,
        PaceError::BadTime(tok, te) => dist_token_ok(x) && time_sec_spec(t) == Err::<
            u32,
            TimeError,
        >(te) && tok@ == t,
        PaceError::BadPaceUnit(_) => false,
    }
}

/// Distance mode: from a distance token (`10k`, `26.2m`, `marathon`, `half`)
/// and a duration token, the report lines — the distance in both units and
/// the pace per kilometre and per mile — or the error to print.
#[verifier::rlimit(80)]
pub fn do_distance(d_raw_param: &str, t_raw_param: &str) -> (r: Result<Vec<String>, PaceError>)
    ensures
        ({
            let x = expand_alias(d_raw_param@);
            match r {
                Ok(lines) => {
                    &&& dist_token_ok(x)
                    &&& time_sec_spec(t_raw_param@) is Ok
                    &&& lines@.len() == 3
                    &&& lines@[0]@ == distance_line0(x, t_raw_param@)
                    &&& lines@[1]@ == distance_line_km(
                        x,
                        time_sec_spec(t_raw_param@).unwrap() as nat,
                    )
                    &&& lines@[2]@ == distance_line_mi(
                        x,
                        time_sec_spec(t_raw_param@).unwrap() as nat,
                    )
                },
                Err(e) => dist_err_spec(x, t_raw_param@, e),
            }
        }),
{
    let d_raw = expand_alias_str(d_raw_param);
    let ghost x = expand_alias(d_raw_param@);
    let v = str_chars(d_raw);
    let n = v.len();
    if n == 0 {
        return Err(PaceError::EmptyToken);
    }
    let c = v[n - 1];
    assert(c == x.last());
    if c != 'k' && c != 'm' {
        return Err(PaceError::BadDistanceUnit(c));
    }
    let ghost p = x.drop_last();
    proof {
        assert(p =~= v@.subrange(0, n - 1));
    }
    let prefix = d_raw.substring_char(0, n - 1);
    assert(prefix@ == p);
    match parse_decimal(&v, n - 1) {
        DecParse::NotDecimal => Err(PaceError::BadDistanceNumber(String::from_str(prefix))),
        DecParse::TooLong => Err(PaceError::DistanceTooLarge(String::from_str(prefix))),
        DecParse::Value(num, sc) => {
            if num == 0 {
                return Err(PaceError::ZeroDistance(String::from_str(prefix)));
            }
            match t_to_sec(t_raw_param) {
                Err(te) => Err(PaceError::BadTime(String::from_str(t_raw_param), te)),
                Ok(secs) => {
                    let unit = if c == 'k' {
                        DistUnit::Kilometers
                    } else {
                        DistUnit::Miles
                    };
                    Ok(distance_report(num, sc, unit, secs, t_raw_param, Ghost(x)))
                },
            }
        },
    }
}

/// Build the three distance-mode report lines from the parsed pieces.
#[verifier::rlimit(80)]
fn distance_report(
    num: u64,
    sc: u32,
    unit: DistUnit,
    secs: u32,
    t_raw_param: &str,
    Ghost(x): Ghost<Seq<char>>,
) -> (lines: Vec<String>)
    requires
        x.len() > 0,
        x.last() == 'k' || x.last() == 'm',
        (unit == DistUnit::Kilometers) == (x.last() == 'k'),
        is_decimal(x.drop_last()),
        num == dec_num_of(x.drop_last()),
        sc == dec_scale_of(x.drop_last()),
        0 < num < 1_000_000_000_000,
        sc <= 12,
    ensures
        lines@.len() == 3,
        lines@[0]@ == distance_line0(x, t_raw_param@),
        lines@[1]@ == distance_line_km(x, secs as nat),
        lines@[2]@ == distance_line_mi(x, secs as nat),
{
    proof {
        crate::scaled::lemma_pow10_12();
        lemma_pow10_adds(12, 8);
        lemma_pow10_mono(20, 33);
        lemma_pow10_mono(sc as nat, 12);
        lemma_pow10_mono((sc + 3) as nat, 20);
        lemma_pow10_mono((sc + 8) as nat, 20);
        assert(pow10(8) == 100_000_000) by {
            reveal_with_fuel(pow10, 9);
        }
        assert(pow10(20) == pow10(12) * pow10(8));
    }
    proof {
        lemma_pow10_mono(12, 30);
    }
    let given = Scaled { num: num as u128, scale: sc };
    let dk: Scaled;
    let dm: Scaled;
    match unit {
        DistUnit::Kilometers => {
            dk = given;
            dm = km_to_miles(given);
            proof {
                assert((num as int) * 62_137_119 < pow10(12) * pow10(8)) by (nonlinear_arith)
                    requires
                        0 < (num as int) < pow10(12),
                        0 < 62_137_119 < pow10(8),
                        pow10(12) > 0,
                ;
            }
        },
        DistUnit::Miles => {
            dm = given;
            dk = miles_to_km(given);
            proof {
                assert((num as int) * 1609 < pow10(12) * pow10(8)) by (nonlinear_arith)
                    requires
                        0 < (num as int) < pow10(12),
                        0 < 1609 < pow10(8),
                        pow10(12) > 0,
                ;
            }
        },
    }
    let km_num: u128 = dk.num;
    let km_scale: u32 = dk.scale;
    let mi_num: u128 = dm.num;
    let mi_scale: u32 = dm.scale;
    assert(km_num == dist_km_num(x) && km_scale == dist_km_scale(x));
    assert(mi_num == dist_mi_num(x) && mi_scale == dist_mi_scale(x));
    assert(0 < km_num < pow10(20) && 0 < mi_num < pow10(20));
    let mut line0 = two_dp_string(km_num, km_scale);
    line0.append(" km / ");
    line0.append(two_dp_string(mi_num, mi_scale).as_str());
    line0.append(" miles in ");
    line0.append(t_raw_param);
    line0.append(":");
    assert(line0@ =~= distance_line0(x, t_raw_param@));
    proof {
        reveal_strlit("\t");
        lemma_pow10_mono(0, km_scale as nat);
        lemma_pow10_mono(0, mi_scale as nat);
        lemma_pow10_mono(km_scale as nat, 20);
        lemma_pow10_mono(mi_scale as nat, 20);
        lemma_pow10_mono(10, 20);
        lemma_pow10_adds(10, 20);
        lemma_pow10_mono(30, 38);
        crate::scaled::lemma_pow10_38_fits();
        assert(pow10(10) == 10_000_000_000) by {
            reveal_with_fuel(pow10, 11);
        }
        assert((secs as int) * (pow10(km_scale as nat) as int) < pow10(10) * pow10(20))
            by (nonlinear_arith)
            requires
                0 <= (secs as int) < pow10(10),
                0 < pow10(km_scale as nat) <= pow10(20),
                pow10(10) > 0,
                pow10(20) > 0,
        ;
        assert((secs as int) * (pow10(mi_scale as nat) as int) < pow10(10) * pow10(20))
            by (nonlinear_arith)
            requires
                0 <= (secs as int) < pow10(10),
                0 < pow10(mi_scale as nat) <= pow10(20),
                pow10(10) > 0,
                pow10(20) > 0,
        ;
    }
    let fk = (secs as u128) * pow10_u128(km_scale) / km_num;
    let fm = (secs as u128) * pow10_u128(mi_scale) / mi_num;
    let mut line1 = String::from_str("\t");
    line1.append(sec_to_string(fk).as_str());
    line1.append(" / km");
    assert(line1@ =~= distance_line_km(x, secs as nat));
    let mut line2 = String::from_str("\t");
    line2.append(sec_to_string(fm).as_str());
    line2.append(" / mile");
    assert(line2@ =~= distance_line_mi(x, secs as nat));
    let mut lines: Vec<String> = Vec::new();
    lines.push(line0);
    lines.push(line1);
    lines.push(line2);
    lines
}

/// A well-formed pace token: a unit letter after a duration token.
pub open spec fn pace_token_ok(s: Seq<char>) -> bool {
    s.len() > 0 && (s.last() == 'k' || s.last() == 'm') && time_sec_spec(s.drop_last()) is Ok
}

/// The pace a pace token denotes, in seconds per kilometre: a per-mile pace
/// is multiplied by 0.62137119223733 at the boundary.
pub open spec fn pace_of(s: Seq<char>) -> Scaled {
    let secs = time_sec_spec(s.drop_last()).unwrap() as nat;
    if s.last() == 'm' {
        Scaled { num: (secs * PACE_MILE_TO_KM_NUM) as u128, scale: 14 }
    } else {
        Scaled { num: secs as u128, scale: 0 }
    }
}

/// Exactly which error a pace-mode request reports, and for which inputs.
pub open spec fn pace_err_spec(s: Seq<char>, e: PaceError) -> bool {
    match e {
        PaceError::EmptyToken => s.len() == 0,
        PaceError::BadPaceUnit(c) => s.len() > 0 && s.last() != 'k' && s.last() != 'm' && c
            == s.last(),
        PaceError::BadTime(tok, te) => s.len() > 0 && (s.last() == 'k' || s.last() == 'm') && tok@
            == s.drop_last() && time_sec_spec(s.drop_last()) == Err::<u32, TimeError>(te),
        _ => false,
    }
}

/// Pace mode: from a pace token (`4:30k`, `7:00m`), the race-table lines,
/// or the error to print.
pub fn do_pace(p: &str) -> (r: Result<Vec<String>, PaceError>)
    ensures
        ({
            match r {
                Ok(lines) => {
                    &&& pace_token_ok(p@)
                    &&& lines@.len() == 6
                    &&& lines@[0]@ == "At that pace:"@
                    &&& forall|i: int|
                        0 <= i < 5 ==> lines@[i + 1]@ == race_line(all_distances()[i], pace_of(p@))
                },
                Err(e) => pace_err_spec(p@, e),
            }
        }),
{
    let n = p.unicode_len();
    if n == 0 {
        return Err(PaceError::EmptyToken);
    }
    let c = p.get_char(n - 1);
    assert(c == p@.last());
    if c != 'k' && c != 'm' {
        return Err(PaceError::BadPaceUnit(c));
    }
    let prefix = p.substring_char(0, n - 1);
    proof {
        assert(prefix@ =~= p@.drop_last());
    }
    match t_to_sec(prefix) {
        Err(te) => Err(PaceError::BadTime(String::from_str(prefix), te)),
        Ok(secs) => {
            proof {
                lemma_pow10_mono(10, 21);
                assert(pow10(10) == 10_000_000_000) by {
                    reveal_with_fuel(pow10, 11);
                }
            }
            let unit = if c == 'k' {
                DistUnit::Kilometers
            } else {
                DistUnit::Miles
            };
            let base = Scaled::from_units(secs as u64);
            let pace = if unit == DistUnit::Miles {
                convert_to_per_km(base)
            } else {
                proof {
                    lemma_pow10_mono(10, 35);
                }
                base
            };
            assert(pace == pace_of(p@));
            assert(pace.num < pow10(35) && pace.scale <= 37);
            let lines = display_distances(&pace);
            Ok(lines)
        },
    }
}

} // verus!
