//! The race table: from a pace in seconds per kilometre, the projected finish
//! time of each standard race distance, exactly and in display order.

use crate::distance::{all_distances, Distance};
use crate::render::{pad_right, pad_right_string, sec_string, sec_to_string};
use crate::scaled::{lemma_pow10_adds, lemma_pow10_mono, pow10, Scaled};
use vstd::prelude::*;

verus! {

/// Numerator of the pace-mode miles-to-kilometres factor, 0.62137119223733:
/// a pace in seconds per mile times this, at fourteen more decimal places,
/// is the same pace in seconds per kilometre.
pub const PACE_MILE_TO_KM_NUM: u64 = 62_137_119_223_733;

/// Convert a pace in seconds per mile to seconds per kilometre, exactly:
/// the value is multiplied by 0.62137119223733.
pub fn convert_to_per_km(per_mile: Scaled) -> (r: Scaled)
    requires
        per_mile.num < pow10(21),
        per_mile.scale <= 20,
    ensures
        r.num == per_mile.num * PACE_MILE_TO_KM_NUM,
        r.scale == per_mile.scale + 14,
        r.num < pow10(35),
{
    proof {
        lemma_pow10_adds(21, 14);
        lemma_pow10_mono(35, 38);
        crate::scaled::lemma_pow10_38_fits();
        assert(pow10(14) == 100_000_000_000_000) by {
            reveal_with_fuel(pow10, 15);
        }
        let a = per_mile.num as int;
        let p21 = pow10(21) as int;
        let p14 = pow10(14) as int;
        assert(a * (PACE_MILE_TO_KM_NUM as int) < p21 * p14) by (nonlinear_arith)
            requires
                0 <= a < p21,
                0 < PACE_MILE_TO_KM_NUM < p14,
                0 < p21,
        ;
        lemma_pow10_adds(21, 14);
    }
    Scaled { num: per_mile.num * (PACE_MILE_TO_KM_NUM as u128), scale: per_mile.scale + 14 }
}

/// The projected finish time of each standard race distance at the given
/// pace: exactly `distance_km * pace`, with no rounding, one entry per race
/// in display order.
#[verifier::loop_isolation(false)]
pub fn get_distances(pace: &Scaled) -> (r: Vec<(Distance, Scaled)>)
    requires
        pace.num < pow10(35),
        pace.scale <= 37,
    ensures
        r@.len() == all_distances().len(),
        forall|i: int|
            0 <= i < r@.len() ==> {
                &&& (#[trigger] r@[i]).0 == all_distances()[i]
                &&& r@[i].1.num == all_distances()[i].km_tenths_spec() * pace.num
                &&& r@[i].1.scale == pace.scale + 1
            },
{
    proof {
        lemma_pow10_adds(3, 35);
        lemma_pow10_mono(38, 38);
        crate::scaled::lemma_pow10_38_fits();
        assert(pow10(3) == 1000) by {
            reveal_with_fuel(pow10, 4);
        }
    }
    let ds = Distance::all();
    let mut r: Vec<(Distance, Scaled)> = Vec::new();
    let mut i: usize = 0;
    while i < ds.len()
        invariant
            0 <= i <= ds@.len(),
            r@.len() == i,
            forall|j: int|
                0 <= j < i ==> {
                    &&& (#[trigger] r@[j]).0 == all_distances()[j]
                    &&& r@[j].1.num == all_distances()[j].km_tenths_spec() * pace.num
                    &&& r@[j].1.scale == pace.scale + 1
                },
        decreases ds@.len() - i,
    {
        let di = ds[i];
        let tenths = di.km_tenths();
        assert(tenths <= 500);
        proof {
            let a = tenths as int;
            let b = pace.num as int;
            let p35 = pow10(35) as int;
            assert(a * b < 1000 * p35) by (nonlinear_arith)
                requires
                    0 <= a < 1000,
                    0 <= b < p35,
                    0 < p35,
            ;
        }
        let num = (tenths as u128) * pace.num;
        r.push((di, Scaled { num, scale: pace.scale + 1 }));
        i = i + 1;
    }
    r
}

/// One row of the race table: a tab, the race name padded to fifteen
/// characters, and the projected time rounded down to whole seconds.
pub open spec fn race_line(d: Distance, pace: Scaled) -> Seq<char> {
    seq!['\t'] + pad_right(d.name_spec(), 15) + sec_string(
        (d.km_tenths_spec() * pace.num / (pow10((pace.scale + 1) as nat) as int)) as nat,
    )
}

/// The race table as printable lines: a heading, then one row per standard
/// race distance in display order.
#[verifier::loop_isolation(false)]
pub fn display_distances(pace: &Scaled) -> (r: Vec<String>)
    requires
        pace.num < pow10(35),
        pace.scale <= 37,
    ensures
        r@.len() == 6,
        r@[0]@ == "At that pace:"@,
        forall|i: int| 0 <= i < 5 ==> r@[i + 1]@ == race_line(all_distances()[i], *pace),
{
    let table = get_distances(pace);
    let mut r: Vec<String> = Vec::new();
    r.push(String::from_str("At that pace:"));
    let mut i: usize = 0;
    while i < table.len()
        invariant
            0 <= i <= 5,
            table@.len() == 5,
            r@.len() == i + 1,
            r@[0]@ == "At that pace:"@,
            forall|j: int| 0 <= j < i ==> r@[j + 1]@ == race_line(all_distances()[j], *pace),
            forall|j: int|
                0 <= j < 5 ==> {
                    &&& (#[trigger] table@[j]).0 == all_distances()[j]
                    &&& table@[j].1.num == all_distances()[j].km_tenths_spec() * pace.num
                    &&& table@[j].1.scale == pace.scale + 1
                },
        decreases 5 - i,
    {
        let di = table[i].0;
        let t = table[i].1;
        proof {
            reveal_strlit("\t");
        }
        let mut line = String::from_str("\t");
        line.append(pad_right_string(di.name(), 15).as_str());
        line.append(sec_to_string(t.floor_units()).as_str());
        assert(line@ =~= race_line(all_distances()[i as int], *pace));
        r.push(line);
        i = i + 1;
    }
    r
}

} // verus!
