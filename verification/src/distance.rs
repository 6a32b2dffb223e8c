//! Distance units and the five standard race distances.

use vstd::prelude::*;

verus! {

/// How a raw distance or pace token is to be read.
#[derive(Clone, Copy, Debug, PartialEq, Eq, Structural)]
pub enum DistUnit {
    Miles,
    Kilometers,
}

/// The unit's display word.
pub open spec fn unit_label(u: DistUnit) -> Seq<char> {
    match u {
        DistUnit::Miles => "miles"@,
        DistUnit::Kilometers => "km"@,
    }
}

impl DistUnit {
    /// The unit's display word.
    pub fn label(&self) -> (r: &'static str)
        ensures
            r@ == unit_label(*self),
    {
        match self {
            DistUnit::Miles => "miles",
            DistUnit::Kilometers => "km",
        }
    }
}

/// The five standard race distances, in their fixed display order.
#[derive(Clone, Copy, Debug, PartialEq, Eq, Structural)]
pub enum Distance {
    FiftyK,
    Marathon,
    HalfMarathon,
    TenK,
    FiveK,
}

/// The fixed display order of the race table: longest first, as declared.
pub open spec fn all_distances() -> Seq<Distance> {
    seq![
        Distance::FiftyK,
        Distance::Marathon,
        Distance::HalfMarathon,
        Distance::TenK,
        Distance::FiveK,
    ]
}

impl Distance {
    /// The display name of the race.
    pub open spec fn name_spec(self) -> Seq<char> {
        match self {
            Distance::FiftyK => "50k"@,
            Distance::Marathon => "Marathon"@,
            Distance::HalfMarathon => "Half-Marathon"@,
            Distance::TenK => "10k"@,
            Distance::FiveK => "5k"@,
        }
    }

    /// The race length in tenths of a kilometre (the lengths are exact
    /// multiples of 0.1 km, so tenths carry them without loss).
    pub open spec fn km_tenths_spec(self) -> nat {
        match self {
            Distance::FiftyK => 500,
            Distance::Marathon => 422,
            Distance::HalfMarathon => 211,
            Distance::TenK => 100,
            Distance::FiveK => 50,
        }
    }

    /// All five race distances, in display order.
    pub fn all() -> (r: Vec<Distance>)
        ensures
            r@ == all_distances(),
    {
        let r = vec![
            Distance::FiftyK,
            Distance::Marathon,
            Distance::HalfMarathon,
            Distance::TenK,
            Distance::FiveK,
        ];
        assert(r@ =~= all_distances());
        r
    }

    /// The display name of the race.
    pub fn name(&self) -> (r: &'static str)
        ensures
            r@ == self.name_spec(),
    {
        match self {
            Distance::FiftyK => "50k",
            Distance::Marathon => "Marathon",
            Distance::HalfMarathon => "Half-Marathon",
            Distance::TenK => "10k",
            Distance::FiveK => "5k",
        }
    }

    /// The race length in tenths of a kilometre.
    pub fn km_tenths(&self) -> (r: u64)
        ensures
            r == self.km_tenths_spec(),
    {
        match self {
            Distance::FiftyK => 500,
            Distance::Marathon => 422,
            Distance::HalfMarathon => 211,
            Distance::TenK => 100,
            Distance::FiveK => 50,
        }
    }
}

} // verus!
