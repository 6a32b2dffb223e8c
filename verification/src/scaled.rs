//! Exact scaled decimals: a quantity is a numerator over a power of ten.
//! Paces (seconds per kilometre) and projected race times are carried in this
//! form, so unit conversions multiply integers and lose nothing.

use vstd::prelude::*;

verus! {

/// Ten to the `e`th power.
pub open spec fn pow10(e: nat) -> nat
    decreases e,
{
    if e == 0 {
        1
    } else {
        10 * pow10((e - 1) as nat)
    }
}

pub proof fn lemma_pow10_mono(a: nat, b: nat)
    requires
        a <= b,
    ensures
        pow10(a) <= pow10(b),
    decreases b,
{
    if a < b {
        lemma_pow10_mono(a, (b - 1) as nat);
        assert(pow10(b) == 10 * pow10((b - 1) as nat));
    }
}

pub proof fn lemma_pow10_12()
    ensures
        pow10(12) == 1_000_000_000_000,
{
    reveal_with_fuel(pow10, 13);
}

pub proof fn lemma_pow10_38_fits()
    ensures
        pow10(38) == 100_000_000_000_000_000_000_000_000_000_000_000_000,
{
    reveal_with_fuel(pow10, 39);
}

pub proof fn lemma_pow10_adds(a: nat, b: nat)
    ensures
        pow10(a + b) == pow10(a) * pow10(b),
    decreases a,
{
    if a == 0 {
        assert(pow10(a) == 1);
        assert(pow10(a + b) == pow10(b));
        assert(pow10(a + b) == pow10(a) * pow10(b));
    } else {
        lemma_pow10_adds((a - 1) as nat, b);
        let x = pow10((a - 1) as nat);
        let y = pow10(b);
        assert(((a - 1) as nat) + b == (a + b - 1) as nat);
        assert(pow10((a + b - 1) as nat) == x * y);
        assert(pow10(a + b) == 10 * (x * y));
        assert(pow10(a) == 10 * x);
        assert(10 * (x * y) == (10 * x) * y) by (nonlinear_arith);
        assert(pow10(a + b) == pow10(a) * pow10(b));
    }
}

/// `10^e` as a machine integer; `10^38` still fits in a `u128`.
#[verifier::loop_isolation(false)]
pub fn pow10_u128(e: u32) -> (r: u128)
    requires
        e <= 38,
    ensures
        r == pow10(e as nat),
        r >= 1,
{
    proof {
        lemma_pow10_mono(0, e as nat);
        lemma_pow10_mono(e as nat, 38);
        lemma_pow10_38_fits();
    }
    let mut r: u128 = 1;
    let mut i: u32 = 0;
    while i < e
        invariant
            0 <= i <= e,
            r == pow10(i as nat),
        decreases e - i,
    {
        proof {
            lemma_pow10_mono((i + 1) as nat, 38);
        }
        r = r * 10;
        i = i + 1;
    }
    r
}

/// An exact non-negative decimal quantity: its value is `num / 10^scale`.
///
/// The library uses it for paces in seconds per kilometre and for projected
/// race times in seconds.
#[derive(Clone, Copy, PartialEq, Eq, Structural, Debug)]
pub struct Scaled {
    pub num: u128,
    pub scale: u32,
}

impl Scaled {
    /// A whole number of units.
    pub fn from_units(n: u64) -> (r: Scaled)
        ensures
            r.num == n,
            r.scale == 0,
    {
        Scaled { num: n as u128, scale: 0 }
    }

    /// The whole part of the quantity: `floor(num / 10^scale)`.
    pub fn floor_units(&self) -> (r: u128)
        requires
            self.scale <= 38,
        ensures
            r == self.num as nat / pow10(self.scale as nat),
    {
        let p = pow10_u128(self.scale);
        self.num / p
    }
}

} // verus!
