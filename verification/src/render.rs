//! Rendering numbers as text: decimal digit strings, the `HhMMmSSs` duration
//! form, fixed two-decimal quantities, and right-padding for the race table.

use crate::scaled::pow10;
use vstd::prelude::*;

verus! {

/// The character for one digit value.
pub open spec fn digit_char(d: nat) -> char {
    if d == 0 {
        '0'
    } else if d == 1 {
        '1'
    } else if d == 2 {
        '2'
    } else if d == 3 {
        '3'
    } else if d == 4 {
        '4'
    } else if d == 5 {
        '5'
    } else if d == 6 {
        '6'
    } else if d == 7 {
        '7'
    } else if d == 8 {
        '8'
    } else {
        '9'
    }
}

/// `n` written in base ten, no leading zeros (a single zero for 0).
pub open spec fn dec_str(n: nat) -> Seq<char>
    decreases n,
{
    if n < 10 {
        seq![digit_char(n)]
    } else {
        dec_str(n / 10) + seq![digit_char(n % 10)]
    }
}

/// `n < 100` written with exactly two digits.
pub open spec fn pad2(n: nat) -> Seq<char> {
    if n < 10 {
        seq!['0'] + dec_str(n)
    } else {
        dec_str(n)
    }
}

/// A run of `n` spaces.
pub open spec fn spaces(n: nat) -> Seq<char> {
    Seq::new(n, |i: int| ' ')
}

/// `s` padded on the right with spaces to at least `w` characters.
pub open spec fn pad_right(s: Seq<char>, w: nat) -> Seq<char> {
    if s.len() >= w {
        s
    } else {
        s + spaces((w - s.len()) as nat)
    }
}

/// A second count rendered the way the calculator prints durations:
/// hours only from 3600 s up, unpadded; minutes whenever there are hours or
/// minutes, zero-padded only under an hours segment; seconds whenever at
/// least one second remains, always zero-padded. Zero renders as the empty
/// string.
pub open spec fn sec_string(n: nat) -> Seq<char> {
    let h = n / 3600;
    let m = (n % 3600) / 60;
    let s = n % 60;
    let hours_part = if n >= 3600 {
        dec_str(h) + seq!['h']
    } else {
        Seq::<char>::empty()
    };
    let minutes_part = if h >= 1 || m >= 1 {
        (if h >= 1 {
            pad2(m)
        } else {
            dec_str(m)
        }) + seq!['m']
    } else {
        Seq::<char>::empty()
    };
    let seconds_part = if s >= 1 {
        pad2(s) + seq!['s']
    } else {
        Seq::<char>::empty()
    };
    hours_part + minutes_part + seconds_part
}

/// `num / 10^scale` rendered with exactly two decimals, rounding half up.
pub open spec fn two_dp(num: nat, scale: nat) -> Seq<char> {
    let h = pow10(scale);
    let n2 = (100 * num + h / 2) / h;
    dec_str(n2 / 100) + seq!['.'] + pad2(n2 % 100)
}

/// The string of one digit.
pub fn digit_str(d: u64) -> (r: &'static str)
    requires
        d < 10,
    ensures
        r@ == seq![digit_char(d as nat)],
{
    proof {
        reveal_strlit("0");
        reveal_strlit("1");
        reveal_strlit("2");
        reveal_strlit("3");
        reveal_strlit("4");
        reveal_strlit("5");
        reveal_strlit("6");
        reveal_strlit("7");
        reveal_strlit("8");
        reveal_strlit("9");
    }
    let r = if d == 0 {
        "0"
    } else if d == 1 {
        "1"
    } else if d == 2 {
        "2"
    } else if d == 3 {
        "3"
    } else if d == 4 {
        "4"
    } else if d == 5 {
        "5"
    } else if d == 6 {
        "6"
    } else if d == 7 {
        "7"
    } else if d == 8 {
        "8"
    } else {
        "9"
    };
    assert(r@ =~= seq![digit_char(d as nat)]);
    r
}

/// `n` written in base ten.
pub fn u128_to_dec(n: u128) -> (r: String)
    ensures
        r@ == dec_str(n as nat),
    decreases n,
{
    if n < 10 {
        String::from_str(digit_str(n as u64))
    } else {
        assert(n / 10 < n);
        let mut r = u128_to_dec(n / 10);
        r.append(digit_str((n % 10) as u64));
        assert(r@ =~= dec_str(n as nat));
        r
    }
}

/// `n < 100` written with exactly two digits.
pub fn pad2_string(n: u128) -> (r: String)
    requires
        n < 100,
    ensures
        r@ == pad2(n as nat),
{
    if n < 10 {
        proof {
            reveal_strlit("0");
        }
        let mut r = String::from_str("0");
        r.append(u128_to_dec(n).as_str());
        assert(r@ =~= pad2(n as nat));
        r
    } else {
        u128_to_dec(n)
    }
}

/// Seconds to the human-readable duration string.
pub fn sec_to_string(sec: u128) -> (r: String)
    ensures
        r@ == sec_string(sec as nat),
{
    let h = sec / 3600;
    let m = (sec % 3600) / 60;
    let s = sec % 60;
    let mut out = String::new();
    if sec >= 3600 {
        proof {
            reveal_strlit("h");
        }
        out.append(u128_to_dec(h).as_str());
        out.append("h");
    }
    if h >= 1 || m >= 1 {
        proof {
            reveal_strlit("m");
        }
        if h >= 1 {
            out.append(pad2_string(m).as_str());
        } else {
            out.append(u128_to_dec(m).as_str());
        }
        out.append("m");
    }
    if s >= 1 {
        proof {
            reveal_strlit("s");
        }
        out.append(pad2_string(s).as_str());
        out.append("s");
    }
    assert(out@ =~= sec_string(sec as nat));
    out
}

/// `num / 10^scale` with exactly two decimals, rounding half up.
pub fn two_dp_string(num: u128, scale: u32) -> (r: String)
    requires
        scale <= 24,
        num < pow10(33),
    ensures
        r@ == two_dp(num as nat, scale as nat),
{
    proof {
        crate::scaled::lemma_pow10_38_fits();
        crate::scaled::lemma_pow10_mono(36, 38);
        crate::scaled::lemma_pow10_adds(35, 1);
        crate::scaled::lemma_pow10_adds(2, 33);
        assert(pow10(2) == 100) by {
            reveal_with_fuel(pow10, 3);
        }
        assert(pow10(1) == 10) by {
            reveal_with_fuel(pow10, 2);
        }
        crate::scaled::lemma_pow10_mono(scale as nat, 24);
        crate::scaled::lemma_pow10_mono(24, 35);
        assert(100 * num < 100 * pow10(33)) by (nonlinear_arith)
            requires
                num < pow10(33),
        ;
    }
    let h = crate::scaled::pow10_u128(scale);
    let n2 = (100 * num + h / 2) / h;
    let mut r = u128_to_dec(n2 / 100);
    proof {
        reveal_strlit(".");
    }
    r.append(".");
    r.append(pad2_string(n2 % 100).as_str());
    assert(r@ =~= two_dp(num as nat, scale as nat));
    r
}

/// `s` padded on the right with spaces to at least `w` characters.
#[verifier::loop_isolation(false)]
pub fn pad_right_string(s: &str, w: usize) -> (r: String)
    ensures
        r@ == pad_right(s@, w as nat),
{
    let mut r = String::from_str(s);
    let mut l = s.unicode_len();
    if l >= w {
        return r;
    }
    while l < w
        invariant
            s@.len() <= l <= w,
            r@ =~= s@ + spaces((l - s@.len()) as nat),
        decreases w - l,
    {
        proof {
            reveal_strlit(" ");
        }
        r.append(" ");
        assert(r@ =~= s@ + spaces((l + 1 - s@.len()) as nat));
        l = l + 1;
    }
    assert(r@ =~= pad_right(s@, w as nat));
    r
}

} // verus!
