//! Decimal digits and character scanning: the spec-level meaning of a run of
//! digit characters, and the executable helpers that parse and search
//! character sequences.

use vstd::prelude::*;

verus! {

/// A decimal digit character.
pub open spec fn is_digit(c: char) -> bool {
    c == '0' || c == '1' || c == '2' || c == '3' || c == '4' || c == '5' || c == '6' || c == '7'
        || c == '8' || c == '9'
}

/// Numeric value of a digit character (unspecified junk value for non-digits).
pub open spec fn digit_val(c: char) -> nat {
    if c == '0' {
        0
    } else if c == '1' {
        1
    } else if c == '2' {
        2
    } else if c == '3' {
        3
    } else if c == '4' {
        4
    } else if c == '5' {
        5
    } else if c == '6' {
        6
    } else if c == '7' {
        7
    } else if c == '8' {
        8
    } else {
        9
    }
}

/// Every character of `s` is a decimal digit.
pub open spec fn all_digits(s: Seq<char>) -> bool {
    forall|i: int| 0 <= i < s.len() ==> is_digit(#[trigger] s[i])
}

/// The base-ten value of a digit run, most significant digit first.
/// The empty run has value zero.
pub open spec fn digits_val(s: Seq<char>) -> nat
    decreases s.len(),
{
    if s.len() == 0 {
        0
    } else {
        10 * digits_val(s.drop_last()) + digit_val(s.last())
    }
}

/// A well-formed unsigned integer token: non-empty and all digits.
pub open spec fn is_number(s: Seq<char>) -> bool {
    s.len() > 0 && all_digits(s)
}

/// How often `c` occurs in `s`.
pub open spec fn count_char(s: Seq<char>, c: char) -> nat
    decreases s.len(),
{
    if s.len() == 0 {
        0
    } else {
        count_char(s.drop_last(), c) + if s.last() == c {
            1nat
        } else {
            0nat
        }
    }
}

/// Extending a prefix by one character extends its digit value by one digit
/// and its character count by at most one.
pub proof fn lemma_take_step(s: Seq<char>, i: int)
    requires
        0 <= i < s.len(),
    ensures
        digits_val(s.take(i + 1)) == 10 * digits_val(s.take(i)) + digit_val(s[i]),
        count_char(s.take(i + 1), s[i]) == count_char(s.take(i), s[i]) + 1,
        forall|c: char| c != s[i] ==> count_char(s.take(i + 1), c) == count_char(s.take(i), c),
{
    assert(s.take(i + 1).drop_last() =~= s.take(i));
    assert(s.take(i + 1).last() == s[i]);
}

/// A prefix of a digit run is worth no more than the whole run.
pub proof fn lemma_digits_val_take_mono(s: Seq<char>, k: int)
    requires
        0 <= k <= s.len(),
    ensures
        digits_val(s.take(k)) <= digits_val(s),
    decreases s.len() - k,
{
    if k == s.len() {
        assert(s.take(k) =~= s);
    } else {
        lemma_take_step(s, k);
        lemma_digits_val_take_mono(s, k + 1);
    }
}

/// `c` is absent from `s` exactly when its count is zero.
pub proof fn lemma_count_none(s: Seq<char>, c: char)
    ensures
        (count_char(s, c) == 0) <==> (forall|j: int| 0 <= j < s.len() ==> s[j] != c),
    decreases s.len(),
{
    if s.len() == 0 {
    } else {
        lemma_count_none(s.drop_last(), c);
        assert(forall|j: int| 0 <= j < s.len() - 1 ==> s.drop_last()[j] == s[j]);
        assert(s.last() == s[s.len() - 1]);
    }
}

/// A run of `n` digits is worth less than `10^n`.
pub proof fn lemma_digits_val_bound(s: Seq<char>)
    ensures
        digits_val(s) < crate::scaled::pow10(s.len()),
    decreases s.len(),
{
    if s.len() == 0 {
    } else {
        lemma_digits_val_bound(s.drop_last());
    }
}

/// If `s[i]` is the first occurrence of `c`, then `index_of_first` finds it.
pub proof fn lemma_first_index_is(s: Seq<char>, c: char, i: int)
    requires
        0 <= i < s.len(),
        s[i] == c,
        forall|j: int| 0 <= j < i ==> s[j] != c,
    ensures
        s.index_of_first(c) == Some(i),
{
    assert(s.contains(c)) by {
        assert(s[i] == c);
    }
    s.index_of_first_ensures(c);
    let k = s.index_of_first(c).unwrap();
    if k < i {
        assert(s[k] != c);
    }
    if k > i {
        assert(s[i] != c);
    }
}

/// If `c` does not occur in `s`, then `index_of_first` reports that.
pub proof fn lemma_first_index_none(s: Seq<char>, c: char)
    requires
        forall|j: int| 0 <= j < s.len() ==> s[j] != c,
    ensures
        s.index_of_first(c) == None::<int>,
        !s.contains(c),
{
    s.index_of_first_ensures(c);
    if s.contains(c) {
        let w = choose|j: int| 0 <= j < s.len() && s[j] == c;
        assert(s[w] != c);
    }
}

/// Decide whether a character is a decimal digit.
pub fn char_is_digit(c: char) -> (r: bool)
    ensures
        r == is_digit(c),
{
    c == '0' || c == '1' || c == '2' || c == '3' || c == '4' || c == '5' || c == '6' || c == '7'
        || c == '8' || c == '9'
}

/// Numeric value of a digit character.
pub fn digit_of(c: char) -> (r: u64)
    requires
        is_digit(c),
    ensures
        r == digit_val(c),
{
    if c == '0' {
        0
    } else if c == '1' {
        1
    } else if c == '2' {
        2
    } else if c == '3' {
        3
    } else if c == '4' {
        4
    } else if c == '5' {
        5
    } else if c == '6' {
        6
    } else if c == '7' {
        7
    } else if c == '8' {
        8
    } else {
        9
    }
}

/// The characters of `s` as a vector, in order.
#[verifier::loop_isolation(false)]
pub fn str_chars(s: &str) -> (r: Vec<char>)
    ensures
        r@ == s@,
{
    let n = s.unicode_len();
    let mut r: Vec<char> = Vec::new();
    let mut i: usize = 0;
    while i < n
        invariant
            0 <= i <= n,
            r@ =~= s@.take(i as int),
        decreases n - i,
    {
        r.push(s.get_char(i));
        i = i + 1;
    }
    assert(s@.take(n as int) =~= s@);
    r
}

/// First occurrence of `c` in `v` at or after `from`.
#[verifier::loop_isolation(false)]
pub fn find_first(v: &Vec<char>, c: char, from: usize) -> (r: Option<usize>)
    requires
        from <= v@.len(),
    ensures
        match r {
            Some(i) => from <= i < v@.len() && v@[i as int] == c && forall|j: int|
                from <= j < i ==> v@[j] != c,
            None => forall|j: int| from <= j < v@.len() ==> v@[j] != c,
        },
{
    let mut i: usize = from;
    while i < v.len()
        invariant
            from <= i <= v@.len(),
            forall|j: int| from <= j < i ==> v@[j] != c,
        decreases v@.len() - i,
    {
        if v[i] == c {
            return Some(i);
        }
        i = i + 1;
    }
    None
}

/// How often `c` occurs in `v[from..to]`.
#[verifier::loop_isolation(false)]
pub fn count_in(v: &Vec<char>, c: char, from: usize, to: usize) -> (r: usize)
    requires
        from <= to <= v@.len(),
    ensures
        r == count_char(v@.subrange(from as int, to as int), c),
{
    let ghost sub = v@.subrange(from as int, to as int);
    let mut i: usize = from;
    let mut r: usize = 0;
    while i < to
        invariant
            from <= i <= to,
            r <= i - from,
            r == count_char(sub.take(i - from), c),
        decreases to - i,
    {
        proof {
            lemma_take_step(sub, i - from);
            assert(sub[i - from] == v@[i as int]);
        }
        if v[i] == c {
            r = r + 1;
        }
        i = i + 1;
    }
    assert(sub.take(to - from) =~= sub);
    r
}

/// Are all characters of `v[from..to]` digits?
#[verifier::loop_isolation(false)]
pub fn range_all_digits(v: &Vec<char>, from: usize, to: usize) -> (r: bool)
    requires
        from <= to <= v@.len(),
    ensures
        r == all_digits(v@.subrange(from as int, to as int)),
{
    let ghost sub = v@.subrange(from as int, to as int);
    let mut i: usize = from;
    while i < to
        invariant
            from <= i <= to,
            forall|j: int| 0 <= j < i - from ==> is_digit(#[trigger] sub[j]),
        decreases to - i,
    {
        proof {
            assert(sub[i - from] == v@[i as int]);
        }
        if !char_is_digit(v[i]) {
            assert(!all_digits(sub));
            return false;
        }
        i = i + 1;
    }
    true
}

/// Character-by-character string equality.
#[verifier::loop_isolation(false)]
pub fn str_eq_str(a: &str, b: &str) -> (r: bool)
    ensures
        r == (a@ == b@),
{
    let an = a.unicode_len();
    let bn = b.unicode_len();
    if an != bn {
        return false;
    }
    let mut i: usize = 0;
    while i < an
        invariant
            0 <= i <= an,
            an == a@.len() == b@.len(),
            forall|j: int| 0 <= j < i ==> a@[j] == b@[j],
        decreases an - i,
    {
        if a.get_char(i) != b.get_char(i) {
            return false;
        }
        i = i + 1;
    }
    assert(a@ =~= b@);
    true
}

/// Value of the digit run `v[from..to]`, unless it exceeds `u32::MAX`.
#[verifier::loop_isolation(false)]
pub fn digits_value_capped(v: &Vec<char>, from: usize, to: usize) -> (r: Option<u64>)
    requires
        from <= to <= v@.len(),
        all_digits(v@.subrange(from as int, to as int)),
    ensures
        match r {
            Some(n) => n == digits_val(v@.subrange(from as int, to as int)) && n <= u32::MAX,
            None => digits_val(v@.subrange(from as int, to as int)) > u32::MAX,
        },
{
    let ghost sub = v@.subrange(from as int, to as int);
    let mut i: usize = from;
    let mut acc: u64 = 0;
    while i < to
        invariant
            from <= i <= to,
            acc <= u32::MAX,
            acc == digits_val(sub.take(i - from)),
        decreases to - i,
    {
        proof {
            lemma_take_step(sub, i - from);
            assert(sub[i - from] == v@[i as int]);
        }
        let d = digit_of(v[i]);
        acc = acc * 10 + d;
        if acc > u32::MAX as u64 {
            proof {
                lemma_digits_val_take_mono(sub, i + 1 - from);
            }
            return None;
        }
        i = i + 1;
    }
    assert(sub.take(to - from) =~= sub);
    Some(acc)
}

/// Exact value of a digit run of at most twelve digits.
#[verifier::loop_isolation(false)]
pub fn digits_value12(v: &Vec<char>, from: usize, to: usize) -> (r: u64)
    requires
        from <= to <= v@.len(),
        to - from <= 12,
        all_digits(v@.subrange(from as int, to as int)),
    ensures
        r == digits_val(v@.subrange(from as int, to as int)),
        r < 1_000_000_000_000,
{
    let ghost sub = v@.subrange(from as int, to as int);
    proof {
        lemma_digits_val_bound(sub);
        crate::scaled::lemma_pow10_mono(sub.len(), 12);
        crate::scaled::lemma_pow10_12();
    }
    let mut i: usize = from;
    let mut acc: u64 = 0;
    while i < to
        invariant
            from <= i <= to,
            acc == digits_val(sub.take(i - from)),
            acc < 1_000_000_000_000,
        decreases to - i,
    {
        proof {
            lemma_take_step(sub, i - from);
            assert(sub[i - from] == v@[i as int]);
            lemma_digits_val_take_mono(sub, i + 1 - from);
        }
        let d = digit_of(v[i]);
        acc = acc * 10 + d;
        i = i + 1;
    }
    assert(sub.take(to - from) =~= sub);
    acc
}

} // verus!
