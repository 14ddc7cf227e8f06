//! Numbers as the reports print them.
//!
//! A report states lengths in millimetres with a fixed number of decimals,
//! rounded to the nearest printed digit, halves to even. The board is held
//! in nanometres, so a length is printed straight from the integer rather
//! than through a fraction of a millimetre.
use vstd::prelude::*;

verus! {

/// The character for one decimal digit.
pub open spec fn digit_char(d: int) -> char {
    if d == 0 {
        '0'
    } else if d == 1 {
        '1'
    } else if d == 2 {
        '2'
    } else if d == 3 {
        '3'
    } else if d == 4 {
        '4'
    } else if d == 5 {
        '5'
    } else if d == 6 {
        '6'
    } else if d == 7 {
        '7'
    } else if d == 8 {
        '8'
    } else {
        '9'
    }
}

/// The decimal digits of `n`, most significant first, with no leading zero.
pub open spec fn digits(n: nat) -> Seq<char>
    decreases n,
{
    if n < 10 {
        seq![digit_char(n as int)]
    } else {
        digits(n / 10).push(digit_char((n % 10) as int))
    }
}

/// The last `k` decimal digits of `f`, padded with leading zeros.
pub open spec fn padded(f: nat, k: nat) -> Seq<char>
    decreases k,
{
    if k == 0 {
        Seq::empty()
    } else {
        padded(f / 10, (k - 1) as nat).push(digit_char((f % 10) as int))
    }
}

/// Ten to the power `k`.
pub open spec fn pow10(k: nat) -> nat
    decreases k,
{
    if k == 0 {
        1
    } else {
        10 * pow10((k - 1) as nat)
    }
}

/// `n / unit` rounded to the nearest whole number, an exact half going to
/// the even neighbour.
pub open spec fn round_half_even(n: nat, unit: nat) -> nat {
    let q = n / unit;
    let r = n % unit;
    if 2 * r > unit || (2 * r == unit && q % 2 == 1) {
        q + 1
    } else {
        q
    }
}

/// `n` hundredths (or thousandths, for `places` three) written as a decimal:
/// the whole part, then a point and exactly `places` digits.
pub open spec fn fixed_text(n: nat, places: nat) -> Seq<char> {
    if places == 0 {
        digits(n)
    } else {
        digits(n / pow10(places)) + seq!['.'] + padded(n % pow10(places), places)
    }
}

/// A length of `nm` nanometres in millimetres with `places` decimals, as
/// `{:.N}` prints it, without the unit.
pub open spec fn mm_text(nm: int, places: nat) -> Seq<char> {
    let magnitude = (if nm < 0 {
        -nm
    } else {
        nm
    }) as nat;
    let sign = if nm < 0 {
        seq!['-']
    } else {
        Seq::empty()
    };
    sign + fixed_text(round_half_even(magnitude, pow10((6 - places) as nat)), places)
}

/// The characters as one string.
///
/// Wraps `Iterator::collect` into a `String`, which std documents as
/// appending the characters in order.
#[verifier::external_body]
pub(crate) fn string_of_chars(chars: &Vec<char>) -> (s: String)
    ensures
        s@ == chars@,
{
    chars.iter().collect()
}

/// The character for one decimal digit.
pub fn digit(d: u64) -> (c: char)
    requires
        d < 10,
    ensures
        c == digit_char(d as int),
{
    match d {
        0 => '0',
        1 => '1',
        2 => '2',
        3 => '3',
        4 => '4',
        5 => '5',
        6 => '6',
        7 => '7',
        8 => '8',
        _ => '9',
    }
}

/// The decimal digits of `n`.
pub fn decimal_digits(n: u64) -> (v: Vec<char>)
    ensures
        v@ == digits(n as nat),
{
    let mut out: Vec<char> = Vec::new();
    let mut cur = n;
    while cur >= 10
        invariant
            digits(n as nat) == digits(cur as nat) + out@,
        decreases cur,
    {
        let d = digit(cur % 10);
        let ghost before = out@;
        out.insert(0, d);
        proof {
            assert(digits(cur as nat) == digits((cur / 10) as nat).push(digit_char((cur % 10) as int)));
            assert(digits((cur / 10) as nat) + out@ =~= digits((cur / 10) as nat).push(d) + before);
        }
        cur = cur / 10;
    }
    let d = digit(cur);
    let ghost before = out@;
    out.insert(0, d);
    assert(out@ =~= digits(cur as nat) + before);
    out
}

/// The last `k` decimal digits of `f`, padded with zeros.
pub fn padded_digits(f: u64, k: u32) -> (v: Vec<char>)
    ensures
        v@ == padded(f as nat, k as nat),
{
    let mut out: Vec<char> = Vec::new();
    let mut cur = f;
    let mut left = k;
    while left > 0
        invariant
            padded(f as nat, k as nat) == padded(cur as nat, left as nat) + out@,
        decreases left,
    {
        let d = digit(cur % 10);
        let ghost before = out@;
        out.insert(0, d);
        proof {
            assert(padded(cur as nat, left as nat) == padded((cur / 10) as nat, (left - 1) as nat).push(
                digit_char((cur % 10) as int),
            ));
            assert(padded((cur / 10) as nat, (left - 1) as nat) + out@ =~= padded(
                (cur / 10) as nat,
                (left - 1) as nat,
            ).push(d) + before);
        }
        cur = cur / 10;
        left = left - 1;
    }
    assert(out@ =~= padded(cur as nat, 0) + out@);
    out
}

/// Ten to the power `k`, for the few powers a length is printed with.
pub fn power_of_ten(k: u32) -> (p: u64)
    requires
        k <= 6,
    ensures
        p == pow10(k as nat),
        1 <= p <= 1_000_000,
{
    reveal_with_fuel(pow10, 7);
    match k {
        0 => 1,
        1 => 10,
        2 => 100,
        3 => 1000,
        4 => 10000,
        5 => 100000,
        _ => 1000000,
    }
}

/// A length in millimetres with `places` decimals, as a report prints it.
pub fn mm(nm: i64, places: u32) -> (s: String)
    requires
        places <= 6,
        nm > i64::MIN,
    ensures
        s@ == mm_text(nm as int, places as nat),
{
    let magnitude: u64 = if nm < 0 {
        (-nm) as u64
    } else {
        nm as u64
    };
    let unit = power_of_ten(6 - places);
    let q = magnitude / unit;
    let r = magnitude % unit;
    let rounded: u64 = if r > unit - r || (r == unit - r && q % 2 == 1) {
        q + 1
    } else {
        q
    };
    assert(rounded == round_half_even(magnitude as nat, unit as nat));
    let scale = power_of_ten(places);
    let ghost sign = if nm < 0 {
        seq!['-']
    } else {
        Seq::<char>::empty()
    };
    let mut chars: Vec<char> = Vec::new();
    if nm < 0 {
        chars.push('-');
    }
    assert(chars@ =~= sign);
    let mut whole = decimal_digits(rounded / scale);
    let ghost whole_text = whole@;
    chars.append(&mut whole);
    assert(chars@ =~= sign + whole_text);
    if places > 0 {
        chars.push('.');
        let mut fraction = padded_digits(rounded % scale, places);
        let ghost fraction_text = fraction@;
        chars.append(&mut fraction);
        assert(chars@ =~= sign + (whole_text + seq!['.'] + fraction_text));
    } else {
        assert(scale == 1);
        proof {
            vstd::arithmetic::div_mod::lemma_div_basics(rounded as int);
        }
        assert(rounded / scale == rounded);
    }
    assert(chars@ =~= sign + fixed_text(rounded as nat, places as nat));
    string_of_chars(&chars)
}

/// `num / den` written with `places` decimals, rounded half to even.
pub open spec fn decimal_text(num: nat, den: nat, places: nat) -> Seq<char> {
    fixed_text(round_half_even(num * pow10(places), den), places)
}

/// `num / den` written with `places` decimals, rounded half to even, as a
/// ratio such as `8.0` is printed.
pub fn decimal(num: u64, den: u64, places: u32) -> (s: String)
    requires
        den > 0,
        places <= 6,
        num <= 1_000_000_000_000,
    ensures
        s@ == decimal_text(num as nat, den as nat, places as nat),
{
    let scale = power_of_ten(places);
    assert(num * scale <= 1_000_000_000_000 * 1_000_000) by (nonlinear_arith)
        requires
            num <= 1_000_000_000_000,
            scale <= 1_000_000,
    ;
    let scaled = num * scale;
    let q = scaled / den;
    let r = scaled % den;
    let rounded: u64 = if r > den - r || (r == den - r && q % 2 == 1) {
        q + 1
    } else {
        q
    };
    assert(rounded == round_half_even(scaled as nat, den as nat));
    let mut chars = decimal_digits(rounded / scale);
    let ghost whole_text = chars@;
    if places > 0 {
        chars.push('.');
        let mut fraction = padded_digits(rounded % scale, places);
        let ghost fraction_text = fraction@;
        chars.append(&mut fraction);
        assert(chars@ =~= whole_text + seq!['.'] + fraction_text);
    } else {
        assert(scale == 1);
        proof {
            vstd::arithmetic::div_mod::lemma_div_basics(rounded as int);
        }
        assert(rounded / scale == rounded);
    }
    assert(chars@ =~= fixed_text(rounded as nat, places as nat));
    string_of_chars(&chars)
}


/// The characters of `s` with its trailing zeros taken off.
pub open spec fn without_trailing_zeros(s: Seq<char>) -> Seq<char>
    decreases s.len(),
{
    if s.len() > 0 && s.last() == '0' {
        without_trailing_zeros(s.drop_last())
    } else {
        s
    }
}

/// A length of `nm` nanometres as a count of millimetres prints in its
/// shortest form: the whole part, then a point and the fraction without its
/// trailing zeros, or no point at all for a whole number of millimetres.
pub open spec fn short_mm_text(nm: int) -> Seq<char> {
    let m = (if nm < 0 {
        -nm
    } else {
        nm
    }) as nat;
    let sign = if nm < 0 {
        seq!['-']
    } else {
        Seq::empty()
    };
    let fraction = if m % 1_000_000 == 0 {
        Seq::empty()
    } else {
        seq!['.'] + without_trailing_zeros(padded(m % 1_000_000, 6))
    };
    sign + digits(m / 1_000_000) + fraction
}

/// A length in millimetres in its shortest form, as a design writes one.
pub fn short_mm(nm: i64) -> (s: String)
    ensures
        s@ == short_mm_text(nm as int),
{
    let wide = nm as i128;
    let m: u64 = if wide < 0 {
        (-wide) as u64
    } else {
        wide as u64
    };
    let ghost sign = if nm < 0 {
        seq!['-']
    } else {
        Seq::<char>::empty()
    };
    let mut chars: Vec<char> = Vec::new();
    if nm < 0 {
        chars.push('-');
    }
    let mut whole = decimal_digits(m / 1_000_000);
    let ghost whole_text = whole@;
    chars.append(&mut whole);
    assert(chars@ =~= sign + whole_text);
    if m % 1_000_000 != 0 {
        let mut fraction = padded_digits(m % 1_000_000, 6);
        let ghost full = fraction@;
        while fraction.len() > 0 && fraction[fraction.len() - 1] == '0'
            invariant
                without_trailing_zeros(fraction@) == without_trailing_zeros(full),
            decreases fraction@.len(),
        {
            let ghost before = fraction@;
            fraction.pop();
            proof {
                assert(fraction@ =~= before.drop_last());
            }
        }
        let ghost stripped = fraction@;
        chars.push('.');
        chars.append(&mut fraction);
        assert(chars@ =~= sign + whole_text + (seq!['.'] + stripped));
    }
    string_of_chars(&chars)
}

} // verus!
