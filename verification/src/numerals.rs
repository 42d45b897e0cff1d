//! Decimal numerals over bytes: parsing unsigned integers, parsing
//! fixed-point decimals into thousandths ("milli" units), and rendering
//! integers back to decimal digits. All metric values in this crate are
//! plain integers; a fractional quantity such as `3.2` (percent, or a load
//! average) is held as its value in thousandths (`3200`), which represents
//! every value these text formats produce with at most three fraction
//! digits exactly.

use vstd::prelude::*;

verus! {

/// ASCII decimal digit.
pub open spec fn is_digit(b: u8) -> bool {
    48 <= b <= 57
}

/// Every byte of `t` is an ASCII digit.
pub open spec fn all_digits(t: Seq<u8>) -> bool {
    forall|i: int| 0 <= i < t.len() ==> is_digit(#[trigger] t[i])
}

/// Value of a digit string read as a base-10 numeral (most significant
/// digit first); 0 for the empty string.
pub open spec fn digits_val(t: Seq<u8>) -> nat
    decreases t.len(),
{
    if t.len() == 0 {
        0
    } else {
        digits_val(t.drop_last()) * 10 + (t.last() - 48) as nat
    }
}

/// Reading more digits never decreases the value: the value of a prefix is
/// a lower bound for the value of the whole numeral.
pub proof fn lemma_digits_val_prefix(t: Seq<u8>, k: int)
    requires
        0 <= k <= t.len(),
    ensures
        digits_val(t.take(k)) <= digits_val(t),
    decreases t.len(),
{
    if k < t.len() {
        assert(t.drop_last().take(k) == t.take(k));
        lemma_digits_val_prefix(t.drop_last(), k);
        assert(digits_val(t) == digits_val(t.drop_last()) * 10 + (t.last() - 48) as nat);
        assert(digits_val(t.drop_last()) <= digits_val(t.drop_last()) * 10) by (nonlinear_arith);
    } else {
        assert(t.take(k) == t);
    }
}

/// A string is a plain unsigned numeral when it is nonempty and all digits.
pub open spec fn is_uint_numeral(t: Seq<u8>) -> bool {
    t.len() > 0 && all_digits(t)
}

/// What `parse_u64` returns: the numeral's value when `t` is a numeral
/// whose value fits in a `u64`, `None` otherwise.
pub open spec fn spec_parse_u64(t: Seq<u8>) -> Option<u64> {
    if is_uint_numeral(t) && digits_val(t) <= u64::MAX {
        Some(digits_val(t) as u64)
    } else {
        None
    }
}

/// Parse a byte string as an unsigned decimal numeral. Rejects anything
/// that is empty, holds a non-digit, or overflows a `u64`.
pub fn parse_u64(t: &[u8]) -> (r: Option<u64>)
    ensures
        r == spec_parse_u64(t@),
{
    if t.len() == 0 {
        return None;
    }
    let mut v: u64 = 0;
    let mut i: usize = 0;
    while i < t.len()
        invariant
            0 <= i <= t@.len(),
            all_digits(t@.take(i as int)),
            v == digits_val(t@.take(i as int)),
        decreases t@.len() - i,
    {
        let b = t[i];
        if b < 48 || b > 57 {
            assert(!is_digit(t@[i as int]));
            return None;
        }
        let d: u64 = (b - 48) as u64;
        if v > (u64::MAX - d) / 10 {
            // The prefix already exceeds what a u64 can hold once this
            // digit is appended, and later digits only grow the value.
            proof {
                assert(t@.take(i + 1).drop_last() == t@.take(i as int));
                assert(t@.take(i + 1).last() == t@[i as int]);
                assert(digits_val(t@.take(i + 1)) == v * 10 + d);
                assert(v * 10 + d > u64::MAX) by (nonlinear_arith)
                    requires
                        v > (u64::MAX - d) / 10 && d < 10,
                ;
                lemma_digits_val_prefix(t@, i + 1);
            }
            return None;
        }
        proof {
            assert(v * 10 + d <= u64::MAX) by (nonlinear_arith)
                requires
                    v <= (u64::MAX - d) / 10 && d < 10,
            ;
            assert(t@.take(i + 1).drop_last() == t@.take(i as int));
            assert(t@.take(i + 1).last() == t@[i as int]);
        }
        v = v * 10 + d;
        i = i + 1;
    }
    proof {
        assert(t@.take(i as int) == t@);
    }
    Some(v)
}

/// Index of the first `.` in `t`, or `t.len()` when there is none.
pub open spec fn dot_pos(t: Seq<u8>) -> nat
    decreases t.len(),
{
    if t.len() == 0 {
        0
    } else if t[0] == 46 {
        0
    } else {
        1 + dot_pos(t.drop_first())
    }
}

pub proof fn lemma_dot_pos(t: Seq<u8>)
    ensures
        dot_pos(t) <= t.len(),
        forall|i: int| 0 <= i < dot_pos(t) ==> t[i] != 46,
        dot_pos(t) < t.len() ==> t[dot_pos(t) as int] == 46,
    decreases t.len(),
{
    if t.len() > 0 && t[0] != 46 {
        lemma_dot_pos(t.drop_first());
        assert(forall|i: int| 1 <= i < dot_pos(t) ==> t[i] == t.drop_first()[i - 1]);
    }
}

/// Value in thousandths of the fraction digits `f` (the digits after the
/// point): the first three digits weighted 100/10/1, further digits ignored.
pub open spec fn frac_milli(f: Seq<u8>) -> nat {
    (if f.len() >= 1 {
        ((f[0] - 48) as nat) * 100
    } else {
        0
    }) + (if f.len() >= 2 {
        ((f[1] - 48) as nat) * 10
    } else {
        0
    }) + (if f.len() >= 3 {
        (f[2] - 48) as nat
    } else {
        0
    })
}

/// `t` is a decimal numeral: digits with at most one point somewhere among
/// them, and at least one digit overall (so `5`, `5.`, `.5` and `0.10`
/// qualify; an empty string, a lone `.` or a sign do not).
pub open spec fn is_milli_numeral(t: Seq<u8>) -> bool {
    let d = dot_pos(t) as int;
    &&& t.len() > 0
    &&& !(t.len() == 1 && t[0] == 46)
    &&& all_digits(t.take(d))
    &&& d < t.len() ==> all_digits(t.skip(d + 1))
}

/// Value in thousandths of the decimal numeral `t`: the integer part times
/// 1000 plus the first three fraction digits. Fraction digits beyond the
/// third are ignored.
pub open spec fn milli_val(t: Seq<u8>) -> nat {
    let d = dot_pos(t) as int;
    if d < t.len() {
        digits_val(t.take(d)) * 1000 + frac_milli(t.skip(d + 1))
    } else {
        digits_val(t) * 1000
    }
}

/// What `parse_milli` returns: the value in thousandths when `t` is a
/// decimal numeral whose value fits, `None` otherwise.
pub open spec fn spec_parse_milli(t: Seq<u8>) -> Option<u64> {
    if is_milli_numeral(t) && milli_val(t) <= u64::MAX {
        Some(milli_val(t) as u64)
    } else {
        None
    }
}

/// Find the first `.` in `t`, as `dot_pos` defines it.
fn find_dot(t: &[u8]) -> (r: usize)
    ensures
        r == dot_pos(t@),
    decreases t@.len(),
{
    let mut i: usize = 0;
    while i < t.len()
        invariant
            0 <= i <= t@.len(),
            forall|j: int| 0 <= j < i ==> t@[j] != 46,
            dot_pos(t@) >= i,
        decreases t@.len() - i,
    {
        proof {
            lemma_dot_pos(t@);
        }
        if t[i] == 46 {
            proof {
                lemma_dot_pos(t@);
                if dot_pos(t@) > i {
                    assert(t@[i as int] != 46);
                }
            }
            return i;
        }
        proof {
            lemma_dot_pos(t@);
            if dot_pos(t@) == i {
                assert(t@[i as int] == 46);
            }
        }
        i = i + 1;
    }
    proof {
        lemma_dot_pos(t@);
    }
    i
}

/// Parse a byte string as a non-negative decimal numeral into thousandths:
/// `3.2` becomes `3200`. Rejects the empty string, a lone point, any
/// non-digit, and values that do not fit.
pub fn parse_milli(t: &[u8]) -> (r: Option<u64>)
    ensures
        r == spec_parse_milli(t@),
{
    proof {
        lemma_dot_pos(t@);
    }
    if t.len() == 0 {
        return None;
    }
    if t.len() == 1 && t[0] == 46 {
        return None;
    }
    let d = find_dot(t);
    let int_part = &t[0..d];
    proof {
        assert(int_part@ == t@.take(d as int));
    }
    let iv: u64 = if d == 0 {
        proof {
            assert(t@.take(0).len() == 0);
        }
        0u64
    } else {
        match parse_u64(int_part) {
            Some(v) => v,
            None => {
                proof {
                    if is_milli_numeral(t@) {
                        assert(all_digits(t@.take(d as int)));
                        assert(is_uint_numeral(t@.take(d as int)));
                        let v = digits_val(t@.take(d as int));
                        assert(v > u64::MAX);
                        assert(v * 1000 > u64::MAX) by (nonlinear_arith)
                            requires
                                v > u64::MAX,
                        ;
                        if d >= t@.len() {
                            assert(t@.take(d as int) =~= t@);
                        }
                        assert(milli_val(t@) > u64::MAX);
                    }
                }
                return None;
            },
        }
    };
    assert(all_digits(t@.take(d as int)) && iv == digits_val(t@.take(d as int)));
    let mut fm: u64 = 0;
    if d < t.len() {
        let frac = &t[d + 1..t.len()];
        proof {
            assert(frac@ == t@.skip(d + 1));
        }
        let mut k: usize = 0;
        while k < frac.len()
            invariant
                0 <= k <= frac@.len(),
                d == dot_pos(t@),
                d < t@.len(),
                all_digits(frac@.take(k as int)),
                frac@ == t@.skip(d as int + 1),
                fm == frac_milli(frac@.take(k as int)),
                fm <= 999,
            decreases frac@.len() - k,
        {
            let b = frac[k];
            if b < 48 || b > 57 {
                proof {
                    assert(!is_digit(frac@[k as int]));
                    assert(!all_digits(t@.skip(d as int + 1)));
                    assert(!is_milli_numeral(t@));
                }
                return None;
            }
            proof {
                assert(frac@.take(k + 1)[k as int] == frac@[k as int]);
                assert(forall|j: int| 0 <= j < k ==> frac@.take(k + 1)[j] == frac@.take(
                    k as int,
                )[j]);
            }
            if k == 0 {
                fm = ((b - 48) as u64) * 100;
            } else if k == 1 {
                fm = fm + ((b - 48) as u64) * 10;
            } else if k == 2 {
                fm = fm + ((b - 48) as u64);
            }
            k = k + 1;
        }
        proof {
            assert(frac@.take(k as int) == frac@);
            assert(all_digits(t@.skip(d as int + 1)));
            assert(fm == frac_milli(t@.skip(d as int + 1)));
        }
    }
    // Combine exactly, watching for overflow of iv * 1000 + fm.
    let total: u128 = (iv as u128) * 1000 + (fm as u128);
    proof {
        if d < t@.len() {
            assert(milli_val(t@) == digits_val(t@.take(d as int)) * 1000 + frac_milli(
                t@.skip(d + 1),
            ));
        } else {
            assert(t@.take(d as int) =~= t@);
            assert(milli_val(t@) == digits_val(t@) * 1000);
        }
        assert(milli_val(t@) == total as nat);
        assert(is_milli_numeral(t@));
    }
    if total > u64::MAX as u128 {
        return None;
    }
    Some(total as u64)
}

/// Decimal digits of `n`, most significant first, no leading zeros (except
/// for `n == 0`, which is the single digit `0`).
pub open spec fn dec_digits(n: nat) -> Seq<u8>
    decreases n,
{
    if n < 10 {
        seq![(48 + n) as u8]
    } else {
        dec_digits(n / 10).push((48 + n % 10) as u8)
    }
}

/// Render `n` in decimal, as `dec_digits` describes.
pub fn u64_to_dec(n: u64) -> (v: Vec<u8>)
    ensures
        v@ == dec_digits(n as nat),
    decreases n,
{
    if n < 10 {
        let mut v: Vec<u8> = Vec::new();
        v.push(48 + n as u8);
        proof {
            assert(v@ == dec_digits(n as nat));
        }
        v
    } else {
        let mut v = u64_to_dec(n / 10);
        v.push(48 + (n % 10) as u8);
        v
    }
}

/// Thousandths rendered to one decimal place, rounded to the nearest tenth:
/// `4300` becomes the digits of `4.3`.
pub open spec fn milli_one_decimal(m: nat) -> Seq<u8> {
    let tenths = (m + 50) / 100;
    dec_digits(tenths / 10) + seq![46u8] + seq![(48 + tenths % 10) as u8]
}

/// Render a value in thousandths to one decimal place (`4300` -> `4.3`).
pub fn format_milli_one_decimal(m: u64) -> (v: Vec<u8>)
    ensures
        v@ == milli_one_decimal(m as nat),
{
    let tenths_wide: u128 = ((m as u128) + 50) / 100;
    proof {
        assert(((m as nat) + 50) / 100 <= u64::MAX) by (nonlinear_arith)
            requires
                m <= u64::MAX,
        ;
    }
    let tenths: u64 = tenths_wide as u64;
    let mut v = u64_to_dec(tenths / 10);
    v.push(46);
    v.push(48 + (tenths % 10) as u8);
    v
}

} // verus!
