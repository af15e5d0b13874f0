//! Verified reading of decimal integer tokens, and validation of decimal
//! float tokens.
//!
//! Integer tokens follow the usual decimal grammar: an optional sign
//! followed by one or more digits, with the value in range.  Float tokens
//! follow the float-literal grammar: an optional sign, then either one of
//! the words `inf`, `infinity` or `nan` in any letter case, or digits with
//! an optional point and an optional exponent part.  A float token is kept
//! as text, not converted; only its shape is decided here.

use crate::text::ScanKind;
use crate::text::find_from;
use crate::text::scan_len;
use crate::text::scan_pred;
use vstd::prelude::*;
use vstd::slice::slice_index_get;
use vstd::slice::slice_subrange;

verus! {

pub open spec fn is_digit(b: u8) -> bool {
    48 <= b && b <= 57
}

pub open spec fn all_digits(s: Seq<u8>) -> bool {
    forall|i: int| 0 <= i < s.len() ==> is_digit(s[i])
}

/// The number that the digit bytes of `s` write in decimal.
pub open spec fn digits_val(s: Seq<u8>) -> nat
    decreases s.len(),
{
    if s.len() == 0 {
        0
    } else {
        (digits_val(s.drop_last()) * 10 + (s.last() - 48)) as nat
    }
}

/// Reading more digits never shrinks the value.
pub proof fn lemma_digits_val_prefix(s: Seq<u8>, k: int)
    requires
        0 <= k <= s.len(),
        all_digits(s),
    ensures
        digits_val(s.take(k)) <= digits_val(s),
    decreases s.len() - k,
{
    if k == s.len() {
        assert(s.take(k) =~= s);
    } else {
        assert(s.take(k + 1).drop_last() =~= s.take(k));
        assert(s.take(k + 1).last() == s[k]);
        lemma_digits_val_prefix(s, k + 1);
    }
}

/// `s` with one leading `+` or `-` removed.
pub open spec fn drop_sign(s: Seq<u8>) -> Seq<u8> {
    if s.len() > 0 && (s[0] == 43 || s[0] == 45) {
        s.drop_first()
    } else {
        s
    }
}

/// `s` with one leading `+` removed: what an unsigned token may carry.
pub open spec fn u32_digits(s: Seq<u8>) -> Seq<u8> {
    if s.len() > 0 && s[0] == 43 {
        s.drop_first()
    } else {
        s
    }
}

/// Whether `s` writes a decimal value that fits a 32-bit unsigned integer:
/// an optional `+`, then one or more digits, with the value in range.
pub open spec fn is_u32_token(s: Seq<u8>) -> bool {
    let d = u32_digits(s);
    d.len() > 0 && all_digits(d) && digits_val(d) <= u32::MAX
}

pub open spec fn u32_token_val(s: Seq<u8>) -> nat {
    digits_val(u32_digits(s))
}

/// Reads an unsigned 32-bit decimal token; `None` on any other shape.
pub fn parse_u32(s: &[u8]) -> (r: Option<u32>)
    ensures
        r == (if is_u32_token(s@) {
            Some(u32_token_val(s@) as u32)
        } else {
            None::<u32>
        }),
{
    let start: usize = if s.len() > 0 && *slice_index_get(s, 0) == 43 {
        1
    } else {
        0
    };
    let ghost d = u32_digits(s@);
    proof {
        assert(d =~= s@.skip(start as int));
    }
    if start >= s.len() {
        return None;
    }
    let mut acc: u64 = 0;
    let mut i = start;
    while i < s.len()
        invariant
            start <= i <= s@.len(),
            d == s@.skip(start as int),
            d == u32_digits(s@),
            d.len() == s@.len() - start,
            all_digits(d.take(i - start)),
            acc == digits_val(d.take(i - start)),
            acc <= u32::MAX,
        decreases s@.len() - i,
    {
        let b = *slice_index_get(s, i);
        proof {
            assert(d[i - start] == s@[i as int]);
        }
        if b < 48 || b > 57 {
            return None;
        }
        proof {
            assert(d.take(i - start + 1).drop_last() =~= d.take(i - start));
            assert(d.take(i - start + 1).last() == d[i - start]);
        }
        let v = acc * 10 + ((b - 48) as u64);
        if v > 0xFFFF_FFFFu64 {
            proof {
                if all_digits(d) {
                    lemma_digits_val_prefix(d, i - start + 1);
                }
            }
            return None;
        }
        acc = v;
        i = i + 1;
    }
    proof {
        assert(d.take(d.len() as int) =~= d);
    }
    Some(acc as u32)
}

/// Whether the token starts with a `-`.
pub open spec fn int_negative(s: Seq<u8>) -> bool {
    s.len() > 0 && s[0] == 45
}

/// Whether `s` writes a decimal value that fits a 32-bit signed integer:
/// an optional sign, then one or more digits, with the value in range.
pub open spec fn is_i32_token(s: Seq<u8>) -> bool {
    let d = drop_sign(s);
    d.len() > 0 && all_digits(d) && (if int_negative(s) {
        digits_val(d) <= 0x8000_0000
    } else {
        digits_val(d) <= 0x7FFF_FFFF
    })
}

pub open spec fn i32_token_val(s: Seq<u8>) -> int {
    if int_negative(s) {
        -(digits_val(drop_sign(s)) as int)
    } else {
        digits_val(drop_sign(s)) as int
    }
}

/// Reads a signed 32-bit decimal token; `None` on any other shape.
pub fn parse_i32(s: &[u8]) -> (r: Option<i32>)
    ensures
        r == (if is_i32_token(s@) {
            Some(i32_token_val(s@) as i32)
        } else {
            None::<i32>
        }),
{
    let negative = s.len() > 0 && *slice_index_get(s, 0) == 45;
    let start: usize = if s.len() > 0 && (*slice_index_get(s, 0) == 43 || *slice_index_get(s, 0)
        == 45) {
        1
    } else {
        0
    };
    let ghost d = drop_sign(s@);
    proof {
        assert(d =~= s@.skip(start as int));
    }
    if start >= s.len() {
        return None;
    }
    let mut acc: u64 = 0;
    let mut i = start;
    while i < s.len()
        invariant
            start <= i <= s@.len(),
            d == s@.skip(start as int),
            d == drop_sign(s@),
            negative == int_negative(s@),
            d.len() == s@.len() - start,
            all_digits(d.take(i - start)),
            acc == digits_val(d.take(i - start)),
            acc <= 0x8000_0000,
        decreases s@.len() - i,
    {
        let b = *slice_index_get(s, i);
        proof {
            assert(d[i - start] == s@[i as int]);
        }
        if b < 48 || b > 57 {
            return None;
        }
        proof {
            assert(d.take(i - start + 1).drop_last() =~= d.take(i - start));
            assert(d.take(i - start + 1).last() == d[i - start]);
        }
        let v = acc * 10 + ((b - 48) as u64);
        if v > 0x8000_0000u64 {
            proof {
                if all_digits(d) {
                    lemma_digits_val_prefix(d, i - start + 1);
                }
            }
            return None;
        }
        acc = v;
        i = i + 1;
    }
    proof {
        assert(d.take(d.len() as int) =~= d);
    }
    if negative {
        if acc == 0x8000_0000u64 {
            Some(i32::MIN)
        } else {
            Some(0i32 - (acc as i32))
        }
    } else {
        if acc > 0x7FFF_FFFFu64 {
            None
        } else {
            Some(acc as i32)
        }
    }
}

/// An upper-case letter folded to lower case; other bytes unchanged.
pub open spec fn lower(b: u8) -> u8 {
    if 65 <= b && b <= 90 {
        (b + 32) as u8
    } else {
        b
    }
}

/// The word `inf` in any letter case.
pub open spec fn is_inf_word(t: Seq<u8>) -> bool {
    t.len() == 3 && lower(t[0]) == 105 && lower(t[1]) == 110 && lower(t[2]) == 102
}

/// The word `infinity` in any letter case.
pub open spec fn is_infinity_word(t: Seq<u8>) -> bool {
    t.len() == 8 && lower(t[0]) == 105 && lower(t[1]) == 110 && lower(t[2]) == 102 && lower(t[3])
        == 105 && lower(t[4]) == 110 && lower(t[5]) == 105 && lower(t[6]) == 116 && lower(t[7])
        == 121
}

/// The word `nan` in any letter case.
pub open spec fn is_nan_word(t: Seq<u8>) -> bool {
    t.len() == 3 && lower(t[0]) == 110 && lower(t[1]) == 97 && lower(t[2]) == 110
}

/// Digits with an optional point: `digits`, `digits.digits`, `digits.` or
/// `.digits`.
pub open spec fn is_mantissa(m: Seq<u8>) -> bool {
    let dot = scan_len(m, scan_pred(ScanKind::Dot)) as int;
    if dot >= m.len() {
        m.len() > 0 && all_digits(m)
    } else {
        all_digits(m.take(dot)) && all_digits(m.skip(dot + 1)) && (dot > 0 || dot + 1 < m.len())
    }
}

/// An exponent part: an optional sign, then one or more digits.
pub open spec fn is_exponent(x: Seq<u8>) -> bool {
    let y = drop_sign(x);
    y.len() > 0 && all_digits(y)
}

/// Whether `s` is a decimal float token: an optional sign, then either a
/// special word (`inf`, `infinity`, `nan` in any case) or a mantissa with
/// an optional `e`/`E` exponent part.
pub open spec fn is_float_token(s: Seq<u8>) -> bool {
    let t = drop_sign(s);
    let e = scan_len(t, scan_pred(ScanKind::ExpMark)) as int;
    ||| is_inf_word(t)
    ||| is_infinity_word(t)
    ||| is_nan_word(t)
    ||| (if e >= t.len() {
        is_mantissa(t)
    } else {
        is_mantissa(t.take(e)) && is_exponent(t.skip(e + 1))
    })
}

fn all_digits_slice(s: &[u8], lo: usize, hi: usize) -> (r: bool)
    requires
        lo <= hi <= s@.len(),
    ensures
        r == all_digits(s@.subrange(lo as int, hi as int)),
{
    let ghost t = s@.subrange(lo as int, hi as int);
    let mut i = lo;
    while i < hi
        invariant
            lo <= i <= hi <= s@.len(),
            t == s@.subrange(lo as int, hi as int),
            forall|j: int| 0 <= j < i - lo ==> is_digit(t[j]),
        decreases hi - i,
    {
        let b = *slice_index_get(s, i);
        proof {
            assert(t[i - lo] == s@[i as int]);
        }
        if b < 48 || b > 57 {
            return false;
        }
        i = i + 1;
    }
    true
}

fn low_byte(b: u8) -> (r: u8)
    ensures
        r == lower(b),
{
    if 65 <= b && b <= 90 {
        b + 32
    } else {
        b
    }
}

fn special_word(t: &[u8]) -> (r: bool)
    ensures
        r == (is_inf_word(t@) || is_infinity_word(t@) || is_nan_word(t@)),
{
    if t.len() == 3 {
        let a = low_byte(*slice_index_get(t, 0));
        let b = low_byte(*slice_index_get(t, 1));
        let c = low_byte(*slice_index_get(t, 2));
        (a == 105 && b == 110 && c == 102) || (a == 110 && b == 97 && c == 110)
    } else if t.len() == 8 {
        let mut ok = true;
        ok = ok && low_byte(*slice_index_get(t, 0)) == 105;
        ok = ok && low_byte(*slice_index_get(t, 1)) == 110;
        ok = ok && low_byte(*slice_index_get(t, 2)) == 102;
        ok = ok && low_byte(*slice_index_get(t, 3)) == 105;
        ok = ok && low_byte(*slice_index_get(t, 4)) == 110;
        ok = ok && low_byte(*slice_index_get(t, 5)) == 105;
        ok = ok && low_byte(*slice_index_get(t, 6)) == 116;
        ok = ok && low_byte(*slice_index_get(t, 7)) == 121;
        ok
    } else {
        false
    }
}

fn mantissa_ok(m: &[u8]) -> (r: bool)
    ensures
        r == is_mantissa(m@),
{
    let dot = find_from(ScanKind::Dot, m, 0);
    proof {
        assert(m@.skip(0) =~= m@);
    }
    if dot == m.len() {
        proof {
            assert(m@.subrange(0, m@.len() as int) =~= m@);
        }
        m.len() > 0 && all_digits_slice(m, 0, m.len())
    } else {
        proof {
            assert(m@.subrange(0, dot as int) =~= m@.take(dot as int));
            assert(m@.subrange(dot + 1, m@.len() as int) =~= m@.skip(dot + 1));
        }
        let ip_ok = all_digits_slice(m, 0, dot);
        let fp_ok = all_digits_slice(m, dot + 1, m.len());
        ip_ok && fp_ok && (dot > 0 || dot + 1 < m.len())
    }
}

fn exponent_ok(x: &[u8]) -> (r: bool)
    ensures
        r == is_exponent(x@),
{
    let start: usize = if x.len() > 0 && (*slice_index_get(x, 0) == 43 || *slice_index_get(x, 0)
        == 45) {
        1
    } else {
        0
    };
    proof {
        assert(drop_sign(x@) =~= x@.skip(start as int));
        assert(x@.subrange(start as int, x@.len() as int) =~= x@.skip(start as int));
    }
    start < x.len() && all_digits_slice(x, start, x.len())
}

/// Decides whether `s` is a decimal float token.
pub fn is_float_bytes(s: &[u8]) -> (r: bool)
    ensures
        r == is_float_token(s@),
{
    let start: usize = if s.len() > 0 && (*slice_index_get(s, 0) == 43 || *slice_index_get(s, 0)
        == 45) {
        1
    } else {
        0
    };
    let t = slice_subrange(s, start, s.len());
    proof {
        assert(t@ =~= drop_sign(s@));
    }
    if special_word(t) {
        return true;
    }
    let e = find_from(ScanKind::ExpMark, t, 0);
    proof {
        assert(t@.skip(0) =~= t@);
    }
    if e == t.len() {
        mantissa_ok(t)
    } else {
        proof {
            assert(t@.subrange(0, e as int) =~= t@.take(e as int));
            assert(t@.subrange(e + 1, t@.len() as int) =~= t@.skip(e + 1));
        }
        let m_ok = mantissa_ok(slice_subrange(t, 0, e));
        let x_ok = exponent_ok(slice_subrange(t, e + 1, t.len()));
        m_ok && x_ok
    }
}

} // verus!
