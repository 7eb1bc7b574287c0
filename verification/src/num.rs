//! Decimal numerals on byte strings.
//!
//! All commands and textual responses of the protocol carry numbers as ASCII
//! decimal digit runs.  This module defines the mathematical value of such a
//! run, the canonical representation of a number, and verified conversion
//! functions in both directions.

use vstd::prelude::*;

verus! {

/// ASCII decimal digit.
pub open spec fn is_dec_digit(b: u8) -> bool {
    48 <= b <= 57
}

/// Every byte of `s` is an ASCII decimal digit.
pub open spec fn all_digits(s: Seq<u8>) -> bool {
    forall|i: int| 0 <= i < s.len() ==> is_dec_digit(#[trigger] s[i])
}

/// Numeric value of a digit run (most significant digit first).
/// Meaningful when `all_digits(s)`; the empty run has value 0.
pub open spec fn dec_value(s: Seq<u8>) -> int
    decreases s.len(),
{
    if s.len() == 0 {
        0
    } else {
        dec_value(s.drop_last()) * 10 + (s.last() - 48)
    }
}

/// Canonical decimal representation of a non-negative number: no leading
/// zeroes, except that zero itself is written "0".
pub open spec fn dec_repr(n: int) -> Seq<u8>
    recommends
        n >= 0,
    decreases n,
{
    if n < 10 {
        seq![(48 + if n >= 0 { n } else { 0 }) as u8]
    } else {
        dec_repr(n / 10).push((48 + n % 10) as u8)
    }
}

/// A digit run never loses value when more digits are appended on the right.
pub proof fn lemma_dec_value_extend(s: Seq<u8>, i: int, j: int)
    requires
        0 <= i <= j <= s.len(),
        all_digits(s),
    ensures
        dec_value(s.take(i)) <= dec_value(s.take(j)),
    decreases j - i,
{
    if i < j {
        lemma_dec_value_extend(s, i, j - 1);
        assert(s.take(j).drop_last() =~= s.take(j - 1));
        assert(dec_value(s.take(j)) == dec_value(s.take(j - 1)) * 10 + (s.take(j).last() - 48));
        assert(dec_value(s.take(j - 1)) >= 0) by {
            lemma_dec_value_nonneg(s.take(j - 1));
        }
    }
}

/// The value of a digit run is non-negative.
pub proof fn lemma_dec_value_nonneg(s: Seq<u8>)
    requires
        all_digits(s),
    ensures
        dec_value(s) >= 0,
    decreases s.len(),
{
    if s.len() > 0 {
        assert(all_digits(s.drop_last()));
        lemma_dec_value_nonneg(s.drop_last());
    }
}

/// The canonical representation is made of digits, is never empty, and its
/// value is the number it represents.
pub proof fn lemma_dec_repr_value(n: int)
    requires
        n >= 0,
    ensures
        all_digits(dec_repr(n)),
        dec_repr(n).len() >= 1,
        dec_value(dec_repr(n)) == n,
    decreases n,
{
    if n < 10 {
        assert(dec_repr(n) =~= seq![(48 + n) as u8]);
        assert(dec_repr(n).drop_last() =~= Seq::<u8>::empty());
        assert(dec_value(Seq::<u8>::empty()) == 0);
        assert((48 + n) as u8 == 48 + n);
        assert(dec_value(dec_repr(n)) == dec_value(dec_repr(n).drop_last()) * 10 + (dec_repr(
            n,
        ).last() - 48));
    } else {
        lemma_dec_repr_value(n / 10);
        let r = dec_repr(n / 10).push((48 + n % 10) as u8);
        assert(dec_repr(n) == r);
        assert(r.drop_last() =~= dec_repr(n / 10));
        assert(r.last() == (48 + n % 10) as u8);
        assert((48 + n % 10) as u8 == 48 + n % 10);
        assert(dec_value(r) == dec_value(dec_repr(n / 10)) * 10 + ((48 + n % 10) as u8 - 48));
        assert((n / 10) * 10 + n % 10 == n);
        assert(forall|i: int|
            0 <= i < r.len() ==> is_dec_digit(#[trigger] r[i]) || i == r.len() - 1);
    }
}

/// Parse a digit run as a number no greater than `max`.
///
/// Returns the value exactly when the input is a non-empty run of decimal
/// digits whose value fits; returns `None` otherwise.
pub fn parse_dec(s: &[u8], max: u64) -> (r: Option<u64>)
    ensures
        r is Some <==> (s@.len() > 0 && all_digits(s@) && dec_value(s@) <= max),
        r is Some ==> r->0 as int == dec_value(s@) && r->0 <= max,
{
    if s.len() == 0 {
        return None;
    }
    let mut acc: u64 = 0;
    let mut i: usize = 0;
    proof {
        assert(s@.take(0) =~= Seq::<u8>::empty());
    }
    while i < s.len()
        invariant
            0 <= i <= s@.len(),
            all_digits(s@.take(i as int)),
            acc as int == dec_value(s@.take(i as int)),
            acc <= max,
        decreases s@.len() - i,
    {
        let b = s[i];
        if b < 48 || b > 57 {
            proof {
                assert(s@[i as int] == b);
            }
            return None;
        }
        let d: u64 = (b - 48) as u64;
        if acc > max / 10 || (acc == max / 10 && d > max % 10) {
            proof {
                assert(s@.take(i + 1).drop_last() =~= s@.take(i as int));
                assert(s@.take(i + 1).last() == b);
                assert(dec_value(s@.take(i + 1)) == acc * 10 + d);
                assert(acc * 10 + d > max) by {
                    if acc > max / 10 {
                        assert(acc >= max / 10 + 1);
                        assert((max / 10 + 1) * 10 == (max / 10) * 10 + 10);
                        assert(acc * 10 >= (max / 10 + 1) * 10) by (nonlinear_arith)
                            requires
                                acc >= max / 10 + 1,
                        ;
                        assert((max / 10) * 10 + max % 10 == max);
                    } else {
                        assert((max / 10) * 10 + max % 10 == max);
                    }
                }
                if all_digits(s@) {
                    lemma_dec_value_extend(s@, i + 1, s@.len() as int);
                    assert(s@.take(s@.len() as int) =~= s@);
                }
            }
            return None;
        }
        proof {
            assert(s@.take(i + 1).drop_last() =~= s@.take(i as int));
            assert(s@.take(i + 1).last() == b);
            assert(acc * 10 + d <= max) by {
                assert(acc <= max / 10);
                if acc == max / 10 {
                    assert(d <= max % 10);
                    assert((max / 10) * 10 + max % 10 == max);
                } else {
                    assert(acc + 1 <= max / 10);
                    assert(acc * 10 + 10 <= (max / 10) * 10) by (nonlinear_arith)
                        requires
                            acc + 1 <= max / 10,
                    ;
                    assert((max / 10) * 10 + max % 10 == max);
                }
            }
            assert(forall|j: int|
                0 <= j < i + 1 ==> is_dec_digit(#[trigger] s@.take(i + 1)[j]));
        }
        acc = acc * 10 + d;
        i = i + 1;
    }
    proof {
        assert(s@.take(i as int) =~= s@);
    }
    Some(acc)
}

/// Parse a 16-bit decimal field, as transfer tags are parsed.
pub fn parse_u16(s: &[u8]) -> (r: Option<u16>)
    ensures
        r is Some <==> (s@.len() > 0 && all_digits(s@) && dec_value(s@) <= u16::MAX),
        r is Some ==> r->0 as int == dec_value(s@),
{
    match parse_dec(s, 65535) {
        Some(v) => Some(v as u16),
        None => None,
    }
}

/// Parse a 32-bit decimal field, as the `existing` byte count is parsed.
pub fn parse_u32(s: &[u8]) -> (r: Option<u32>)
    ensures
        r is Some <==> (s@.len() > 0 && all_digits(s@) && dec_value(s@) <= u32::MAX),
        r is Some ==> r->0 as int == dec_value(s@),
{
    match parse_dec(s, 0xFFFF_FFFF) {
        Some(v) => Some(v as u32),
        None => None,
    }
}

/// Parse a size field (symbol count or byte count) into a `usize`.
pub fn parse_usize(s: &[u8]) -> (r: Option<usize>)
    ensures
        r is Some <==> (s@.len() > 0 && all_digits(s@) && dec_value(s@) <= usize::MAX),
        r is Some ==> r->0 as int == dec_value(s@),
{
    match parse_dec(s, usize::MAX as u64) {
        Some(v) => Some(v as usize),
        None => None,
    }
}

/// Format a number in canonical decimal.
pub fn format_u64(n: u64) -> (r: Vec<u8>)
    ensures
        r@ == dec_repr(n as int),
{
    let mut buf: Vec<u8> = Vec::new();
    if n == 0 {
        buf.push(48);
        assert(buf@ =~= dec_repr(0));
        return buf;
    }
    let mut m: u64 = n;
    while m > 0
        invariant
            m >= 0,
            m > 0 ==> dec_repr(n as int) =~= dec_repr(m as int) + buf@,
            m == 0 ==> dec_repr(n as int) =~= buf@,
        decreases m,
    {
        let d: u8 = (m % 10) as u8 + 48;
        let ghost old_buf = buf@;
        let ghost old_m = m as int;
        buf.insert(0, d);
        m = m / 10;
        proof {
            assert(buf@ =~= seq![d] + old_buf);
            if old_m >= 10 {
                assert(dec_repr(old_m) == dec_repr(old_m / 10).push((48 + old_m % 10) as u8));
                assert(dec_repr(old_m / 10).push(d) + old_buf =~= dec_repr(old_m / 10) + (seq![d]
                    + old_buf));
            } else {
                assert(dec_repr(old_m) =~= seq![d]);
            }
        }
    }
    buf
}

} // verus!
