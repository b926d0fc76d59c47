//! Decimal rendering and parsing of the integers that appear in output
//! lines: exit codes, signal numbers, and the counting utilities' values.

use vstd::prelude::*;

verus! {

/// The ASCII digit for a value below ten.
pub open spec fn digit(d: int) -> u8
    recommends
        0 <= d < 10,
{
    (0x30 + d) as u8
}

/// The decimal digits of `n`, most significant first.
pub open spec fn dec_digits(n: nat) -> Seq<u8>
    decreases n,
{
    if n < 10 {
        seq![digit(n as int)]
    } else {
        dec_digits(n / 10) + seq![digit((n % 10) as int)]
    }
}

/// The decimal rendering of a signed value: a minus sign for a negative
/// value, then the digits of its magnitude.
pub open spec fn dec_signed(i: int) -> Seq<u8> {
    if i >= 0 {
        dec_digits(i as nat)
    } else {
        seq![('-' as u8)] + dec_digits((-i) as nat)
    }
}

/// Render an unsigned value in decimal.
pub fn fmt_u64(n: u64) -> (r: Vec<u8>)
    ensures
        r@ == dec_digits(n as nat),
    decreases n,
{
    if n < 10 {
        let mut v: Vec<u8> = Vec::new();
        v.push(0x30u8 + (n as u8));
        v
    } else {
        let mut v = fmt_u64(n / 10);
        v.push(0x30u8 + ((n % 10) as u8));
        v
    }
}

/// Whether every byte is a decimal digit.
pub open spec fn all_digits(s: Seq<u8>) -> bool {
    forall|i: int| 0 <= i < s.len() ==> 0x30 <= #[trigger] s[i] <= 0x39
}

/// The numeric value of decimal digit bytes, most significant first.
pub open spec fn dec_value(s: Seq<u8>) -> int
    decreases s.len(),
{
    if s.len() == 0 {
        0
    } else {
        dec_value(s.drop_last()) * 10 + (s.last() - 0x30)
    }
}

/// A digit string names a nonnegative value.
proof fn lemma_dec_value_nonneg(s: Seq<u8>)
    requires
        all_digits(s),
    ensures
        dec_value(s) >= 0,
    decreases s.len(),
{
    if s.len() > 0 {
        lemma_dec_value_nonneg(s.drop_last());
    }
}

/// A digit string's value only grows as digits are appended: the value of
/// the whole is at least the value of any prefix.
proof fn lemma_dec_value_prefix(s: Seq<u8>, k: int)
    requires
        all_digits(s),
        0 <= k <= s.len(),
    ensures
        dec_value(s) >= dec_value(s.take(k)) >= 0,
    decreases s.len() - k,
{
    assert(forall|i: int| 0 <= i < k ==> 0x30 <= #[trigger] s.take(k)[i] <= 0x39);
    lemma_dec_value_nonneg(s.take(k));
    if k < s.len() {
        lemma_dec_value_prefix(s, k + 1);
        assert(s.take(k + 1).drop_last() =~= s.take(k));
        assert(s.take(k + 1).last() == s[k]);
    } else {
        assert(s.take(k) =~= s);
    }
}

/// Why parsing a decimal string can fail.
#[derive(Debug)]
pub enum ParseError {
    /// There were no bytes at all.
    Empty,
    /// Some byte is not a decimal digit.
    InvalidDigit,
    /// The digits name a value that does not fit in sixty-four bits.
    Overflow,
}

/// Parse decimal digit bytes into their value: empty input and non-digit
/// bytes are rejected, as is a value over the sixty-four-bit limit; every
/// other input parses to its value.
pub fn parse_u64(s: &[u8]) -> (r: Result<u64, ParseError>)
    ensures
        s@.len() == 0 ==> (r matches Err(e) && e is Empty),
        s@.len() > 0 && !all_digits(s@) ==> (r matches Err(e) && e is InvalidDigit),
        s@.len() > 0 && all_digits(s@) && dec_value(s@) > u64::MAX ==> (r matches Err(e)
            && e is Overflow),
        s@.len() > 0 && all_digits(s@) && dec_value(s@) <= u64::MAX ==> (r matches Ok(n) && n
            == dec_value(s@)),
{
    if s.len() == 0 {
        return Err(ParseError::Empty);
    }
    let mut i: usize = 0;
    while i < s.len()
        invariant
            i <= s@.len(),
            forall|k: int| 0 <= k < i ==> 0x30 <= #[trigger] s@[k] <= 0x39,
        decreases s@.len() - i,
    {
        let b = s[i];
        if b < 0x30 || b > 0x39 {
            return Err(ParseError::InvalidDigit);
        }
        i = i + 1;
    }
    let mut acc: u64 = 0;
    let mut j: usize = 0;
    proof {
        assert(s@.take(0) =~= Seq::<u8>::empty());
    }
    while j < s.len()
        invariant
            j <= s@.len(),
            all_digits(s@),
            acc == dec_value(s@.take(j as int)),
        decreases s@.len() - j,
    {
        let d = s[j] - 0x30;
        if acc > (u64::MAX - (d as u64)) / 10 {
            proof {
                assert(dec_value(s@.take(j as int)) * 10 + d > u64::MAX);
                assert(dec_value(s@.take(j + 1)) > u64::MAX) by {
                    assert(s@.take(j + 1).drop_last() =~= s@.take(j as int));
                    assert(s@.take(j + 1).last() == s@[j as int]);
                }
                lemma_dec_value_prefix(s@, j + 1);
                assert(s@.take(s@.len() as int) =~= s@);
                assert(dec_value(s@) >= dec_value(s@.take(j + 1)));
            }
            return Err(ParseError::Overflow);
        }
        acc = acc * 10 + (d as u64);
        j = j + 1;
        proof {
            assert(s@.take(j as int).drop_last() =~= s@.take(j - 1));
            assert(s@.take(j as int).last() == s@[j - 1]);
        }
    }
    proof {
        assert(s@.take(j as int) =~= s@);
    }
    Ok(acc)
}

/// Law: rendering a value in decimal and parsing the digits back returns
/// the value: the digits are digits, there is at least one, and their
/// value is the value rendered.
pub proof fn lemma_dec_round_trip(n: nat)
    ensures
        all_digits(dec_digits(n)),
        dec_digits(n).len() >= 1,
        dec_value(dec_digits(n)) == n,
    decreases n,
{
    if n < 10 {
        assert(dec_digits(n) =~= seq![digit(n as int)]);
        assert(seq![digit(n as int)].drop_last() =~= Seq::<u8>::empty());
        assert(dec_value(Seq::<u8>::empty()) == 0);
        assert(dec_value(dec_digits(n)) == n);
    } else {
        lemma_dec_round_trip(n / 10);
        assert(dec_digits(n).drop_last() =~= dec_digits(n / 10));
        assert(dec_digits(n).last() == digit((n % 10) as int));
        assert(dec_value(dec_digits(n)) == dec_value(dec_digits(n / 10)) * 10 + (n % 10));
    }
}

/// Render a signed value in decimal, with a leading minus sign when it is
/// negative.
pub fn fmt_i32(i: i32) -> (r: Vec<u8>)
    ensures
        r@ == dec_signed(i as int),
{
    if i >= 0 {
        fmt_u64(i as u64)
    } else {
        let magnitude: u64 = (-(i as i64)) as u64;
        let mut v: Vec<u8> = Vec::new();
        v.push('-' as u8);
        let digits = fmt_u64(magnitude);
        v.extend_from_slice(digits.as_slice());
        proof {
            assert(v@ =~= seq![('-' as u8)] + dec_digits(magnitude as nat));
        }
        v
    }
}

} // verus!
