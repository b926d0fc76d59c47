//! The counting game: one line per value from one up, with the multiples
//! of three, five and fifteen replaced by their words.

use vstd::prelude::*;
use vstd::string::StringSliceAdditionalSpecFns;
use crate::decimal::{dec_digits, fmt_u64, ParseError};
use crate::tee::NEWLINE;

verus! {

/// What can go wrong before any line is printed.
pub enum Error {
    /// No value was given.
    ArgumentMissing,
    /// The given value is not a number that fits.
    ArgumentInvalid,
    /// Writing the lines failed.
    IO,
}

impl Error {
    /// The rendered reason for each error.
    pub open spec fn spec_reason(self) -> Seq<u8> {
        match self {
            Error::ArgumentMissing => "not enough arguments specified".spec_bytes(),
            Error::ArgumentInvalid => "specified argument is invalid".spec_bytes(),
            Error::IO => "io error".spec_bytes(),
        }
    }

    /// Render the reason for this error.
    pub fn reason(&self) -> (r: Vec<u8>)
        ensures
            r@ == self.spec_reason(),
    {
        let mut v: Vec<u8> = Vec::new();
        match self {
            Error::ArgumentMissing => v.extend_from_slice(
                "not enough arguments specified".as_bytes(),
            ),
            Error::ArgumentInvalid => v.extend_from_slice(
                "specified argument is invalid".as_bytes(),
            ),
            Error::IO => v.extend_from_slice("io error".as_bytes()),
        }
        proof {
            assert(v@ =~= self.spec_reason());
        }
        v
    }

    /// Any failed parse of the count argument is an invalid argument.
    pub fn from_parse(e: ParseError) -> (r: Error)
        ensures
            r is ArgumentInvalid,
    {
        match e {
            ParseError::Empty => Error::ArgumentInvalid,
            ParseError::InvalidDigit => Error::ArgumentInvalid,
            ParseError::Overflow => Error::ArgumentInvalid,
        }
    }
}

/// The line for one value, newline included: the words for multiples of
/// fifteen, three and five, the decimal digits for everything else.
pub open spec fn spec_line(i: u64) -> Seq<u8> {
    if i % 15 == 0 {
        "FizzBuzz!\n".spec_bytes()
    } else if i % 3 == 0 {
        "fizz\n".spec_bytes()
    } else if i % 5 == 0 {
        "buzz\n".spec_bytes()
    } else {
        dec_digits(i as nat) + seq![NEWLINE]
    }
}

/// Render the line for one value.
pub fn fizzbuzz_line(i: u64) -> (r: Vec<u8>)
    ensures
        r@ == spec_line(i),
{
    let mut v: Vec<u8> = Vec::new();
    if i % 15 == 0 {
        v.extend_from_slice("FizzBuzz!\n".as_bytes());
    } else if i % 3 == 0 {
        v.extend_from_slice("fizz\n".as_bytes());
    } else if i % 5 == 0 {
        v.extend_from_slice("buzz\n".as_bytes());
    } else {
        let digits = fmt_u64(i);
        v.extend_from_slice(digits.as_slice());
        v.push(NEWLINE);
    }
    proof {
        assert(v@ =~= spec_line(i));
    }
    v
}

/// Render the lines for every value from one up to and including `max`,
/// in order.
pub fn fizzbuzz_lines(max: u64) -> (r: Vec<Vec<u8>>)
    requires
        max <= usize::MAX,
    ensures
        r@.len() == max,
        forall|j: int| 0 <= j < max ==> (#[trigger] r@[j])@ == spec_line((j + 1) as u64),
{
    let mut r: Vec<Vec<u8>> = Vec::new();
    let mut i: u64 = 0;
    while i < max
        invariant
            i <= max,
            max <= usize::MAX,
            r@.len() == i,
            forall|j: int| 0 <= j < i ==> (#[trigger] r@[j])@ == spec_line((j + 1) as u64),
        decreases max - i,
    {
        i = i + 1;
        let line = fizzbuzz_line(i);
        r.push(line);
    }
    r
}

} // verus!
