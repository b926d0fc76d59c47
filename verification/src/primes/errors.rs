//! The error type of the prime utilities, with its rendered reasons.

use vstd::prelude::*;
use vstd::string::StringSliceAdditionalSpecFns;
use crate::decimal::dec_digits;
use crate::decimal::fmt_u64;

verus! {

/// What can go wrong before any prime is printed.
#[derive(Debug)]
pub enum Error {
    /// The algorithm name was neither of the two known ones.
    InvalidAlgorithm,
    /// The requested bound needs more addressable memory than the platform
    /// has; the value carried is the first bound that does not fit.
    MaxOverflow(u64),
    /// An input/output error, carried as its rendered text.
    IO(Vec<u8>),
}

impl Error {
    /// The rendered reason for each error.
    pub open spec fn spec_reason(self) -> Seq<u8> {
        match self {
            Error::InvalidAlgorithm => "choices are sieve & naive".spec_bytes(),
            Error::IO(s) => s@,
            Error::MaxOverflow(n) => "<max> must be less than ".spec_bytes() + dec_digits(
                (n - 1) as nat,
            ) + " on this platform".spec_bytes(),
        }
    }

    /// Render the reason for this error.
    pub fn reason(&self) -> (r: Vec<u8>)
        requires
            self matches Error::MaxOverflow(n) ==> n >= 1,
        ensures
            r@ == self.spec_reason(),
    {
        match self {
            Error::InvalidAlgorithm => {
                let mut v: Vec<u8> = Vec::new();
                v.extend_from_slice("choices are sieve & naive".as_bytes());
                proof {
                    assert(v@ =~= self.spec_reason());
                }
                v
            },
            Error::IO(s) => {
                let mut v: Vec<u8> = Vec::new();
                v.extend_from_slice(s.as_slice());
                proof {
                    assert(v@ =~= self.spec_reason());
                }
                v
            },
            Error::MaxOverflow(n) => {
                let mut v: Vec<u8> = Vec::new();
                v.extend_from_slice("<max> must be less than ".as_bytes());
                let digits = fmt_u64(*n - 1);
                v.extend_from_slice(digits.as_slice());
                v.extend_from_slice(" on this platform".as_bytes());
                proof {
                    assert(v@ =~= self.spec_reason());
                }
                v
            },
        }
    }
}

} // verus!
