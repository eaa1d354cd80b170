//! Errors surfaced by formatting and inspecting a filesystem.
use vstd::prelude::*;
use crate::text::{append, chars_of, radix_chars, spec_dec, string_of};

verus! {

/// `std::io::Error`, carried by [`Error::Io`].
#[verifier::external_type_specification]
#[verifier::external_body]
pub struct ExIoError(std::io::Error);

/// Anything that can go wrong formatting or reading an XFS filesystem.
#[derive(Debug)]
pub enum Error {
    /// The underlying device failed a read, write or flush.
    Io {
        /// Byte offset the operation targeted.
        offset: u64,
        /// The underlying failure.
        source: std::io::Error,
    },
    /// A read or write ran past the end of the device.
    OutOfBounds {
        /// Byte offset the operation targeted.
        offset: u64,
        /// Length requested.
        len: u64,
        /// Size of the device.
        size: u64,
    },
    /// The parameters cannot describe a filesystem `mkfs.xfs` would make.
    InvalidParams(String),
    /// A configuration `mkfs.xfs` accepts but this implementation does not
    /// yet reproduce exactly. Refused rather than approximated.
    Unsupported(String),
    /// What was read is not an XFS filesystem, or not one this crate reads.
    NotXfs(String),
    /// On-disk metadata failed a structural check.
    Corrupt(String),
}

impl Error {
    /// Wrap an I/O failure with the offset it happened at.
    pub fn io(offset: u64, source: std::io::Error) -> (e: Self)
        ensures
            e matches Error::Io { offset: o, .. } && o == offset,
    {
        Error::Io { offset, source }
    }
}

/// A message naming one number: `prefix`, `n` in decimal, `suffix`.
pub(crate) fn message1(prefix: &str, n: u64, suffix: &str) -> (m: String)
    ensures
        m@ == prefix@ + spec_dec(n as nat) + suffix@,
{
    let mut v = chars_of(prefix);
    append(&mut v, radix_chars(n, 10).as_slice());
    append(&mut v, chars_of(suffix).as_slice());
    string_of(v.as_slice())
}

/// A message naming two numbers, each in decimal between the three texts.
pub(crate) fn message2(a: &str, n: u64, b: &str, m: u64, c: &str) -> (r: String)
    ensures
        r@ == a@ + spec_dec(n as nat) + b@ + spec_dec(m as nat) + c@,
{
    let mut v = chars_of(a);
    append(&mut v, radix_chars(n, 10).as_slice());
    append(&mut v, chars_of(b).as_slice());
    append(&mut v, radix_chars(m, 10).as_slice());
    append(&mut v, chars_of(c).as_slice());
    string_of(v.as_slice())
}

} // verus!
