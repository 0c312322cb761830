//! A script: bytes that this library carries and never interprets, prefixed on
//! the wire by their count.

use vstd::prelude::*;
use vstd::slice::{slice_subrange, slice_to_vec};
use crate::compact_size::{compact_size_decoding, compact_size_encoding, CompactSize};
use crate::error::BitcoinError;

verus! {

/// An ordered sequence of bytes of any length.
#[derive(Debug, PartialEq, Eq, Clone)]
pub struct Script {
    pub bytes: Vec<u8>,
}

impl View for Script {
    type V = Seq<u8>;

    open spec fn view(&self) -> Seq<u8> {
        self.bytes@
    }
}

/// The count of the body's bytes in its narrowest form, followed by the body.
pub open spec fn script_encoding(body: Seq<u8>) -> Seq<u8> {
    compact_size_encoding(body.len() as u64) + body
}

/// The script body at the front of `bytes` and the number of bytes that prefix
/// and body take up together, or `None` where `bytes` ends before the prefix is
/// complete or holds fewer bytes after it than the prefix declares.
pub open spec fn script_decoding(bytes: Seq<u8>) -> Option<(Seq<u8>, nat)> {
    match compact_size_decoding(bytes) {
        None => None,
        Some((declared, prefix)) => if bytes.len() < prefix + declared {
            None
        } else {
            Some((bytes.subrange(prefix as int, prefix + declared), prefix + declared as nat))
        },
    }
}

impl Script {
    /// The script made of `bytes`.
    pub fn new(bytes: Vec<u8>) -> (r: Self)
        ensures
            r.bytes == bytes,
    {
        Self { bytes }
    }

    /// The bytes of the script.
    pub fn as_bytes(&self) -> (body: &[u8])
        ensures
            body@ == self@,
    {
        self.bytes.as_slice()
    }

    /// The wire form: the length prefix, followed by the body.
    pub fn to_bytes(&self) -> (out: Vec<u8>)
        ensures
            out@ == script_encoding(self@),
    {
        let mut out: Vec<u8> = CompactSize::new(self.bytes.len() as u64).to_bytes();
        out.extend_from_slice(self.bytes.as_slice());
        out
    }

    /// Reads a script from the front of `bytes`, and says how many bytes it took.
    ///
    /// The declared length is held against the bytes that are really there before
    /// anything is copied, so a hostile prefix cannot ask for a large buffer.
    pub fn from_bytes(bytes: &[u8]) -> (r: Result<(Self, usize), BitcoinError>)
        ensures
            match script_decoding(bytes@) {
                Some((body, used)) => r matches Ok((decoded, n)) && decoded@ == body && n == used,
                None => r matches Err(BitcoinError::InsufficientBytes),
            },
            r matches Ok((_, n)) ==> n <= bytes.len(),
    {
        let (declared, prefix): (u64, usize) = match CompactSize::from_bytes(bytes) {
            Ok((size, prefix)) => (size.value, prefix),
            Err(e) => {
                return Err(e);
            },
        };
        let available: usize = bytes.len() - prefix;
        if declared > available as u64 {
            return Err(BitcoinError::InsufficientBytes);
        }
        let end: usize = prefix + declared as usize;
        let body: Vec<u8> = slice_to_vec(slice_subrange(bytes, prefix, end));
        Ok((Self::new(body), end))
    }
}

} // verus!
