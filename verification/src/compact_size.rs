//! The variable-length unsigned integer that prefixes every counted field.
//!
//! A magnitude up to `0xFC` is a single byte. Larger magnitudes are a marker
//! byte (`0xFD`, `0xFE` or `0xFF`) followed by the magnitude in two, four or
//! eight little-endian bytes. Writing always picks the narrowest form; reading
//! takes whichever form the marker announces.

use vstd::prelude::*;
use crate::error::BitcoinError;
use crate::little_endian::{le_bytes, le_value, lemma_le_bytes_len, push_le, read_le};

verus! {

/// An unsigned 64-bit magnitude in its variable-length wire form.
#[derive(Debug, PartialEq, Eq, Clone)]
pub struct CompactSize {
    pub value: u64,
}

/// The number of bytes that follow a first byte `marker`.
pub open spec fn payload_width(marker: u8) -> nat {
    if marker <= 0xFC {
        0
    } else if marker == 0xFD {
        2
    } else if marker == 0xFE {
        4
    } else {
        8
    }
}

/// The number of bytes in the narrowest wire form of `value`.
pub open spec fn compact_size_width(value: u64) -> nat {
    if value <= 0xFC {
        1
    } else if value <= 0xFFFF {
        3
    } else if value <= 0xFFFF_FFFF {
        5
    } else {
        9
    }
}

/// The narrowest wire form of `value`.
pub open spec fn compact_size_encoding(value: u64) -> Seq<u8> {
    if value <= 0xFC {
        seq![value as u8]
    } else if value <= 0xFFFF {
        seq![0xFDu8] + le_bytes(value as nat, 2)
    } else if value <= 0xFFFF_FFFF {
        seq![0xFEu8] + le_bytes(value as nat, 4)
    } else {
        seq![0xFFu8] + le_bytes(value as nat, 8)
    }
}

/// The magnitude at the front of `bytes` and the number of bytes it takes up,
/// or `None` where `bytes` ends before the form that its first byte announces.
pub open spec fn compact_size_decoding(bytes: Seq<u8>) -> Option<(u64, nat)> {
    if bytes.len() == 0 {
        None
    } else {
        let width = payload_width(bytes[0]);
        if bytes.len() < 1 + width {
            None
        } else if width == 0 {
            Some((bytes[0] as u64, 1))
        } else {
            Some((le_value(bytes.subrange(1, 1 + width as int)) as u64, 1 + width))
        }
    }
}

/// The encoding of a magnitude has the width that its range calls for.
pub proof fn compact_size_encoding_width(value: u64)
    ensures
        compact_size_encoding(value).len() == compact_size_width(value),
{
    lemma_le_bytes_len(value as nat, 2);
    lemma_le_bytes_len(value as nat, 4);
    lemma_le_bytes_len(value as nat, 8);
}

impl CompactSize {
    /// The compact size of magnitude `value`.
    pub fn new(value: u64) -> (r: Self)
        ensures
            r.value == value,
    {
        Self { value }
    }

    /// The narrowest wire form of the magnitude.
    pub fn to_bytes(&self) -> (out: Vec<u8>)
        ensures
            out@ == compact_size_encoding(self.value),
            out@.len() == compact_size_width(self.value),
    {
        proof {
            compact_size_encoding_width(self.value);
        }
        let v: u64 = self.value;
        let mut out: Vec<u8> = Vec::new();
        if v <= 0xFC {
            out.push(v as u8);
        } else if v <= 0xFFFF {
            out.push(0xFD);
            push_le(&mut out, v, 2);
        } else if v <= 0xFFFF_FFFF {
            out.push(0xFE);
            push_le(&mut out, v, 4);
        } else {
            out.push(0xFF);
            push_le(&mut out, v, 8);
        }
        out
    }

    /// Reads a magnitude from the front of `bytes`, and says how many bytes it took.
    pub fn from_bytes(bytes: &[u8]) -> (r: Result<(Self, usize), BitcoinError>)
        ensures
            match compact_size_decoding(bytes@) {
                Some((value, used)) => r matches Ok((size, n)) && size.value == value && n
                    == used,
                None => r matches Err(BitcoinError::InsufficientBytes),
            },
            r matches Ok((_, n)) ==> n <= bytes.len(),
    {
        if bytes.len() == 0 {
            return Err(BitcoinError::InsufficientBytes);
        }
        let marker: u8 = bytes[0];
        let width: usize = if marker <= 0xFC {
            0
        } else if marker == 0xFD {
            2
        } else if marker == 0xFE {
            4
        } else {
            8
        };
        if bytes.len() - 1 < width {
            return Err(BitcoinError::InsufficientBytes);
        }
        if width == 0 {
            return Ok((Self::new(marker as u64), 1));
        }
        let value: u64 = read_le(bytes, 1, width);
        Ok((Self::new(value), 1 + width))
    }
}

} // verus!
