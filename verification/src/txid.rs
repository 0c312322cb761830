//! The 32-byte identifier of a transaction, and its text form.

use vstd::prelude::*;
use crate::error::BitcoinError;
use crate::hex_text::{
    hex_decode, hex_encode, hex_text, hex_text_round_trip, hex_value, is_hex_text,
};

verus! {

/// A transaction identifier: exactly 32 bytes, kept in wire order.
#[derive(Debug, PartialEq, Eq, Clone)]
pub struct Txid(pub [u8; 32]);

impl View for Txid {
    type V = Seq<u8>;

    open spec fn view(&self) -> Seq<u8> {
        self.0@
    }
}

/// The identifier bytes that `text` stands for, or `None` where `text` is not
/// hexadecimal text or does not stand for exactly 32 bytes.
pub open spec fn txid_of_text(text: Seq<char>) -> Option<Seq<u8>> {
    if is_hex_text(text) && text.len() == 64 {
        Some(hex_value(text))
    } else {
        None
    }
}

impl Txid {
    /// The identifier made of the first 32 of `bytes`.
    pub(crate) fn from_prefix(bytes: &[u8]) -> (id: Txid)
        requires
            bytes.len() >= 32,
        ensures
            id@ == bytes@.subrange(0, 32),
    {
        let mut id: [u8; 32] = [0u8; 32];
        let mut i: usize = 0;
        while i < 32
            invariant
                i <= 32,
                bytes.len() >= 32,
                forall|j: int| 0 <= j < i ==> id@[j] == bytes@[j],
            decreases 32 - i,
        {
            id[i] = bytes[i];
            i = i + 1;
        }
        Txid(id)
    }

    /// The text form: 64 lowercase hexadecimal digits, in the order of the bytes.
    pub fn to_hex(&self) -> (text: String)
        ensures
            text@ == hex_text(self@),
            text@.len() == 64,
    {
        hex_encode(self.0.as_slice())
    }

    /// Reads an identifier from its text form. Text that is not hexadecimal,
    /// and text that stands for more or fewer than 32 bytes, is refused alike.
    pub fn from_hex(text: &str) -> (r: Result<Txid, BitcoinError>)
        ensures
            match txid_of_text(text@) {
                Some(bytes) => r matches Ok(id) && id@ == bytes,
                None => r matches Err(BitcoinError::InvalidFormat),
            },
    {
        match hex_decode(text) {
            Ok(bytes) => {
                if bytes.len() != 32 {
                    Err(BitcoinError::InvalidFormat)
                } else {
                    Ok(Txid::from_prefix(bytes.as_slice()))
                }
            },
            Err(_) => Err(BitcoinError::InvalidFormat),
        }
    }
}

/// Reading the text form of an identifier gives the identifier back.
pub proof fn txid_text_round_trip(id: Seq<u8>)
    requires
        id.len() == 32,
    ensures
        txid_of_text(hex_text(id)) == Some(id),
{
    hex_text_round_trip(id);
}

} // verus!
