//! A reference to one output of an earlier transaction: 36 bytes on the wire.

use vstd::prelude::*;
use crate::error::BitcoinError;
use crate::little_endian::{le_bytes, le_value, lemma_le_bytes_len, push_le, read_u32_le};
use crate::txid::Txid;

verus! {

/// The identifier of a transaction and the index of one of its outputs.
#[derive(Debug, PartialEq, Eq, Clone)]
pub struct OutPoint {
    pub txid: Txid,
    pub vout: u32,
}

/// What an `OutPoint` stands for: the identifier's bytes and the index.
pub struct OutPointView {
    pub txid: Seq<u8>,
    pub vout: u32,
}

impl OutPointView {
    /// The identifier has exactly 32 bytes.
    pub open spec fn wf(self) -> bool {
        self.txid.len() == 32
    }
}

impl View for OutPoint {
    type V = OutPointView;

    open spec fn view(&self) -> OutPointView {
        OutPointView { txid: self.txid@, vout: self.vout }
    }
}

/// The identifier as stored, followed by the index in four little-endian bytes.
pub open spec fn outpoint_encoding(outpoint: OutPointView) -> Seq<u8> {
    outpoint.txid + le_bytes(outpoint.vout as nat, 4)
}

/// The outpoint at the front of `bytes` and the 36 bytes it takes up, or `None`
/// where `bytes` is shorter.
pub open spec fn outpoint_decoding(bytes: Seq<u8>) -> Option<(OutPointView, nat)> {
    if bytes.len() < 36 {
        None
    } else {
        Some(
            (
                OutPointView {
                    txid: bytes.subrange(0, 32),
                    vout: le_value(bytes.subrange(32, 36)) as u32,
                },
                36,
            ),
        )
    }
}

impl OutPoint {
    /// The outpoint for output `vout` of the transaction identified by `txid`.
    pub fn new(txid: [u8; 32], vout: u32) -> (r: Self)
        ensures
            r.txid.0 == txid,
            r.vout == vout,
    {
        Self { txid: Txid(txid), vout }
    }

    /// The 36 bytes of the wire form.
    pub fn to_bytes(&self) -> (out: Vec<u8>)
        ensures
            out@ == outpoint_encoding(self@),
            out@.len() == 36,
    {
        let mut out: Vec<u8> = Vec::new();
        out.extend_from_slice(self.txid.0.as_slice());
        push_le(&mut out, self.vout as u64, 4);
        proof {
            lemma_le_bytes_len(self.vout as nat, 4);
        }
        out
    }

    /// Reads an outpoint from the front of `bytes`, and says how many bytes it took.
    pub fn from_bytes(bytes: &[u8]) -> (r: Result<(Self, usize), BitcoinError>)
        ensures
            match outpoint_decoding(bytes@) {
                Some((outpoint, used)) => r matches Ok((decoded, n)) && decoded@ == outpoint && n
                    == used,
                None => r matches Err(BitcoinError::InsufficientBytes),
            },
            r matches Ok((_, n)) ==> n <= bytes.len(),
    {
        if bytes.len() < 36 {
            return Err(BitcoinError::InsufficientBytes);
        }
        let txid: Txid = Txid::from_prefix(bytes);
        let vout: u32 = read_u32_le(bytes, 32);
        Ok((Self { txid, vout }, 36))
    }
}

} // verus!
