//! One input of a transaction: the output it spends, the script that unlocks
//! it, and a sequence number.

use vstd::prelude::*;
use vstd::slice::slice_subrange;
use crate::error::BitcoinError;
use crate::little_endian::{le_bytes, le_value, push_le, read_u32_le};
use crate::outpoint::{outpoint_decoding, outpoint_encoding, OutPoint, OutPointView};
use crate::script::{script_decoding, script_encoding, Script};

verus! {

/// An outpoint, a script and a sequence number.
#[derive(Debug, PartialEq, Eq, Clone)]
pub struct TransactionInput {
    pub previous_output: OutPoint,
    pub script_sig: Script,
    pub sequence: u32,
}

/// What a `TransactionInput` stands for.
pub struct InputView {
    pub previous_output: OutPointView,
    pub script_sig: Seq<u8>,
    pub sequence: u32,
}

impl InputView {
    /// The outpoint is well formed and the script's length fits its prefix.
    pub open spec fn wf(self) -> bool {
        &&& self.previous_output.wf()
        &&& self.script_sig.len() <= u64::MAX
    }
}

impl View for TransactionInput {
    type V = InputView;

    open spec fn view(&self) -> InputView {
        InputView {
            previous_output: self.previous_output@,
            script_sig: self.script_sig@,
            sequence: self.sequence,
        }
    }
}

/// The outpoint, the prefixed script, and the sequence number in four
/// little-endian bytes.
pub open spec fn input_encoding(input: InputView) -> Seq<u8> {
    outpoint_encoding(input.previous_output) + script_encoding(input.script_sig) + le_bytes(
        input.sequence as nat,
        4,
    )
}

/// The input at the front of `bytes` and the number of bytes it takes up, or
/// `None` where `bytes` ends before the outpoint, the script or the sequence
/// number is complete.
pub open spec fn input_decoding(bytes: Seq<u8>) -> Option<(InputView, nat)> {
    match outpoint_decoding(bytes) {
        None => None,
        Some((previous_output, outpoint_width)) => match script_decoding(
            bytes.skip(outpoint_width as int),
        ) {
            None => None,
            Some((script_sig, script_width)) => {
                let at = (outpoint_width + script_width) as int;
                if bytes.len() < at + 4 {
                    None
                } else {
                    Some(
                        (
                            InputView {
                                previous_output,
                                script_sig,
                                sequence: le_value(bytes.subrange(at, at + 4)) as u32,
                            },
                            (at + 4) as nat,
                        ),
                    )
                }
            },
        },
    }
}

impl TransactionInput {
    /// The input made of these three parts.
    pub fn new(previous_output: OutPoint, script_sig: Script, sequence: u32) -> (r: Self)
        ensures
            r.previous_output == previous_output,
            r.script_sig == script_sig,
            r.sequence == sequence,
    {
        Self { previous_output, script_sig, sequence }
    }

    /// The wire form of the input.
    pub fn to_bytes(&self) -> (out: Vec<u8>)
        ensures
            out@ == input_encoding(self@),
    {
        let mut out: Vec<u8> = self.previous_output.to_bytes();
        let mut script: Vec<u8> = self.script_sig.to_bytes();
        out.append(&mut script);
        push_le(&mut out, self.sequence as u64, 4);
        out
    }

    /// Reads an input from the front of `bytes`, and says how many bytes it took.
    pub fn from_bytes(bytes: &[u8]) -> (r: Result<(Self, usize), BitcoinError>)
        ensures
            match input_decoding(bytes@) {
                Some((input, used)) => r matches Ok((decoded, n)) && decoded@ == input && n
                    == used,
                None => r matches Err(BitcoinError::InsufficientBytes),
            },
            r matches Ok((_, n)) ==> n <= bytes.len(),
    {
        let (previous_output, outpoint_width): (OutPoint, usize) = match OutPoint::from_bytes(
            bytes,
        ) {
            Ok(found) => found,
            Err(e) => {
                return Err(e);
            },
        };
        let rest: &[u8] = slice_subrange(bytes, outpoint_width, bytes.len());
        let (script_sig, script_width): (Script, usize) = match Script::from_bytes(rest) {
            Ok(found) => found,
            Err(e) => {
                return Err(e);
            },
        };
        let at: usize = outpoint_width + script_width;
        if bytes.len() - at < 4 {
            return Err(BitcoinError::InsufficientBytes);
        }
        let sequence: u32 = read_u32_le(bytes, at);
        Ok((Self::new(previous_output, script_sig, sequence), at + 4))
    }
}

} // verus!
