//! The transaction envelope: a version, a counted list of inputs, and a lock
//! time.

use vstd::prelude::*;
use vstd::slice::slice_subrange;
use crate::compact_size::{compact_size_decoding, compact_size_encoding, CompactSize};
use crate::error::BitcoinError;
use crate::input::{input_decoding, input_encoding, InputView, TransactionInput};
use crate::little_endian::{le_bytes, le_value, push_le, read_u32_le};

verus! {

/// A version, the inputs in wire order, and a lock time.
#[derive(Debug, PartialEq, Eq, Clone)]
pub struct BitcoinTransaction {
    pub version: u32,
    pub inputs: Vec<TransactionInput>,
    pub lock_time: u32,
}

/// What a `BitcoinTransaction` stands for.
pub struct TransactionView {
    pub version: u32,
    pub inputs: Seq<InputView>,
    pub lock_time: u32,
}

impl TransactionView {
    /// Every input is well formed and the number of inputs fits its prefix.
    pub open spec fn wf(self) -> bool {
        &&& self.inputs.len() <= u64::MAX
        &&& forall|i: int| 0 <= i < self.inputs.len() ==> (#[trigger] self.inputs[i]).wf()
    }
}

/// What each of `inputs` stands for, in the same order.
pub open spec fn input_views(inputs: Seq<TransactionInput>) -> Seq<InputView> {
    inputs.map_values(|input: TransactionInput| input@)
}

impl View for BitcoinTransaction {
    type V = TransactionView;

    open spec fn view(&self) -> TransactionView {
        TransactionView {
            version: self.version,
            inputs: input_views(self.inputs@),
            lock_time: self.lock_time,
        }
    }
}

/// The encodings of `inputs` one after another, in order.
pub open spec fn inputs_encoding(inputs: Seq<InputView>) -> Seq<u8>
    decreases inputs.len(),
{
    if inputs.len() == 0 {
        Seq::empty()
    } else {
        input_encoding(inputs[0]) + inputs_encoding(inputs.skip(1))
    }
}

/// The `count` inputs at the front of `bytes`, in order, and the number of
/// bytes they take up together, or `None` where one of them is incomplete.
pub open spec fn inputs_decoding(bytes: Seq<u8>, count: nat) -> Option<(Seq<InputView>, nat)>
    decreases count,
{
    if count == 0 {
        Some((Seq::empty(), 0))
    } else {
        match input_decoding(bytes) {
            None => None,
            Some((first, first_width)) => match inputs_decoding(
                bytes.skip(first_width as int),
                (count - 1) as nat,
            ) {
                None => None,
                Some((rest, rest_width)) => Some((seq![first] + rest, first_width + rest_width)),
            },
        }
    }
}

/// The version in four little-endian bytes, the number of inputs in its
/// narrowest form, the inputs in order, and the lock time in four little-endian
/// bytes.
pub open spec fn transaction_encoding(tx: TransactionView) -> Seq<u8> {
    le_bytes(tx.version as nat, 4) + compact_size_encoding(tx.inputs.len() as u64)
        + inputs_encoding(tx.inputs) + le_bytes(tx.lock_time as nat, 4)
}

/// The transaction at the front of `bytes` and the number of bytes it takes up,
/// or `None` where `bytes` ends before the version, the count, one of the
/// counted inputs or the lock time is complete.
pub open spec fn transaction_decoding(bytes: Seq<u8>) -> Option<(TransactionView, nat)> {
    if bytes.len() < 4 {
        None
    } else {
        match compact_size_decoding(bytes.skip(4)) {
            None => None,
            Some((count, count_width)) => match inputs_decoding(
                bytes.skip(4 + count_width as int),
                count as nat,
            ) {
                None => None,
                Some((inputs, inputs_width)) => {
                    let at = (4 + count_width + inputs_width) as int;
                    if bytes.len() < at + 4 {
                        None
                    } else {
                        Some(
                            (
                                TransactionView {
                                    version: le_value(bytes.subrange(0, 4)) as u32,
                                    inputs,
                                    lock_time: le_value(bytes.subrange(at, at + 4)) as u32,
                                },
                                (at + 4) as nat,
                            ),
                        )
                    }
                },
            },
        }
    }
}

/// Encoding one more input at the end appends its encoding.
pub proof fn lemma_inputs_encoding_push(inputs: Seq<InputView>, last: InputView)
    ensures
        inputs_encoding(inputs.push(last)) == inputs_encoding(inputs) + input_encoding(last),
    decreases inputs.len(),
{
    let all = inputs.push(last);
    if inputs.len() == 0 {
        assert(all.skip(1) =~= inputs);
    } else {
        lemma_inputs_encoding_push(inputs.skip(1), last);
        assert(all.skip(1) =~= inputs.skip(1).push(last));
    }
}

impl BitcoinTransaction {
    /// The transaction made of these three parts, the inputs in the order given.
    pub fn new(version: u32, inputs: Vec<TransactionInput>, lock_time: u32) -> (r: Self)
        ensures
            r.version == version,
            r.inputs == inputs,
            r.lock_time == lock_time,
    {
        Self { version, inputs, lock_time }
    }

    /// The wire form of the transaction.
    pub fn to_bytes(&self) -> (out: Vec<u8>)
        ensures
            out@ == transaction_encoding(self@),
    {
        let mut out: Vec<u8> = Vec::new();
        push_le(&mut out, self.version as u64, 4);
        let mut count: Vec<u8> = CompactSize::new(self.inputs.len() as u64).to_bytes();
        out.append(&mut count);
        let ghost head = out@;
        let mut i: usize = 0;
        while i < self.inputs.len()
            invariant
                i <= self.inputs.len(),
                out@ == head + inputs_encoding(input_views(self.inputs@.take(i as int))),
            decreases self.inputs.len() - i,
        {
            let mut encoded: Vec<u8> = self.inputs[i].to_bytes();
            proof {
                let before = input_views(self.inputs@.take(i as int));
                lemma_inputs_encoding_push(before, self.inputs@[i as int]@);
                assert(input_views(self.inputs@.take(i + 1)) =~= before.push(
                    self.inputs@[i as int]@,
                ));
            }
            out.append(&mut encoded);
            i = i + 1;
        }
        proof {
            assert(self.inputs@.take(i as int) =~= self.inputs@);
        }
        push_le(&mut out, self.lock_time as u64, 4);
        out
    }

    /// Reads a transaction from the front of `bytes`, and says how many bytes
    /// it took. Where any part is incomplete nothing is returned but the error.
    pub fn from_bytes(bytes: &[u8]) -> (r: Result<(Self, usize), BitcoinError>)
        ensures
            match transaction_decoding(bytes@) {
                Some((tx, used)) => r matches Ok((decoded, n)) && decoded@ == tx && n == used,
                None => r matches Err(BitcoinError::InsufficientBytes),
            },
            r matches Ok((_, n)) ==> n <= bytes.len(),
    {
        if bytes.len() < 4 {
            return Err(BitcoinError::InsufficientBytes);
        }
        let version: u32 = read_u32_le(bytes, 0);
        let (count, count_width): (u64, usize) = match CompactSize::from_bytes(
            slice_subrange(bytes, 4, bytes.len()),
        ) {
            Ok((size, width)) => (size.value, width),
            Err(e) => {
                return Err(e);
            },
        };
        let start: usize = 4 + count_width;
        let mut inputs: Vec<TransactionInput> = Vec::new();
        let mut cursor: usize = start;
        let mut done: u64 = 0;
        while done < count
            invariant
                done <= count,
                start == 4 + count_width,
                start <= cursor <= bytes.len(),
                compact_size_decoding(bytes@.skip(4)) == Some((count, count_width as nat)),
                inputs_decoding(bytes@.skip(start as int), count as nat) == match inputs_decoding(
                    bytes@.skip(cursor as int),
                    (count - done) as nat,
                ) {
                    None => None,
                    Some((rest, rest_width)) => Some(
                        (input_views(inputs@) + rest, (cursor - start + rest_width) as nat),
                    ),
                },
            decreases count - done,
        {
            let (input, used): (TransactionInput, usize) = match TransactionInput::from_bytes(
                slice_subrange(bytes, cursor, bytes.len()),
            ) {
                Ok(found) => found,
                Err(e) => {
                    return Err(e);
                },
            };
            proof {
                let here = bytes@.skip(cursor as int);
                assert(here.skip(used as int) =~= bytes@.skip(cursor + used));
            }
            inputs.push(input);
            cursor = cursor + used;
            done = done + 1;
        }
        if bytes.len() - cursor < 4 {
            return Err(BitcoinError::InsufficientBytes);
        }
        let lock_time: u32 = read_u32_le(bytes, cursor);
        Ok((Self::new(version, inputs, lock_time), cursor + 4))
    }
}

} // verus!
