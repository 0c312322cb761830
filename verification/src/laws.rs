//! How encoding and decoding relate, for every wire structure.
//!
//! The laws are stated over what the values stand for, and hold of every well
//! formed view; what an executable value stands for is always well formed.
//!
//! Two laws are proved of each structure. Decoding an encoding gives back the
//! value that was encoded and the encoding's length, whatever bytes follow it.
//! And an encoding that has lost one or more bytes at its end does not decode:
//! since the executable decoders return `InsufficientBytes` exactly where the
//! decoding is `None`, a truncated buffer is never mistaken for a value.

use vstd::prelude::*;
use crate::compact_size::{
    compact_size_decoding, compact_size_encoding, compact_size_encoding_width, compact_size_width,
};
use crate::input::{input_decoding, input_encoding, InputView, TransactionInput};
use crate::little_endian::{
    le_bytes, le_value, lemma_byte_radix_values, lemma_le_bytes_len, lemma_le_value_of_bytes,
};
use crate::outpoint::{outpoint_decoding, outpoint_encoding, OutPoint, OutPointView};
use crate::script::{script_decoding, script_encoding};
use crate::transaction::{
    inputs_decoding, inputs_encoding, transaction_decoding, transaction_encoding,
    BitcoinTransaction, TransactionView,
};

verus! {

/// What an outpoint value stands for is well formed.
pub proof fn outpoint_view_wf(outpoint: OutPoint)
    ensures
        outpoint@.wf(),
{
}

/// What an input value stands for is well formed.
pub proof fn input_view_wf(input: TransactionInput)
    ensures
        input@.wf(),
{
    assert(input.script_sig.bytes@.len() == input.script_sig.bytes.len());
}

/// What a transaction value stands for is well formed.
pub proof fn transaction_view_wf(tx: BitcoinTransaction)
    ensures
        tx@.wf(),
{
    assert(tx.inputs@.len() == tx.inputs.len());
    assert forall|i: int| 0 <= i < tx@.inputs.len() implies (#[trigger] tx@.inputs[i]).wf() by {
        input_view_wf(tx.inputs@[i]);
    }
}

/// Decoding the encoding of a magnitude gives the magnitude and the encoding's
/// width, whatever follows the encoding.
pub proof fn compact_size_round_trip(value: u64, rest: Seq<u8>)
    ensures
        compact_size_decoding(compact_size_encoding(value) + rest) == Some(
            (value, compact_size_width(value)),
        ),
{
    let bytes = compact_size_encoding(value) + rest;
    compact_size_encoding_width(value);
    lemma_byte_radix_values();
    if value > 0xFC {
        let width: nat = if value <= 0xFFFF {
            2
        } else if value <= 0xFFFF_FFFF {
            4
        } else {
            8
        };
        lemma_le_value_of_bytes(value as nat, width);
        assert(bytes.subrange(1, 1 + width as int) =~= le_bytes(value as nat, width));
    }
}

/// The encoding of a magnitude, cut short by `cut` bytes, does not decode.
pub proof fn compact_size_truncated(value: u64, cut: nat)
    requires
        1 <= cut <= compact_size_encoding(value).len(),
    ensures
        compact_size_decoding(
            compact_size_encoding(value).take(compact_size_encoding(value).len() - cut),
        ) is None,
{
    compact_size_encoding_width(value);
}

/// Decoding the encoding of an outpoint gives the outpoint and 36, whatever
/// follows the encoding.
pub proof fn outpoint_round_trip(outpoint: OutPointView, rest: Seq<u8>)
    requires
        outpoint.wf(),
    ensures
        outpoint_encoding(outpoint).len() == 36,
        outpoint_decoding(outpoint_encoding(outpoint) + rest) == Some((outpoint, 36nat)),
{
    let bytes = outpoint_encoding(outpoint) + rest;
    lemma_byte_radix_values();
    lemma_le_bytes_len(outpoint.vout as nat, 4);
    lemma_le_value_of_bytes(outpoint.vout as nat, 4);
    assert(bytes.subrange(0, 32) =~= outpoint.txid);
    assert(bytes.subrange(32, 36) =~= le_bytes(outpoint.vout as nat, 4));
}

/// The encoding of an outpoint, cut short by `cut` bytes, does not decode.
pub proof fn outpoint_truncated(outpoint: OutPointView, cut: nat)
    requires
        outpoint.wf(),
        1 <= cut <= outpoint_encoding(outpoint).len(),
    ensures
        outpoint_decoding(
            outpoint_encoding(outpoint).take(outpoint_encoding(outpoint).len() - cut),
        ) is None,
{
    lemma_le_bytes_len(outpoint.vout as nat, 4);
}

/// Decoding the encoding of a script gives the script and the encoding's
/// length, whatever follows the encoding.
pub proof fn script_round_trip(body: Seq<u8>, rest: Seq<u8>)
    requires
        body.len() <= u64::MAX,
    ensures
        script_decoding(script_encoding(body) + rest) == Some(
            (body, script_encoding(body).len()),
        ),
{
    let declared = body.len() as u64;
    let prefix = compact_size_encoding(declared);
    let bytes = script_encoding(body) + rest;
    compact_size_encoding_width(declared);
    compact_size_round_trip(declared, body + rest);
    assert(bytes =~= prefix + (body + rest));
    assert(bytes.subrange(prefix.len() as int, prefix.len() + declared) =~= body);
}

/// The encoding of a script, cut short by `cut` bytes, does not decode.
pub proof fn script_truncated(body: Seq<u8>, cut: nat)
    requires
        body.len() <= u64::MAX,
        1 <= cut <= script_encoding(body).len(),
    ensures
        script_decoding(script_encoding(body).take(script_encoding(body).len() - cut)) is None,
{
    let declared = body.len() as u64;
    let prefix = compact_size_encoding(declared);
    let encoded = script_encoding(body);
    let kept = encoded.take(encoded.len() - cut);
    compact_size_encoding_width(declared);
    if kept.len() < prefix.len() {
        compact_size_truncated(declared, (prefix.len() - kept.len()) as nat);
        assert(kept =~= prefix.take(kept.len() as int));
    } else {
        let tail = body.take(kept.len() - prefix.len());
        compact_size_round_trip(declared, tail);
        assert(kept =~= prefix + tail);
    }
}

/// Decoding the encoding of an input gives the input and the encoding's length,
/// whatever follows the encoding.
pub proof fn input_round_trip(input: InputView, rest: Seq<u8>)
    requires
        input.wf(),
    ensures
        input_decoding(input_encoding(input) + rest) == Some(
            (input, input_encoding(input).len()),
        ),
{
    let outpoint = outpoint_encoding(input.previous_output);
    let script = script_encoding(input.script_sig);
    let sequence = le_bytes(input.sequence as nat, 4);
    let bytes = input_encoding(input) + rest;
    lemma_byte_radix_values();
    lemma_le_bytes_len(input.sequence as nat, 4);
    lemma_le_value_of_bytes(input.sequence as nat, 4);
    outpoint_round_trip(input.previous_output, script + sequence + rest);
    assert(bytes =~= outpoint + (script + sequence + rest));
    script_round_trip(input.script_sig, sequence + rest);
    assert(bytes.skip(36) =~= script + (sequence + rest));
    let at = (36 + script.len()) as int;
    assert(bytes.subrange(at, at + 4) =~= sequence);
}

/// The encoding of an input, cut short by `cut` bytes, does not decode.
pub proof fn input_truncated(input: InputView, cut: nat)
    requires
        input.wf(),
        1 <= cut <= input_encoding(input).len(),
    ensures
        input_decoding(input_encoding(input).take(input_encoding(input).len() - cut)) is None,
{
    let outpoint = outpoint_encoding(input.previous_output);
    let script = script_encoding(input.script_sig);
    let sequence = le_bytes(input.sequence as nat, 4);
    let encoded = input_encoding(input);
    let kept = encoded.take(encoded.len() - cut);
    lemma_le_bytes_len(input.sequence as nat, 4);
    outpoint_round_trip(input.previous_output, Seq::empty());
    if kept.len() >= 36 {
        let after = kept.len() - 36;
        if after < script.len() {
            script_truncated(input.script_sig, (script.len() - after) as nat);
            assert(kept.skip(36) =~= script.take(after));
        } else {
            let tail = sequence.take(after - script.len());
            script_round_trip(input.script_sig, tail);
            assert(kept.skip(36) =~= script + tail);
        }
    }
}

/// Every one of `inputs` is well formed.
pub open spec fn inputs_wf(inputs: Seq<InputView>) -> bool {
    forall|i: int| 0 <= i < inputs.len() ==> (#[trigger] inputs[i]).wf()
}

/// Skipping the front of a concatenation leaves its back.
proof fn lemma_skip_front<T>(front: Seq<T>, back: Seq<T>)
    ensures
        (front + back).skip(front.len() as int) == back,
{
}

/// Concatenation does not depend on how its parts are grouped.
proof fn lemma_concat_assoc<T>(a: Seq<T>, b: Seq<T>, c: Seq<T>)
    ensures
        (a + b) + c == a + (b + c),
{
}

/// A prefix of a concatenation that ends within its front is a prefix of the front.
proof fn lemma_take_within<T>(front: Seq<T>, back: Seq<T>, kept: int)
    requires
        0 <= kept <= front.len(),
    ensures
        (front + back).take(kept) == front.take(kept),
{
}

/// A prefix of a concatenation that reaches into its back is the front and a
/// prefix of the back.
proof fn lemma_take_beyond<T>(front: Seq<T>, back: Seq<T>, kept: int)
    requires
        front.len() <= kept <= front.len() + back.len(),
    ensures
        (front + back).take(kept) == front + back.take(kept - front.len()),
{
}

/// The first of a non-empty well-formed list is well formed, and so are the others.
proof fn lemma_inputs_wf_parts(inputs: Seq<InputView>)
    requires
        inputs_wf(inputs),
        inputs.len() > 0,
    ensures
        inputs[0].wf(),
        inputs_wf(inputs.skip(1)),
        seq![inputs[0]] + inputs.skip(1) == inputs,
{
    assert forall|i: int| 0 <= i < inputs.skip(1).len() implies (#[trigger] inputs.skip(
        1,
    )[i]).wf() by {
        assert(inputs.skip(1)[i] == inputs[i + 1]);
    }
    assert(seq![inputs[0]] + inputs.skip(1) =~= inputs);
}

/// Decoding a list of inputs from bytes that start with one input's encoding
/// decodes that input and goes on behind it.
proof fn lemma_inputs_decoding_first(first: InputView, back: Seq<u8>, others: nat)
    requires
        first.wf(),
    ensures
        inputs_decoding(input_encoding(first) + back, others + 1) == match inputs_decoding(
            back,
            others,
        ) {
            None => None,
            Some((rest, rest_width)) => Some(
                (seq![first] + rest, input_encoding(first).len() + rest_width),
            ),
        },
{
    input_round_trip(first, back);
    lemma_skip_front(input_encoding(first), back);
}

/// Decoding as many inputs as were encoded gives them back in order, and the
/// encoding's length, whatever follows the encoding.
pub proof fn inputs_round_trip(inputs: Seq<InputView>, rest: Seq<u8>)
    requires
        inputs_wf(inputs),
    ensures
        inputs_decoding(inputs_encoding(inputs) + rest, inputs.len()) == Some(
            (inputs, inputs_encoding(inputs).len()),
        ),
    decreases inputs.len(),
{
    if inputs.len() == 0 {
        assert(inputs =~= Seq::empty());
    } else {
        let first = input_encoding(inputs[0]);
        let others = inputs_encoding(inputs.skip(1));
        lemma_inputs_wf_parts(inputs);
        lemma_inputs_decoding_first(inputs[0], others + rest, (inputs.len() - 1) as nat);
        inputs_round_trip(inputs.skip(1), rest);
        lemma_concat_assoc(first, others, rest);
    }
}

/// The encoding of a list of inputs, cut short by `cut` bytes, does not decode
/// as a list of that many inputs.
pub proof fn inputs_truncated(inputs: Seq<InputView>, cut: nat)
    requires
        inputs_wf(inputs),
        1 <= cut <= inputs_encoding(inputs).len(),
    ensures
        inputs_decoding(
            inputs_encoding(inputs).take(inputs_encoding(inputs).len() - cut),
            inputs.len(),
        ) is None,
    decreases inputs.len(),
{
    let encoded = inputs_encoding(inputs);
    let kept = encoded.len() - cut;
    if inputs.len() > 0 {
        let first = input_encoding(inputs[0]);
        let others = inputs_encoding(inputs.skip(1));
        lemma_inputs_wf_parts(inputs);
        if kept < first.len() {
            input_truncated(inputs[0], (first.len() - kept) as nat);
            lemma_take_within(first, others, kept);
        } else {
            lemma_take_beyond(first, others, kept);
            lemma_inputs_decoding_first(
                inputs[0],
                others.take(kept - first.len()),
                (inputs.len() - 1) as nat,
            );
            inputs_truncated(inputs.skip(1), cut);
        }
    }
}

/// Decoding bytes that start with a version and a count reads both and goes on
/// with the inputs and the lock time behind them.
proof fn lemma_transaction_decoding_head(version: u32, count: u64, back: Seq<u8>)
    ensures
        transaction_decoding(
            le_bytes(version as nat, 4) + compact_size_encoding(count) + back,
        ) == match inputs_decoding(back, count as nat) {
            None => None,
            Some((inputs, inputs_width)) => if back.len() < inputs_width + 4 {
                None
            } else {
                Some(
                    (
                        TransactionView {
                            version,
                            inputs,
                            lock_time: le_value(
                                back.subrange(inputs_width as int, inputs_width as int + 4),
                            ) as u32,
                        },
                        4 + compact_size_width(count) + inputs_width + 4,
                    ),
                )
            },
        },
{
    let head = le_bytes(version as nat, 4);
    let prefix = compact_size_encoding(count);
    let bytes = head + prefix + back;
    lemma_byte_radix_values();
    lemma_le_bytes_len(version as nat, 4);
    lemma_le_value_of_bytes(version as nat, 4);
    compact_size_encoding_width(count);
    compact_size_round_trip(count, back);
    assert(bytes.subrange(0, 4) =~= head);
    assert(bytes.skip(4) =~= prefix + back);
    assert(bytes.skip(4 + prefix.len() as int) =~= back);
    match inputs_decoding(back, count as nat) {
        None => {},
        Some((inputs, inputs_width)) => {
            if back.len() >= inputs_width + 4 {
                let at = (4 + prefix.len() + inputs_width) as int;
                assert(bytes.subrange(at, at + 4) =~= back.subrange(
                    inputs_width as int,
                    inputs_width as int + 4,
                ));
            }
        },
    }
}

/// Decoding the encoding of a transaction gives the transaction and the
/// encoding's length, whatever follows the encoding.
pub proof fn transaction_round_trip(tx: TransactionView, rest: Seq<u8>)
    requires
        tx.wf(),
    ensures
        transaction_decoding(transaction_encoding(tx) + rest) == Some(
            (tx, transaction_encoding(tx).len()),
        ),
{
    let count = tx.inputs.len() as u64;
    let head = le_bytes(tx.version as nat, 4) + compact_size_encoding(count);
    let inputs = inputs_encoding(tx.inputs);
    let lock_time = le_bytes(tx.lock_time as nat, 4);
    let back = inputs + (lock_time + rest);
    lemma_byte_radix_values();
    lemma_le_bytes_len(tx.version as nat, 4);
    lemma_le_bytes_len(tx.lock_time as nat, 4);
    lemma_le_value_of_bytes(tx.lock_time as nat, 4);
    compact_size_encoding_width(count);
    inputs_round_trip(tx.inputs, lock_time + rest);
    assert(back.subrange(inputs.len() as int, inputs.len() as int + 4) =~= lock_time);
    lemma_transaction_decoding_head(tx.version, count, back);
    lemma_concat_assoc(head + inputs, lock_time, rest);
    lemma_concat_assoc(head, inputs, lock_time + rest);
}

/// The encoding of a transaction, cut short by `cut` bytes, does not decode.
pub proof fn transaction_truncated(tx: TransactionView, cut: nat)
    requires
        tx.wf(),
        1 <= cut <= transaction_encoding(tx).len(),
    ensures
        transaction_decoding(
            transaction_encoding(tx).take(transaction_encoding(tx).len() - cut),
        ) is None,
{
    let count = tx.inputs.len() as u64;
    let version = le_bytes(tx.version as nat, 4);
    let prefix = compact_size_encoding(count);
    let inputs = inputs_encoding(tx.inputs);
    let lock_time = le_bytes(tx.lock_time as nat, 4);
    let encoded = transaction_encoding(tx);
    let kept = encoded.len() - cut;
    lemma_le_bytes_len(tx.version as nat, 4);
    lemma_le_bytes_len(tx.lock_time as nat, 4);
    compact_size_encoding_width(count);
    assert(encoded =~= version + (prefix + (inputs + lock_time)));
    if kept >= 4 {
        lemma_take_beyond(version, prefix + (inputs + lock_time), kept);
        let after_version = kept - 4;
        if after_version < prefix.len() {
            lemma_take_within(prefix, inputs + lock_time, after_version);
            lemma_skip_front(version, prefix.take(after_version));
            compact_size_truncated(count, (prefix.len() - after_version) as nat);
        } else {
            lemma_take_beyond(prefix, inputs + lock_time, after_version);
            let after_count = after_version - prefix.len();
            let back = (inputs + lock_time).take(after_count);
            assert(encoded.take(kept) =~= version + prefix + back);
            lemma_transaction_decoding_head(tx.version, count, back);
            if after_count < inputs.len() {
                lemma_take_within(inputs, lock_time, after_count);
                inputs_truncated(tx.inputs, (inputs.len() - after_count) as nat);
            } else {
                lemma_take_beyond(inputs, lock_time, after_count);
                inputs_round_trip(tx.inputs, lock_time.take(after_count - inputs.len()));
            }
        }
    }
}

} // verus!
