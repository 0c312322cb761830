//! The text view of a transaction: one labelled line for each field, for a
//! person to read. Nothing reads this form back.

use vstd::prelude::*;
use vstd::string::StringExecFns;
use crate::hex_text::{hex_encode, hex_text};
use crate::input::{InputView, TransactionInput};
use crate::transaction::{input_views, BitcoinTransaction, TransactionView};

verus! {

/// The character for a number below ten.
pub open spec fn decimal_digit(d: int) -> char {
    seq!['0', '1', '2', '3', '4', '5', '6', '7', '8', '9'][d]
}

/// `n` in decimal, most significant digit first, with no leading zero.
pub open spec fn decimal_text(n: nat) -> Seq<char>
    decreases n,
{
    if n < 10 {
        seq![decimal_digit(n as int)]
    } else {
        decimal_text(n / 10).push(decimal_digit((n % 10) as int))
    }
}

/// A line of the view: the label, a colon and a space, the value, a line feed.
pub open spec fn text_line(label: Seq<char>, value: Seq<char>) -> Seq<char> {
    label + ": "@ + value + "\n"@
}

/// The four lines of one input: the index of the output it spends, the length
/// of its script, the script in lowercase hexadecimal, and its sequence number.
pub open spec fn input_text(input: InputView) -> Seq<char> {
    text_line("Previous Output Vout"@, decimal_text(input.previous_output.vout as nat))
        + text_line("ScriptSig Length"@, decimal_text(input.script_sig.len())) + text_line(
        "ScriptSig"@,
        hex_text(input.script_sig),
    ) + text_line("Sequence"@, decimal_text(input.sequence as nat))
}

/// The lines of `inputs` one after another, in order.
pub open spec fn inputs_text(inputs: Seq<InputView>) -> Seq<char>
    decreases inputs.len(),
{
    if inputs.len() == 0 {
        Seq::empty()
    } else {
        input_text(inputs[0]) + inputs_text(inputs.skip(1))
    }
}

/// The version line, the lines of every input in order, and the lock time line.
pub open spec fn transaction_text(tx: TransactionView) -> Seq<char> {
    text_line("Version"@, decimal_text(tx.version as nat)) + inputs_text(tx.inputs) + text_line(
        "Lock Time"@,
        decimal_text(tx.lock_time as nat),
    )
}

/// The lines of one more input at the end come last.
pub proof fn lemma_inputs_text_push(inputs: Seq<InputView>, last: InputView)
    ensures
        inputs_text(inputs.push(last)) == inputs_text(inputs) + input_text(last),
    decreases inputs.len(),
{
    let all = inputs.push(last);
    if inputs.len() == 0 {
        assert(all.skip(1) =~= inputs);
    } else {
        lemma_inputs_text_push(inputs.skip(1), last);
        assert(all.skip(1) =~= inputs.skip(1).push(last));
    }
}

/// The one-character text of a number below ten.
fn digit_str(d: u64) -> (text: &'static str)
    requires
        d < 10,
    ensures
        text@ == seq![decimal_digit(d as int)],
{
    proof {
        reveal_strlit("0");
        reveal_strlit("1");
        reveal_strlit("2");
        reveal_strlit("3");
        reveal_strlit("4");
        reveal_strlit("5");
        reveal_strlit("6");
        reveal_strlit("7");
        reveal_strlit("8");
        reveal_strlit("9");
    }
    let text: &'static str = if d == 0 {
        "0"
    } else if d == 1 {
        "1"
    } else if d == 2 {
        "2"
    } else if d == 3 {
        "3"
    } else if d == 4 {
        "4"
    } else if d == 5 {
        "5"
    } else if d == 6 {
        "6"
    } else if d == 7 {
        "7"
    } else if d == 8 {
        "8"
    } else {
        "9"
    };
    text
}

/// Appends `n` in decimal to `out`.
pub fn append_decimal(out: &mut String, n: u64)
    ensures
        final(out)@ == old(out)@ + decimal_text(n as nat),
    decreases n,
{
    if n >= 10 {
        append_decimal(out, n / 10);
    }
    out.append(digit_str(n % 10));
}

/// Appends a line with a number for its value to `out`.
fn append_number_line(out: &mut String, label: &str, n: u64)
    ensures
        final(out)@ == old(out)@ + text_line(label@, decimal_text(n as nat)),
{
    out.append(label);
    out.append(": ");
    append_decimal(out, n);
    out.append("\n");
}

impl TransactionInput {
    /// Appends the four lines of this input to `out`.
    fn append_text(&self, out: &mut String)
        ensures
            final(out)@ == old(out)@ + input_text(self@),
    {
        append_number_line(out, "Previous Output Vout", self.previous_output.vout as u64);
        append_number_line(out, "ScriptSig Length", self.script_sig.bytes.len() as u64);
        let script: String = hex_encode(self.script_sig.bytes.as_slice());
        out.append("ScriptSig");
        out.append(": ");
        out.append(script.as_str());
        out.append("\n");
        append_number_line(out, "Sequence", self.sequence as u64);
    }
}

impl BitcoinTransaction {
    /// The text view of the transaction.
    pub fn render(&self) -> (text: String)
        ensures
            text@ == transaction_text(self@),
    {
        let mut out: String = String::new();
        append_number_line(&mut out, "Version", self.version as u64);
        let ghost head = out@;
        let mut i: usize = 0;
        while i < self.inputs.len()
            invariant
                i <= self.inputs.len(),
                out@ == head + inputs_text(input_views(self.inputs@.take(i as int))),
            decreases self.inputs.len() - i,
        {
            let ghost before = input_views(self.inputs@.take(i as int));
            proof {
                lemma_inputs_text_push(before, self.inputs@[i as int]@);
                assert(input_views(self.inputs@.take(i + 1)) =~= before.push(
                    self.inputs@[i as int]@,
                ));
            }
            self.inputs[i].append_text(&mut out);
            i = i + 1;
        }
        proof {
            assert(self.inputs@.take(i as int) =~= self.inputs@);
        }
        append_number_line(&mut out, "Lock Time", self.lock_time as u64);
        out
    }
}

} // verus!
