//! Fixed-width unsigned integers in little-endian byte order.

use vstd::prelude::*;

verus! {

/// The `width` low-order bytes of `v`, least significant first.
pub open spec fn le_bytes(v: nat, width: nat) -> Seq<u8>
    decreases width,
{
    if width == 0 {
        Seq::empty()
    } else {
        seq![(v % 256) as u8] + le_bytes(v / 256, (width - 1) as nat)
    }
}

/// The number whose little-endian bytes are `bytes`.
pub open spec fn le_value(bytes: Seq<u8>) -> nat
    decreases bytes.len(),
{
    if bytes.len() == 0 {
        0
    } else {
        bytes[0] as nat + 256 * le_value(bytes.skip(1))
    }
}

/// The number of values that `width` bytes can hold: 256 to the power `width`.
pub open spec fn byte_radix(width: nat) -> nat
    decreases width,
{
    if width == 0 {
        1
    } else {
        256 * byte_radix((width - 1) as nat)
    }
}

/// The radix of the three widths that the wire format uses.
pub proof fn lemma_byte_radix_values()
    ensures
        byte_radix(2) == 0x1_0000,
        byte_radix(4) == 0x1_0000_0000,
        byte_radix(8) == 0x1_0000_0000_0000_0000,
{
    reveal_with_fuel(byte_radix, 9);
}

/// More bytes hold at least as many values.
pub proof fn lemma_byte_radix_monotone(narrow: nat, wide: nat)
    requires
        narrow <= wide,
    ensures
        byte_radix(narrow) <= byte_radix(wide),
    decreases wide,
{
    if narrow < wide {
        lemma_byte_radix_monotone(narrow, (wide - 1) as nat);
    }
}

/// `le_bytes` yields exactly `width` bytes.
pub proof fn lemma_le_bytes_len(v: nat, width: nat)
    ensures
        le_bytes(v, width).len() == width,
    decreases width,
{
    if width > 0 {
        lemma_le_bytes_len(v / 256, (width - 1) as nat);
    }
}

/// A byte sequence stands for a number below the radix of its length.
pub proof fn lemma_le_value_bound(bytes: Seq<u8>)
    ensures
        le_value(bytes) < byte_radix(bytes.len()),
    decreases bytes.len(),
{
    if bytes.len() > 0 {
        lemma_le_value_bound(bytes.skip(1));
    }
}

/// Reading back the bytes of a number that fits in `width` bytes gives the number.
pub proof fn lemma_le_value_of_bytes(v: nat, width: nat)
    requires
        v < byte_radix(width),
    ensures
        le_value(le_bytes(v, width)) == v,
    decreases width,
{
    if width > 0 {
        let rest = le_bytes(v / 256, (width - 1) as nat);
        lemma_le_value_of_bytes(v / 256, (width - 1) as nat);
        assert(le_bytes(v, width).skip(1) =~= rest);
    }
}

/// Appends the `width` low-order bytes of `v` to `out`, least significant first.
pub fn push_le(out: &mut Vec<u8>, v: u64, width: usize)
    ensures
        final(out)@ == old(out)@ + le_bytes(v as nat, width as nat),
{
    let ghost start = out@;
    let mut rest: u64 = v;
    let mut written: usize = 0;
    while written < width
        invariant
            written <= width,
            out@ + le_bytes(rest as nat, (width - written) as nat) == start + le_bytes(
                v as nat,
                width as nat,
            ),
        decreases width - written,
    {
        out.push((rest % 256) as u8);
        rest = rest / 256;
        written = written + 1;
    }
}

/// Reads the `width` bytes at `at` as a little-endian number.
pub(crate) fn read_le(bytes: &[u8], at: usize, width: usize) -> (v: u64)
    requires
        width <= 8,
        at + width <= bytes.len(),
    ensures
        v as nat == le_value(bytes@.subrange(at as int, at + width)),
{
    let mut acc: u64 = 0;
    let mut left: usize = width;
    while left > 0
        invariant
            left <= width <= 8,
            at + width <= bytes.len(),
            acc as nat == le_value(bytes@.subrange(at + left, at + width)),
        decreases left,
    {
        proof {
            lemma_le_value_bound(bytes@.subrange(at + left, at + width));
            reveal_with_fuel(byte_radix, 8);
        }
        left = left - 1;
        acc = acc * 256 + bytes[at + left] as u64;
        proof {
            let field = bytes@.subrange(at + left, at + width);
            assert(field.skip(1) =~= bytes@.subrange(at + left + 1, at + width));
        }
    }
    acc
}

/// Reads the four bytes at `at` as a little-endian number.
pub(crate) fn read_u32_le(bytes: &[u8], at: usize) -> (v: u32)
    requires
        at + 4 <= bytes.len(),
    ensures
        v as nat == le_value(bytes@.subrange(at as int, at + 4)),
{
    proof {
        lemma_le_value_bound(bytes@.subrange(at as int, at + 4));
        lemma_byte_radix_values();
    }
    read_le(bytes, at, 4) as u32
}

} // verus!
