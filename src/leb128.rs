//! LEB-128 encoding of unsigned integers, as WebAssembly uses for every integer.
use vstd::prelude::*;

verus! {

/// The LEB-128 bytes of `v`: seven payload bits per byte, lowest first, with the top bit
/// set on every byte but the last.
pub open spec fn leb128(v: nat) -> Seq<u8>
    decreases v,
{
    if v < 128 {
        seq![v as u8]
    } else {
        seq![(128 + v % 128) as u8] + leb128(v / 128)
    }
}

/// A value below `128^k` takes at most `k` bytes.
pub proof fn lemma_leb128_len(v: nat, k: nat)
    requires
        k >= 1,
        v < pow128(k),
    ensures
        leb128(v).len() <= k,
    decreases v,
{
    if v >= 128 {
        assert(k >= 2) by {
            if k < 2 {
                assert(pow128(1) == 128 * pow128(0));
            }
        }
        assert(pow128(k) == 128 * pow128((k - 1) as nat));
        assert(v / 128 < pow128((k - 1) as nat));
        lemma_leb128_len(v / 128, (k - 1) as nat);
    }
}

/// `128` to the power `k`.
pub open spec fn pow128(k: nat) -> nat
    decreases k,
{
    if k == 0 {
        1
    } else {
        128 * pow128((k - 1) as nat)
    }
}

/// Every `u32` fits in five bytes.
pub proof fn lemma_leb128_u32_len(v: u32)
    ensures
        leb128(v as nat).len() <= 5,
{
    reveal_with_fuel(pow128, 6);
    lemma_leb128_len(v as nat, 5);
}

/// Every `u64` fits in ten bytes.
pub proof fn lemma_leb128_u64_len(v: u64)
    ensures
        leb128(v as nat).len() <= 10,
{
    reveal_with_fuel(pow128, 11);
    lemma_leb128_len(v as nat, 10);
}

/// Write `value` as LEB-128 bytes at the start of `buffer`, returning how many bytes
/// were written. The rest of the buffer is left as it was.
pub fn encode_u32(buffer: &mut [u8], value: u32) -> (count: usize)
    requires
        old(buffer)@.len() >= leb128(value as nat).len(),
    ensures
        count == leb128(value as nat).len(),
        final(buffer)@.len() == old(buffer)@.len(),
        final(buffer)@.subrange(0, count as int) == leb128(value as nat),
        final(buffer)@.subrange(count as int, final(buffer)@.len() as int)
            == old(buffer)@.subrange(count as int, old(buffer)@.len() as int),
{
    let ghost v0 = value as nat;
    let ghost b0 = buffer@;
    let mut value = value;
    let mut count: usize = 0;
    while value >= 0x80
        invariant
            buffer@.len() == b0.len(),
            b0.len() >= leb128(v0).len(),
            buffer@.subrange(0, count as int) + leb128(value as nat) == leb128(v0),
            count + leb128(value as nat).len() == leb128(v0).len(),
            forall|j: int| count <= j < b0.len() ==> buffer@[j] == b0[j],
        decreases value,
    {
        let byte: u8 = 0x80 | ((value & 0x7f) as u8);
        assert(byte == 128 + value % 128) by (bit_vector)
            requires
                byte == 0x80 | ((value & 0x7f) as u8),
        ;
        assert(value >> 7 == value / 128) by (bit_vector);
        let ghost pre = buffer@.subrange(0, count as int);
        buffer[count] = byte;
        value = value >> 7;
        count = count + 1;
        assert(buffer@.subrange(0, count as int) =~= pre.push(byte));
        assert(pre.push(byte) + leb128(value as nat) =~= pre + (seq![byte] + leb128(value as nat)));
    }
    let ghost pre = buffer@.subrange(0, count as int);
    buffer[count] = value as u8;
    assert(buffer@.subrange(0, count + 1) =~= pre.push(value as u8));
    assert(buffer@.subrange(count + 1, buffer@.len() as int) =~= b0.subrange(count + 1, b0.len() as int));
    count + 1
}

/// Number of LEB-128 bytes of `value`.
pub fn encoded_len_u64(value: u64) -> (r: usize)
    ensures
        r == leb128(value as nat).len(),
        r <= 10,
{
    proof {
        lemma_leb128_u64_len(value);
    }
    let ghost v0 = value as nat;
    let mut value = value;
    let mut count: usize = 1;
    while value >= 0x80
        invariant
            count + leb128(value as nat).len() == leb128(v0).len() + 1,
            leb128(v0).len() <= 10,
        decreases value,
    {
        assert(value >> 7 == value / 128) by (bit_vector);
        value = value >> 7;
        count = count + 1;
    }
    count
}

} // verus!
