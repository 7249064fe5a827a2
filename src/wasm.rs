//! Helpers of the WebAssembly backend: memory-alignment immediates, block copies between
//! linear-memory locations, rounding to alignment, and LEB-128 integers in arena vectors.
use vstd::prelude::*;
use crate::leb128::{encoded_len_u64, leb128, lemma_leb128_u64_len};

verus! {

/// The index of a local variable of a WebAssembly function.
#[derive(Clone, Copy, Debug, PartialEq, Eq, Structural)]
pub struct LocalId(pub u32);

/// The alignment immediate of a load or store.
#[derive(Clone, Copy, Debug, PartialEq, Eq)]
pub enum Align {
    Bytes1,
    Bytes2,
    Bytes4,
    Bytes8,
}

/// Alignments, in bytes, that loads and stores accept.
pub open spec fn is_encodable_alignment(bytes: u32) -> bool {
    bytes == 1 || bytes == 2 || bytes == 4 || bytes == 8
}

/// The alignment immediate of an alignment of `bytes`.
pub open spec fn align_of_bytes(bytes: u32) -> Align {
    if bytes == 1 {
        Align::Bytes1
    } else if bytes == 2 {
        Align::Bytes2
    } else if bytes == 4 {
        Align::Bytes4
    } else {
        Align::Bytes8
    }
}

/// The alignment immediate for an alignment of `bytes`.
pub fn encode_alignment(bytes: u32) -> (r: Align)
    requires
        is_encodable_alignment(bytes),
    ensures
        r == align_of_bytes(bytes),
{
    match bytes {
        1 => Align::Bytes1,
        2 => Align::Bytes2,
        4 => Align::Bytes4,
        _ => Align::Bytes8,
    }
}

/// The instructions that the backend emits.
#[derive(Clone, Copy, Debug, PartialEq, Eq)]
pub enum Instruction {
    GetLocal(LocalId),
    I64Load(Align, u32),
    I64Store(Align, u32),
    I32Load(Align, u32),
    I32Store(Align, u32),
    I32Load8U(Align, u32),
    I32Store8(Align, u32),
}

/// The code of a function under construction.
#[derive(Debug)]
pub struct FunctionBuilder {
    pub code: Vec<Instruction>,
}

impl FunctionBuilder {
    /// A function with no code yet.
    pub fn new() -> (r: FunctionBuilder)
        ensures
            r.code@.len() == 0,
    {
        FunctionBuilder { code: Vec::new() }
    }

    /// Appends one instruction.
    pub fn push(&mut self, i: Instruction)
        ensures
            final(self).code@ == old(self).code@.push(i),
    {
        self.code.push(i);
    }
}

/// Where a block copy reads, where it writes, how many bytes, and their alignment.
#[derive(Clone, Copy, Debug)]
pub struct CopyMemoryConfig {
    pub from_ptr: LocalId,
    pub from_offset: u32,
    pub to_ptr: LocalId,
    pub to_offset: u32,
    pub size: u32,
    pub alignment_bytes: u32,
}

/// Instructions that move `width` bytes (8, 4 or 1) at `i` bytes into the block.
pub open spec fn move_code(c: CopyMemoryConfig, i: nat, width: nat) -> Seq<Instruction> {
    let al = align_of_bytes(c.alignment_bytes);
    let from = (i + c.from_offset) as u32;
    let to = (i + c.to_offset) as u32;
    seq![Instruction::GetLocal(c.to_ptr), Instruction::GetLocal(c.from_ptr)] + if width == 8 {
        seq![Instruction::I64Load(al, from), Instruction::I64Store(al, to)]
    } else if width == 4 {
        seq![Instruction::I32Load(al, from), Instruction::I32Store(al, to)]
    } else {
        seq![Instruction::I32Load8U(al, from), Instruction::I32Store8(al, to)]
    }
}

/// Moves of `width` bytes each, `k` of them, from `start` on.
pub open spec fn moves_code(c: CopyMemoryConfig, start: nat, width: nat, k: nat) -> Seq<Instruction>
    decreases k,
{
    if k == 0 {
        Seq::empty()
    } else {
        moves_code(c, start, width, (k - 1) as nat) + move_code(c, (start + (k - 1) * width) as nat, width)
    }
}

/// The code of a block copy: nothing when source and destination coincide; otherwise
/// eight-byte moves while eight bytes remain, one four-byte move if four remain, and
/// single bytes for the rest.
pub open spec fn copy_code(c: CopyMemoryConfig) -> Seq<Instruction> {
    if c.from_ptr == c.to_ptr && c.from_offset == c.to_offset {
        Seq::empty()
    } else {
        let n8 = c.size as nat / 8;
        let after8 = 8 * n8;
        let has4 = c.size - after8 >= 4;
        let after4: nat = if has4 {
            after8 + 4
        } else {
            after8
        };
        moves_code(c, 0, 8, n8) + (if has4 {
            move_code(c, after8, 4)
        } else {
            Seq::empty()
        }) + moves_code(c, after4, 1, (c.size - after4) as nat)
    }
}

/// Appends to `code_builder` the instructions that copy `config.size` bytes from
/// `from_ptr + from_offset` to `to_ptr + to_offset`.
pub fn copy_memory(code_builder: &mut FunctionBuilder, config: CopyMemoryConfig)
    requires
        (config.from_ptr == config.to_ptr && config.from_offset == config.to_offset) || {
            &&& is_encodable_alignment(config.alignment_bytes)
            &&& config.from_offset + config.size <= u32::MAX
            &&& config.to_offset + config.size <= u32::MAX
        },
    ensures
        final(code_builder).code@ == old(code_builder).code@ + copy_code(config),
{
    if config.from_ptr == config.to_ptr && config.from_offset == config.to_offset {
        assert(old(code_builder).code@ + copy_code(config) =~= old(code_builder).code@);
        return;
    }
    let alignment = encode_alignment(config.alignment_bytes);
    let ghost start = code_builder.code@;
    let mut i: u32 = 0;
    while config.size - i >= 8
        invariant
            i <= config.size,
            i % 8 == 0,
            i <= 8 * (config.size as nat / 8),
            config.from_offset + config.size <= u32::MAX,
            config.to_offset + config.size <= u32::MAX,
            alignment == align_of_bytes(config.alignment_bytes),
            code_builder.code@ == start + moves_code(config, 0, 8, i as nat / 8),
        decreases config.size - i,
    {
        code_builder.push(Instruction::GetLocal(config.to_ptr));
        code_builder.push(Instruction::GetLocal(config.from_ptr));
        code_builder.push(Instruction::I64Load(alignment, i + config.from_offset));
        code_builder.push(Instruction::I64Store(alignment, i + config.to_offset));
        assert(code_builder.code@ =~= start + moves_code(config, 0, 8, (i + 8) as nat / 8));
        i += 8;
    }
    let ghost after8 = code_builder.code@;
    let ghost has4 = config.size - i >= 4;
    if config.size - i >= 4 {
        code_builder.push(Instruction::GetLocal(config.to_ptr));
        code_builder.push(Instruction::GetLocal(config.from_ptr));
        code_builder.push(Instruction::I32Load(alignment, i + config.from_offset));
        code_builder.push(Instruction::I32Store(alignment, i + config.to_offset));
        assert(code_builder.code@ =~= after8 + move_code(config, i as nat, 4));
        i += 4;
    } else {
        assert(code_builder.code@ =~= after8 + Seq::<Instruction>::empty());
    }
    let ghost after4 = i;
    let ghost mid = code_builder.code@;
    while config.size - i > 0
        invariant
            after4 <= i <= config.size,
            config.from_offset + config.size <= u32::MAX,
            config.to_offset + config.size <= u32::MAX,
            alignment == align_of_bytes(config.alignment_bytes),
            code_builder.code@ == mid + moves_code(config, after4 as nat, 1, (i - after4) as nat),
        decreases config.size - i,
    {
        code_builder.push(Instruction::GetLocal(config.to_ptr));
        code_builder.push(Instruction::GetLocal(config.from_ptr));
        code_builder.push(Instruction::I32Load8U(alignment, i + config.from_offset));
        code_builder.push(Instruction::I32Store8(alignment, i + config.to_offset));
        assert(code_builder.code@ =~= mid + moves_code(config, after4 as nat, 1, (i + 1 - after4) as nat));
        i += 1;
    }
    assert(code_builder.code@ =~= old(code_builder).code@ + copy_code(config));
}

/// Whether `a` is a positive power of two.
pub open spec fn is_power_of_two(a: i32) -> bool {
    a > 0 && a & ((a - 1) as i32) == 0
}

/// `x` rounded up to a multiple of the power of two `a`, by adding `a - 1` and clearing
/// the bits below `a`.
pub open spec fn rounded_up(x: i32, a: i32) -> i32 {
    ((x + (a - 1)) as i32) & ((-a) as i32)
}

/// Adding `a - 1` and clearing the bits below the power of two `a` rounds up.
proof fn lemma_round_up(x: i32, a: i32)
    by (bit_vector)
    requires
        a > 0,
        a & ((a - 1) as i32) == 0,
        x <= 0x7fff_ffff - (a - 1),
    ensures
        x <= rounded_up(x, a),
        rounded_up(x, a) - x < a,
        rounded_up(x, a) & ((a - 1) as i32) == 0,
{
}

/// Rounds `unaligned` up to the next multiple of `alignment_bytes`, a power of two: the
/// least value at or above it whose bits below the alignment are clear.
pub fn round_up_to_alignment(unaligned: i32, alignment_bytes: i32) -> (r: i32)
    requires
        is_power_of_two(alignment_bytes),
        unaligned + alignment_bytes - 1 <= i32::MAX,
    ensures
        unaligned <= r < unaligned + alignment_bytes,
        r & ((alignment_bytes - 1) as i32) == 0,
{
    proof {
        lemma_round_up(unaligned, alignment_bytes);
    }
    let mut aligned = unaligned;
    aligned += alignment_bytes - 1;
    aligned &= -alignment_bytes;
    aligned
}

#[verifier::external_type_specification]
#[verifier::external_body]
#[verifier::reject_recursive_types(T)]
pub struct ExBumpVec<'bump, T>(bumpalo::collections::Vec<'bump, T>);

/// The bytes that an arena vector holds.
pub uninterp spec fn bump_bytes(v: bumpalo::collections::Vec<'_, u8>) -> Seq<u8>;

/// Relies on `bumpalo::collections::Vec::len`: the number of elements.
#[verifier::external_body]
fn bump_len(v: &bumpalo::collections::Vec<'_, u8>) -> (r: usize)
    ensures
        r == bump_bytes(*v).len(),
{
    v.len()
}

/// Relies on `IndexMut` of `bumpalo::collections::Vec` (through its slice): replaces the
/// element at `i`, which must be in bounds.
#[verifier::external_body]
fn bump_set(v: &mut bumpalo::collections::Vec<'_, u8>, i: usize, b: u8)
    requires
        i < bump_bytes(*old(v)).len(),
    ensures
        bump_bytes(*final(v)) == bump_bytes(*old(v)).update(i as int, b),
{
    v[i] = b;
}

/// Writes `value` as LEB-128 bytes at the start of the arena vector `buffer`, returning
/// how many bytes were written. The rest of the buffer is left as it was.
pub fn encode_u64(buffer: &mut bumpalo::collections::Vec<'_, u8>, value: u64) -> (count: usize)
    requires
        bump_bytes(*old(buffer)).len() >= leb128(value as nat).len(),
    ensures
        count == leb128(value as nat).len(),
        bump_bytes(*final(buffer)).len() == bump_bytes(*old(buffer)).len(),
        bump_bytes(*final(buffer)).subrange(0, count as int) == leb128(value as nat),
        bump_bytes(*final(buffer)).subrange(count as int, bump_bytes(*final(buffer)).len() as int)
            == bump_bytes(*old(buffer)).subrange(count as int, bump_bytes(*old(buffer)).len() as int),
{
    let ghost v0 = value as nat;
    let ghost b0 = bump_bytes(*buffer);
    proof {
        lemma_leb128_u64_len(value);
    }
    let mut value = value;
    let mut count: usize = 0;
    while value >= 0x80
        invariant
            bump_bytes(*buffer).len() == b0.len(),
            b0.len() >= leb128(v0).len(),
            leb128(v0).len() <= 10,
            bump_bytes(*buffer).subrange(0, count as int) + leb128(value as nat) == leb128(v0),
            count + leb128(value as nat).len() == leb128(v0).len(),
            forall|j: int| count <= j < b0.len() ==> bump_bytes(*buffer)[j] == b0[j],
        decreases value,
    {
        let byte: u8 = 0x80 | ((value & 0x7f) as u8);
        assert(byte == 128 + value % 128) by (bit_vector)
            requires
                byte == 0x80 | ((value & 0x7f) as u8),
        ;
        assert(value >> 7 == value / 128) by (bit_vector);
        let ghost pre = bump_bytes(*buffer).subrange(0, count as int);
        bump_set(buffer, count, byte);
        value = value >> 7;
        count = count + 1;
        assert(bump_bytes(*buffer).subrange(0, count as int) =~= pre.push(byte));
        assert(pre.push(byte) + leb128(value as nat) =~= pre + (seq![byte] + leb128(value as nat)));
    }
    let ghost pre = bump_bytes(*buffer).subrange(0, count as int);
    bump_set(buffer, count, value as u8);
    assert(bump_bytes(*buffer).subrange(0, count + 1) =~= pre.push(value as u8));
    assert(bump_bytes(*buffer).subrange(count + 1, b0.len() as int) =~= b0.subrange(
        count + 1,
        b0.len() as int,
    ));
    count + 1
}

/// Writes `value` as LEB-128 bytes at the start of `buffer` when they fit, returning how
/// many were written; returns `None`, leaving the buffer as it was, when they do not.
pub fn try_encode_u64(buffer: &mut bumpalo::collections::Vec<'_, u8>, value: u64) -> (r: Option<usize>)
    ensures
        r is None <==> bump_bytes(*old(buffer)).len() < leb128(value as nat).len(),
        r is None ==> bump_bytes(*final(buffer)) == bump_bytes(*old(buffer)),
        r is Some ==> {
            let count = r->Some_0;
            &&& count == leb128(value as nat).len()
            &&& bump_bytes(*final(buffer)).len() == bump_bytes(*old(buffer)).len()
            &&& bump_bytes(*final(buffer)).subrange(0, count as int) == leb128(value as nat)
            &&& bump_bytes(*final(buffer)).subrange(count as int, bump_bytes(*final(buffer)).len() as int)
                == bump_bytes(*old(buffer)).subrange(count as int, bump_bytes(*old(buffer)).len() as int)
        },
{
    let needed = encoded_len_u64(value);
    if bump_len(buffer) < needed {
        None
    } else {
        Some(encode_u64(buffer, value))
    }
}

} // verus!
