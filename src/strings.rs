//! String literals: short ones are stored inline with their length in the last byte,
//! longer ones live once each in a table of read-only buffers shared by the module.
use vstd::prelude::*;
use crate::layout::valid_ptr_width;

verus! {

broadcast use {vstd::std_specs::vec::group_vec_axioms, vstd::seq::group_seq_axioms};

/// A string literal as generated code holds it.
#[derive(Debug)]
pub enum StrValue {
    /// The `2 * pw` inline bytes of a short string.
    Small(Vec<u8>),
    /// The read-only buffer `global` of the literal table, and the length.
    Big { global: usize, len: usize },
}

/// The inline bytes of the short string `s` in `size` bytes: its bytes, zeros, and its
/// length with the top bit set as the last byte.
pub open spec fn small_str_bytes(s: Seq<u8>, size: nat) -> Seq<u8> {
    s + Seq::new((size - 1 - s.len()) as nat, |i: int| 0u8) + seq![(s.len() + 128) as u8]
}

/// The read-only buffers of a module, each content once.
#[derive(Debug)]
pub struct LiteralTable {
    entries: Vec<Vec<u8>>,
}

impl LiteralTable {
    /// The buffers, in order of first use.
    pub closed spec fn view_entries(&self) -> Seq<Seq<u8>> {
        self.entries@.map_values(|e: Vec<u8>| e@)
    }

    /// No content is held twice.
    pub open spec fn wf(&self) -> bool {
        self.view_entries().no_duplicates()
    }

    /// An empty table.
    pub fn new() -> (r: LiteralTable)
        ensures
            r.view_entries().len() == 0,
            r.wf(),
    {
        LiteralTable { entries: Vec::new() }
    }

    /// Number of buffers.
    pub fn len(&self) -> (r: usize)
        ensures
            r == self.view_entries().len(),
    {
        self.entries.len()
    }

    /// The buffer holding `bytes`, added when no buffer holds them yet.
    pub fn intern(&mut self, bytes: &Vec<u8>) -> (r: usize)
        requires
            old(self).wf(),
        ensures
            final(self).wf(),
            r < final(self).view_entries().len(),
            final(self).view_entries()[r as int] == bytes@,
            old(self).view_entries().contains(bytes@) ==> final(self).view_entries() == old(self).view_entries(),
            !old(self).view_entries().contains(bytes@) ==> final(self).view_entries() == old(self).view_entries().push(bytes@),
    {
        let mut i: usize = 0;
        while i < self.entries.len()
            invariant
                i <= self.entries@.len(),
                self.view_entries() == old(self).view_entries(),
                self.wf(),
                forall|j: int| 0 <= j < i ==> self.view_entries()[j] != bytes@,
            decreases self.entries@.len() - i,
        {
            if bytes_equal(&self.entries[i], bytes) {
                assert(self.view_entries()[i as int] == bytes@);
                return i;
            }
            i = i + 1;
        }
        let mut copy: Vec<u8> = Vec::new();
        let mut k: usize = 0;
        while k < bytes.len()
            invariant
                k <= bytes@.len(),
                copy@ == bytes@.subrange(0, k as int),
            decreases bytes@.len() - k,
        {
            copy.push(bytes[k]);
            k = k + 1;
            assert(copy@ =~= bytes@.subrange(0, k as int));
        }
        assert(bytes@.subrange(0, bytes@.len() as int) =~= bytes@);
        let ghost before = self.view_entries();
        assert(!before.contains(bytes@));
        self.entries.push(copy);
        assert(self.view_entries() =~= before.push(bytes@));
        i
    }
}

/// Whether `a` and `b` hold the same bytes.
fn bytes_equal(a: &Vec<u8>, b: &Vec<u8>) -> (r: bool)
    ensures
        r == (a@ == b@),
{
    if a.len() != b.len() {
        return false;
    }
    let mut i: usize = 0;
    while i < a.len()
        invariant
            a@.len() == b@.len(),
            i <= a@.len(),
            forall|j: int| 0 <= j < i ==> a@[j] == b@[j],
        decreases a@.len() - i,
    {
        if a[i] != b[i] {
            return false;
        }
        i = i + 1;
    }
    assert(a@ =~= b@);
    true
}

/// Materializes the string literal `bytes`: inline when shorter than two machine words,
/// else as the buffer of the literal table that holds its bytes.
pub fn str_literal(bytes: &Vec<u8>, pw: u64, table: &mut LiteralTable) -> (r: StrValue)
    requires
        valid_ptr_width(pw as nat),
        old(table).wf(),
    ensures
        final(table).wf(),
        bytes@.len() < 2 * pw ==> r is Small && r->Small_0@ == small_str_bytes(bytes@, 2 * pw as nat)
            && final(table).view_entries() == old(table).view_entries(),
        bytes@.len() >= 2 * pw ==> r is Big && r->len == bytes@.len() && (r->global as int) < final(table).view_entries().len() && final(table).view_entries()[r->global as int] == bytes@,
        bytes@.len() >= 2 * pw ==> if old(table).view_entries().contains(bytes@) {
            final(table).view_entries() == old(table).view_entries()
        } else {
            final(table).view_entries() == old(table).view_entries().push(bytes@)
        },
{
    let size = (2 * pw) as usize;
    if bytes.len() < size {
        let mut inline: Vec<u8> = Vec::new();
        let mut i: usize = 0;
        while i < bytes.len()
            invariant
                i <= bytes@.len(),
                inline@ == bytes@.subrange(0, i as int),
            decreases bytes@.len() - i,
        {
            inline.push(bytes[i]);
            i = i + 1;
            assert(inline@ =~= bytes@.subrange(0, i as int));
        }
        assert(bytes@.subrange(0, bytes@.len() as int) =~= bytes@);
        let ghost n = bytes@.len();
        while i < size - 1
            invariant
                n <= i <= size - 1,
                size == 2 * pw,
                inline@ == bytes@ + Seq::new((i - n) as nat, |j: int| 0u8),
            decreases size - 1 - i,
        {
            inline.push(0);
            i = i + 1;
            assert(inline@ =~= bytes@ + Seq::new((i - n) as nat, |j: int| 0u8));
        }
        let n8: u8 = bytes.len() as u8;
        assert(n8 | 0x80 == (n8 + 128) as u8) by (bit_vector)
            requires
                n8 < 16,
        ;
        inline.push(n8 | 0x80);
        assert(inline@ =~= small_str_bytes(bytes@, 2 * pw as nat));
        StrValue::Small(inline)
    } else {
        let global = table.intern(bytes);
        StrValue::Big { global, len: bytes.len() }
    }
}

/// In a table that holds each content once, two buffers with the same bytes are the same
/// buffer: a literal interned again gets the index it got the first time.
pub proof fn lemma_literal_index_unique(t: LiteralTable, i: int, j: int)
    requires
        t.wf(),
        0 <= i < t.view_entries().len(),
        0 <= j < t.view_entries().len(),
        t.view_entries()[i] == t.view_entries()[j],
    ensures
        i == j,
{
}

} // verus!
