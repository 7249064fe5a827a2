//! The closed set of memory layouts that values are generated under, with their sizes,
//! alignments and whether they hold reference-counted data.
use vstd::prelude::*;

verus! {

broadcast use {vstd::std_specs::vec::group_vec_axioms, vstd::seq::group_seq_axioms};

/// Bytes of the discriminant word that tagged unions store.
pub const TAG_ID_BYTES: u64 = 8;

/// Width of a fixed-size integer.
#[derive(Clone, Copy, Debug, PartialEq, Eq)]
pub enum IntWidth {
    I8,
    I16,
    I32,
    I64,
    I128,
}

/// Width of a floating-point number.
#[derive(Clone, Copy, Debug, PartialEq, Eq)]
pub enum FloatWidth {
    F32,
    F64,
}

impl IntWidth {
    /// Size in bytes.
    pub open spec fn spec_bytes(self) -> nat {
        match self {
            IntWidth::I8 => 1,
            IntWidth::I16 => 2,
            IntWidth::I32 => 4,
            IntWidth::I64 => 8,
            IntWidth::I128 => 16,
        }
    }

    /// Size in bytes.
    pub fn bytes(self) -> (r: u64)
        ensures
            r == self.spec_bytes(),
    {
        match self {
            IntWidth::I8 => 1,
            IntWidth::I16 => 2,
            IntWidth::I32 => 4,
            IntWidth::I64 => 8,
            IntWidth::I128 => 16,
        }
    }
}

impl FloatWidth {
    /// Size in bytes.
    pub open spec fn spec_bytes(self) -> nat {
        match self {
            FloatWidth::F32 => 4,
            FloatWidth::F64 => 8,
        }
    }

    /// Size in bytes.
    pub fn bytes(self) -> (r: u64)
        ensures
            r == self.spec_bytes(),
    {
        match self {
            FloatWidth::F32 => 4,
            FloatWidth::F64 => 8,
        }
    }
}

/// The memory shape of a value.
#[derive(Debug)]
pub enum Layout {
    Int(IntWidth),
    Float(FloatWidth),
    Bool,
    /// A string: pointer and length.
    Str,
    /// A list: pointer to reference-counted elements and length.
    List(Box<Layout>),
    /// Fields in declared order.
    Struct(Vec<Layout>),
    Union(UnionLayout),
    /// A value of the union that encloses this layout, held as a heap pointer.
    RecursivePointer,
}

/// The five shapes of a tagged union.
#[derive(Debug)]
pub enum UnionLayout {
    /// Discriminant and the widest variant's bytes, stored inline.
    NonRecursive(Vec<Vec<Layout>>),
    /// Discriminant and fields behind a reference-counted pointer.
    Recursive(Vec<Vec<Layout>>),
    /// A single variant behind a pointer, with no discriminant.
    NonNullableUnwrapped(Vec<Layout>),
    /// The variant `nullable_id` is the null pointer; the others, in order of their id
    /// with `nullable_id` skipped, store a discriminant and fields behind a pointer.
    NullableWrapped { nullable_id: u64, other_tags: Vec<Vec<Layout>> },
    /// Two variants: the variant 1 when `nullable_is_one`, else 0, is the null pointer, the other
    /// stores its fields behind a pointer with no discriminant.
    NullableUnwrapped { nullable_is_one: bool, other_fields: Vec<Layout> },
}

/// Total size of fields laid out one after another.
pub open spec fn fields_size(fs: Seq<Layout>, pw: nat) -> nat
    decreases fs,
{
    if fs.len() == 0 {
        0
    } else {
        fields_size(fs.subrange(0, fs.len() - 1), pw) + fs[fs.len() - 1].size(pw)
    }
}

/// Size of the widest variant.
pub open spec fn widest_variant(tags: Seq<Vec<Layout>>, pw: nat) -> nat
    decreases tags,
{
    if tags.len() == 0 {
        0
    } else {
        let rest = widest_variant(tags.subrange(0, tags.len() - 1), pw);
        let last = fields_size(tags[tags.len() - 1]@, pw);
        if rest >= last {
            rest
        } else {
            last
        }
    }
}

/// Largest alignment among fields, at least one.
pub open spec fn fields_alignment(fs: Seq<Layout>, pw: nat) -> nat
    decreases fs,
{
    if fs.len() == 0 {
        1
    } else {
        let rest = fields_alignment(fs.subrange(0, fs.len() - 1), pw);
        let last = fs[fs.len() - 1].alignment(pw);
        if rest >= last {
            rest
        } else {
            last
        }
    }
}

/// Largest alignment among the fields of all variants, at least one.
pub open spec fn variants_alignment(tags: Seq<Vec<Layout>>, pw: nat) -> nat
    decreases tags,
{
    if tags.len() == 0 {
        1
    } else {
        let rest = variants_alignment(tags.subrange(0, tags.len() - 1), pw);
        let last = fields_alignment(tags[tags.len() - 1]@, pw);
        if rest >= last {
            rest
        } else {
            last
        }
    }
}

/// Whether some field holds reference-counted data.
pub open spec fn fields_refcounted(fs: Seq<Layout>) -> bool
    decreases fs,
{
    if fs.len() == 0 {
        false
    } else {
        fields_refcounted(fs.subrange(0, fs.len() - 1)) || fs[fs.len() - 1].is_refcounted()
    }
}

/// Whether some field of some variant holds reference-counted data.
pub open spec fn variants_refcounted(tags: Seq<Vec<Layout>>) -> bool
    decreases tags,
{
    if tags.len() == 0 {
        false
    } else {
        variants_refcounted(tags.subrange(0, tags.len() - 1)) || fields_refcounted(
            tags[tags.len() - 1]@,
        )
    }
}

/// A prefix of the fields takes no more room than all of them.
pub proof fn lemma_fields_size_prefix(fs: Seq<Layout>, i: int, pw: nat)
    requires
        0 <= i <= fs.len(),
    ensures
        fields_size(fs.subrange(0, i), pw) <= fields_size(fs, pw),
        i < fs.len() ==> fields_size(fs.subrange(0, i + 1), pw) == fields_size(
            fs.subrange(0, i),
            pw,
        ) + fs[i].size(pw),
    decreases fs.len(),
{
    if i < fs.len() {
        assert(fs.subrange(0, i + 1).subrange(0, i) =~= fs.subrange(0, i));
    }
    if i < fs.len() {
        let init = fs.subrange(0, fs.len() - 1);
        assert(fs.subrange(0, i) =~= init.subrange(0, i));
        lemma_fields_size_prefix(init, i, pw);
    } else {
        assert(fs.subrange(0, i) =~= fs);
    }
}

/// No variant is wider than the widest.
pub proof fn lemma_widest_variant_prefix(tags: Seq<Vec<Layout>>, i: int, pw: nat)
    requires
        0 <= i <= tags.len(),
    ensures
        widest_variant(tags.subrange(0, i), pw) <= widest_variant(tags, pw),
        i < tags.len() ==> fields_size(tags[i]@, pw) <= widest_variant(tags, pw),
        i < tags.len() ==> widest_variant(tags.subrange(0, i + 1), pw) == ({
            let rest = widest_variant(tags.subrange(0, i), pw);
            let last = fields_size(tags[i]@, pw);
            if rest >= last {
                rest
            } else {
                last
            }
        }),
    decreases tags.len(),
{
    if i < tags.len() {
        assert(tags.subrange(0, i + 1).subrange(0, i) =~= tags.subrange(0, i));
        let init = tags.subrange(0, tags.len() - 1);
        assert(tags.subrange(0, i) =~= init.subrange(0, i));
        lemma_widest_variant_prefix(init, i, pw);
        if i < init.len() {
            assert(init[i] == tags[i]);
        }
    } else {
        assert(tags.subrange(0, i) =~= tags);
    }
}

/// Sizes of the layouts whose size fits in a `u64`.
pub open spec fn size_fits(l: Layout, pw: nat) -> bool {
    l.size(pw) <= u64::MAX
}

/// Pointer widths of the supported targets, in bytes.
pub open spec fn valid_ptr_width(pw: nat) -> bool {
    pw == 4 || pw == 8
}

/// A prefix of the fields needs no larger alignment than all of them.
pub proof fn lemma_fields_alignment_step(fs: Seq<Layout>, i: int, pw: nat)
    requires
        0 <= i < fs.len(),
    ensures
        fields_alignment(fs.subrange(0, i + 1), pw) == ({
            let rest = fields_alignment(fs.subrange(0, i), pw);
            let last = fs[i].alignment(pw);
            if rest >= last {
                rest
            } else {
                last
            }
        }),
        fields_refcounted(fs.subrange(0, i + 1)) == (fields_refcounted(fs.subrange(0, i))
            || fs[i].is_refcounted()),
{
    assert(fs.subrange(0, i + 1).subrange(0, i) =~= fs.subrange(0, i));
}

/// One more variant in the prefix of the variants.
pub proof fn lemma_variants_step(tags: Seq<Vec<Layout>>, i: int, pw: nat)
    requires
        0 <= i < tags.len(),
    ensures
        variants_alignment(tags.subrange(0, i + 1), pw) == ({
            let rest = variants_alignment(tags.subrange(0, i), pw);
            let last = fields_alignment(tags[i]@, pw);
            if rest >= last {
                rest
            } else {
                last
            }
        }),
        variants_refcounted(tags.subrange(0, i + 1)) == (variants_refcounted(
            tags.subrange(0, i),
        ) || fields_refcounted(tags[i]@)),
{
    assert(tags.subrange(0, i + 1).subrange(0, i) =~= tags.subrange(0, i));
}

/// Largest alignment among `fs`, at least one.
fn fields_alignment_of(fs: &Vec<Layout>, pw: u64, Ghost(parent): Ghost<&Layout>) -> (r: u64)
    requires
        valid_ptr_width(pw as nat),
        forall|j: int| 0 <= j < fs@.len() ==> decreases_to!(parent => fs@[j]),
    ensures
        r == fields_alignment(fs@, pw as nat),
    decreases parent, 0nat,
{
    let mut acc: u64 = 1;
    let mut i: usize = 0;
    while i < fs.len()
        invariant
            i <= fs@.len(),
            valid_ptr_width(pw as nat),
            acc == fields_alignment(fs@.subrange(0, i as int), pw as nat),
            forall|j: int| 0 <= j < fs@.len() ==> decreases_to!(parent => fs@[j]),
        decreases fs.len() - i,
    {
        proof {
            lemma_fields_alignment_step(fs@, i as int, pw as nat);
        }
        let a = fs[i].alignment_bytes(pw);
        if a > acc {
            acc = a;
        }
        i = i + 1;
    }
    assert(fs@.subrange(0, fs@.len() as int) =~= fs@);
    acc
}

/// Whether some layout of `fs` is reference counted.
fn fields_refcounted_of(fs: &Vec<Layout>, Ghost(parent): Ghost<&Layout>) -> (r: bool)
    requires
        forall|j: int| 0 <= j < fs@.len() ==> decreases_to!(parent => fs@[j]),
    ensures
        r == fields_refcounted(fs@),
    decreases parent, 0nat,
{
    let mut i: usize = 0;
    while i < fs.len()
        invariant
            i <= fs@.len(),
            !fields_refcounted(fs@.subrange(0, i as int)),
            forall|j: int| 0 <= j < fs@.len() ==> decreases_to!(parent => fs@[j]),
        decreases fs.len() - i,
    {
        proof {
            lemma_fields_alignment_step(fs@, i as int, 1);
        }
        if fs[i].contains_refcounted() {
            proof {
                lemma_fields_refcounted_prefix(fs@, i as int + 1);
            }
            return true;
        }
        i = i + 1;
    }
    assert(fs@.subrange(0, fs@.len() as int) =~= fs@);
    false
}

/// A reference-counted field in a prefix is one of all the fields.
pub proof fn lemma_fields_refcounted_prefix(fs: Seq<Layout>, i: int)
    requires
        0 <= i <= fs.len(),
        fields_refcounted(fs.subrange(0, i)),
    ensures
        fields_refcounted(fs),
    decreases fs.len(),
{
    if i < fs.len() {
        let init = fs.subrange(0, fs.len() - 1);
        assert(fs.subrange(0, i) =~= init.subrange(0, i));
        lemma_fields_refcounted_prefix(init, i);
    } else {
        assert(fs.subrange(0, i) =~= fs);
    }
}

/// A reference-counted variant in a prefix is one of all the variants.
pub proof fn lemma_variants_refcounted_prefix(tags: Seq<Vec<Layout>>, i: int)
    requires
        0 <= i <= tags.len(),
        variants_refcounted(tags.subrange(0, i)),
    ensures
        variants_refcounted(tags),
    decreases tags.len(),
{
    if i < tags.len() {
        let init = tags.subrange(0, tags.len() - 1);
        assert(tags.subrange(0, i) =~= init.subrange(0, i));
        lemma_variants_refcounted_prefix(init, i);
    } else {
        assert(tags.subrange(0, i) =~= tags);
    }
}

impl Layout {
    /// Bytes that a value of this layout takes on the stack, for pointers of `pw` bytes.
    pub open spec fn size(self, pw: nat) -> nat
        decreases self,
    {
        match self {
            Layout::Int(w) => w.spec_bytes(),
            Layout::Float(w) => w.spec_bytes(),
            Layout::Bool => 1,
            Layout::Str => 2 * pw,
            Layout::List(_) => 2 * pw,
            Layout::Struct(fs) => fields_size(fs@, pw),
            Layout::Union(u) => match u {
                UnionLayout::NonRecursive(tags) => TAG_ID_BYTES as nat + widest_variant(tags@, pw),
                _ => pw,
            },
            Layout::RecursivePointer => pw,
        }
    }

    /// Bytes that a value of this layout takes on the stack.
    pub fn stack_size(&self, pw: u64) -> (r: u64)
        requires
            valid_ptr_width(pw as nat),
            self.size(pw as nat) <= u64::MAX,
        ensures
            r == self.size(pw as nat),
        decreases self, 2nat,
    {
        match self {
            Layout::Int(w) => w.bytes(),
            Layout::Float(w) => w.bytes(),
            Layout::Bool => 1,
            Layout::Str => 2 * pw,
            Layout::List(_) => 2 * pw,
            Layout::Struct(fs) => fields_size_of(fs, pw),
            Layout::Union(u) => match u {
                UnionLayout::NonRecursive(tags) => TAG_ID_BYTES + widest_variant_of(tags, pw),
                _ => pw,
            },
            Layout::RecursivePointer => pw,
        }
    }

    /// Alignment in bytes.
    pub fn alignment_bytes(&self, pw: u64) -> (r: u64)
        requires
            valid_ptr_width(pw as nat),
        ensures
            r == self.alignment(pw as nat),
        decreases self, 1nat,
    {
        match self {
            Layout::Int(w) => w.bytes(),
            Layout::Float(w) => w.bytes(),
            Layout::Bool => 1,
            Layout::Str => pw,
            Layout::List(_) => pw,
            Layout::Struct(fs) => fields_alignment_of(fs, pw, Ghost(self)),
            Layout::Union(u) => match u {
                UnionLayout::NonRecursive(tags) => {
                    let mut acc: u64 = 1;
                    let mut i: usize = 0;
                    while i < tags.len()
                        invariant
                            i <= tags@.len(),
                            valid_ptr_width(pw as nat),
                            acc == variants_alignment(tags@.subrange(0, i as int), pw as nat),
                            forall|j: int, k: int|
                                0 <= j < tags@.len() && 0 <= k < tags@[j]@.len()
                                    ==> decreases_to!(self => tags@[j]@[k]),
                        decreases tags.len() - i,
                    {
                        proof {
                            lemma_variants_step(tags@, i as int, pw as nat);
                        }
                        let a = fields_alignment_of(&tags[i], pw, Ghost(self));
                        if a > acc {
                            acc = a;
                        }
                        i = i + 1;
                    }
                    assert(tags@.subrange(0, tags@.len() as int) =~= tags@);
                    if acc >= TAG_ID_BYTES {
                        acc
                    } else {
                        TAG_ID_BYTES
                    }
                },
                _ => pw,
            },
            Layout::RecursivePointer => pw,
        }
    }

    /// Whether a value of this layout owns reference-counted memory, so that reference
    /// counting work on it cannot be skipped.
    pub fn contains_refcounted(&self) -> (r: bool)
        ensures
            r == self.is_refcounted(),
        decreases self, 1nat,
    {
        match self {
            Layout::Int(_) | Layout::Float(_) | Layout::Bool => false,
            Layout::Str | Layout::List(_) | Layout::RecursivePointer => true,
            Layout::Struct(fs) => fields_refcounted_of(fs, Ghost(self)),
            Layout::Union(u) => match u {
                UnionLayout::NonRecursive(tags) => {
                    let mut i: usize = 0;
                    while i < tags.len()
                        invariant
                            i <= tags@.len(),
                            !variants_refcounted(tags@.subrange(0, i as int)),
                            self.is_refcounted() == variants_refcounted(tags@),
                            forall|j: int, k: int|
                                0 <= j < tags@.len() && 0 <= k < tags@[j]@.len()
                                    ==> decreases_to!(self => tags@[j]@[k]),
                        decreases tags.len() - i,
                    {
                        proof {
                            lemma_variants_step(tags@, i as int, 1);
                        }
                        if fields_refcounted_of(&tags[i], Ghost(self)) {
                            proof {
                                lemma_variants_refcounted_prefix(tags@, i as int + 1);
                            }
                            return true;
                        }
                        i = i + 1;
                    }
                    assert(tags@.subrange(0, tags@.len() as int) =~= tags@);
                    false
                },
                _ => true,
            },
        }
    }

    /// Alignment in bytes, for pointers of `pw` bytes.
    pub open spec fn alignment(self, pw: nat) -> nat
        decreases self,
    {
        match self {
            Layout::Int(w) => w.spec_bytes(),
            Layout::Float(w) => w.spec_bytes(),
            Layout::Bool => 1,
            Layout::Str => pw,
            Layout::List(_) => pw,
            Layout::Struct(fs) => fields_alignment(fs@, pw),
            Layout::Union(u) => match u {
                UnionLayout::NonRecursive(tags) => {
                    let a = variants_alignment(tags@, pw);
                    if a >= TAG_ID_BYTES {
                        a
                    } else {
                        TAG_ID_BYTES as nat
                    }
                },
                _ => pw,
            },
            Layout::RecursivePointer => pw,
        }
    }

    /// Whether a value of this layout owns reference-counted memory.
    pub open spec fn is_refcounted(self) -> bool
        decreases self,
    {
        match self {
            Layout::Int(_) | Layout::Float(_) | Layout::Bool => false,
            Layout::Str | Layout::List(_) | Layout::RecursivePointer => true,
            Layout::Struct(fs) => fields_refcounted(fs@),
            Layout::Union(u) => match u {
                UnionLayout::NonRecursive(tags) => variants_refcounted(tags@),
                _ => true,
            },
        }
    }
}

impl UnionLayout {
    /// Bytes of the heap block of a union that lives on the heap: room for the widest
    /// variant, and the discriminant where the shape stores one. Zero for a union held
    /// inline.
    pub open spec fn heap_data_size(self, pw: nat) -> nat {
        match self {
            UnionLayout::NonRecursive(_) => 0,
            UnionLayout::Recursive(tags) => TAG_ID_BYTES as nat + widest_variant(tags@, pw),
            UnionLayout::NonNullableUnwrapped(fs) => fields_size(fs@, pw),
            UnionLayout::NullableWrapped { other_tags, .. } => TAG_ID_BYTES as nat + widest_variant(
                other_tags@,
                pw,
            ),
            UnionLayout::NullableUnwrapped { other_fields, .. } => fields_size(other_fields@, pw),
        }
    }
}

/// Total size of the fields `fs`.
fn fields_size_of(fs: &Vec<Layout>, pw: u64) -> (r: u64)
    requires
        valid_ptr_width(pw as nat),
        fields_size(fs@, pw as nat) <= u64::MAX,
    ensures
        r == fields_size(fs@, pw as nat),
    decreases fs, 0nat,
{
    let mut acc: u64 = 0;
    let mut i: usize = 0;
    while i < fs.len()
        invariant
            i <= fs@.len(),
            valid_ptr_width(pw as nat),
            fields_size(fs@, pw as nat) <= u64::MAX,
            acc == fields_size(fs@.subrange(0, i as int), pw as nat),
        decreases fs.len() - i,
    {
        proof {
            lemma_fields_size_prefix(fs@, i as int, pw as nat);
            lemma_fields_size_prefix(fs@, i as int + 1, pw as nat);
        }
        assert(decreases_to!(fs => fs@[i as int]));
        let f = fs[i].stack_size(pw);
        acc = acc + f;
        i = i + 1;
    }
    assert(fs@.subrange(0, fs@.len() as int) =~= fs@);
    acc
}

/// Size of the widest of the variants `tags`.
fn widest_variant_of(tags: &Vec<Vec<Layout>>, pw: u64) -> (r: u64)
    requires
        valid_ptr_width(pw as nat),
        widest_variant(tags@, pw as nat) <= u64::MAX,
    ensures
        r == widest_variant(tags@, pw as nat),
    decreases tags, 1nat,
{
    let mut widest: u64 = 0;
    let mut i: usize = 0;
    while i < tags.len()
        invariant
            i <= tags@.len(),
            valid_ptr_width(pw as nat),
            widest_variant(tags@, pw as nat) <= u64::MAX,
            widest == widest_variant(tags@.subrange(0, i as int), pw as nat),
        decreases tags.len() - i,
    {
        proof {
            lemma_widest_variant_prefix(tags@, i as int, pw as nat);
        }
        assert(decreases_to!(tags => tags@[i as int]));
        let w = fields_size_of(&tags[i], pw);
        if w > widest {
            widest = w;
        }
        i = i + 1;
    }
    assert(tags@.subrange(0, tags@.len() as int) =~= tags@);
    widest
}

/// Bytes of the reference-count header in front of a block whose data needs
/// `alignment`: one machine word, or two when the data needs more than a word's
/// alignment.
pub open spec fn header_size(alignment: nat, pw: nat) -> nat {
    if alignment > pw {
        2 * pw
    } else {
        pw
    }
}

impl UnionLayout {
    /// Bytes of the heap block of this union.
    pub fn heap_data_bytes(&self, pw: u64) -> (r: u64)
        requires
            valid_ptr_width(pw as nat),
            self.heap_data_size(pw as nat) <= u64::MAX,
        ensures
            r == self.heap_data_size(pw as nat),
    {
        match self {
            UnionLayout::NonRecursive(_) => 0,
            UnionLayout::Recursive(tags) => TAG_ID_BYTES + widest_variant_of(tags, pw),
            UnionLayout::NonNullableUnwrapped(fs) => fields_size_of(fs, pw),
            UnionLayout::NullableWrapped { other_tags, .. } => TAG_ID_BYTES + widest_variant_of(
                other_tags,
                pw,
            ),
            UnionLayout::NullableUnwrapped { other_fields, .. } => fields_size_of(other_fields, pw),
        }
    }
}

/// Bytes to request from the allocator for a reference-counted block of `data_size`
/// bytes whose data needs `alignment`: the data and the header in front of it.
pub fn allocation_size(data_size: u64, alignment: u64, pw: u64) -> (r: u64)
    requires
        valid_ptr_width(pw as nat),
        data_size + 2 * pw <= u64::MAX,
    ensures
        r == data_size + header_size(alignment as nat, pw as nat),
{
    if alignment > pw {
        data_size + 2 * pw
    } else {
        data_size + pw
    }
}

} // verus!
