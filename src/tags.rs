//! Construction of tagged union values, extraction of their discriminant, projection of
//! their fields, and dispatch on the discriminant.
use vstd::prelude::*;
use crate::heap::{
    Heap, HeapModel, Node, Value, is_owned_chain, lemma_release_chain, lemma_reserve_increment_release,
    ptrs_in,
};
use crate::layout::{IntWidth, Layout, UnionLayout};

verus! {

impl UnionLayout {
    /// Number of variants.
    pub open spec fn variant_count(self) -> nat {
        match self {
            UnionLayout::NonRecursive(tags) => tags@.len(),
            UnionLayout::Recursive(tags) => tags@.len(),
            UnionLayout::NonNullableUnwrapped(_) => 1,
            UnionLayout::NullableWrapped { other_tags, .. } => other_tags@.len() + 1,
            UnionLayout::NullableUnwrapped { .. } => 2,
        }
    }

    /// The id of the variant that the null pointer stands for, if there is one.
    pub open spec fn nullable_tag(self) -> Option<u64> {
        match self {
            UnionLayout::NullableWrapped { nullable_id, .. } => Some(nullable_id),
            UnionLayout::NullableUnwrapped { nullable_is_one, .. } => Some(
                if nullable_is_one {
                    1u64
                } else {
                    0u64
                },
            ),
            _ => None,
        }
    }

    /// Whether values of this layout live behind a heap pointer.
    pub open spec fn is_heap(self) -> bool {
        !(self is NonRecursive)
    }

    /// Whether the heap block of a variant stores the discriminant.
    pub open spec fn stores_tag(self) -> bool {
        self is Recursive || self is NullableWrapped
    }

    /// Whether `tag_id` names a variant; the null variant of a nullable layout must be
    /// one of its ids.
    pub open spec fn valid(self) -> bool {
        match self {
            UnionLayout::NullableWrapped { nullable_id, other_tags } => nullable_id
                <= other_tags@.len(),
            _ => true,
        }
    }
}

/// The value and heap that constructing variant `tag_id` of `u` from `fields` yields.
pub open spec fn build_tag_spec(u: UnionLayout, tag_id: u64, fields: Vec<Value>, h: HeapModel) -> (
    Value,
    HeapModel,
) {
    if !u.is_heap() {
        (Value::Tagged(tag_id, fields), h)
    } else if u.nullable_tag() == Some(tag_id) {
        (Value::Null, h)
    } else {
        let tag = if u.stores_tag() {
            Some(tag_id)
        } else {
            None
        };
        (Value::Ptr(h.live.len() as usize), h.reserve(Node { tag, fields }))
    }
}

/// The discriminant of `v` read as a value of `u` in heap `h`, if `v` is such a value.
/// A null pointer yields the nullable variant without looking at the heap.
pub open spec fn tag_id_of(u: UnionLayout, v: Value, h: HeapModel) -> Option<u64> {
    match u {
        UnionLayout::NonRecursive(_) => match v {
            Value::Tagged(t, _) => Some(t),
            _ => None,
        },
        UnionLayout::NonNullableUnwrapped(_) => match v {
            Value::Ptr(a) => if h.is_live(a as int) {
                Some(0u64)
            } else {
                None
            },
            _ => None,
        },
        UnionLayout::NullableUnwrapped { nullable_is_one, .. } => match v {
            Value::Null => u.nullable_tag(),
            Value::Ptr(a) => if h.is_live(a as int) {
                Some(
                    if nullable_is_one {
                        0u64
                    } else {
                        1u64
                    },
                )
            } else {
                None
            },
            _ => None,
        },
        _ => match v {
            Value::Null => u.nullable_tag(),
            Value::Ptr(a) => if h.is_live(a as int) {
                h.nodes[a as int].tag
            } else {
                None
            },
            _ => None,
        },
    }
}

/// The fields of `v` read as a value of `u` in heap `h`, if it holds any.
pub open spec fn fields_of(u: UnionLayout, v: Value, h: HeapModel) -> Option<Seq<Value>> {
    match v {
        Value::Tagged(_, fs) => if u.is_heap() {
            None
        } else {
            Some(fs@)
        },
        Value::Ptr(a) => if u.is_heap() && h.is_live(a as int) {
            Some(h.nodes[a as int].fields@)
        } else {
            None
        },
        _ => None,
    }
}

/// Constructs variant `tag_id` of union `u` from the variant's `fields`: inline for a
/// non-recursive union, the null pointer for a nullable variant, and otherwise a fresh
/// heap block with one owner that stores the discriminant where the shape keeps one.
pub fn build_tag(u: &UnionLayout, tag_id: u64, fields: Vec<Value>, heap: &mut Heap) -> (r: Value)
    requires
        old(heap)@.wf(),
        old(heap)@.live.len() < usize::MAX,
        u.valid(),
        tag_id < u.variant_count(),
    ensures
        (r, final(heap)@) == build_tag_spec(*u, tag_id, fields, old(heap)@),
        final(heap)@.wf(),
{
    let nullable: Option<u64> = match u {
        UnionLayout::NonRecursive(_) => {
            return Value::Tagged(tag_id, fields);
        },
        UnionLayout::NullableWrapped { nullable_id, .. } => Some(*nullable_id),
        UnionLayout::NullableUnwrapped { nullable_is_one, .. } => Some(
            if *nullable_is_one {
                1
            } else {
                0
            },
        ),
        _ => None,
    };
    if nullable == Some(tag_id) {
        return Value::Null;
    }
    let tag = match u {
        UnionLayout::Recursive(_) | UnionLayout::NullableWrapped { .. } => Some(tag_id),
        _ => None,
    };
    let a = heap.reserve(Node { tag, fields });
    Value::Ptr(a)
}

/// Reads the discriminant of `v`, a value of union `u`. A null pointer is never
/// dereferenced: it stands for the nullable variant.
pub fn get_tag_id(u: &UnionLayout, v: &Value, heap: &Heap) -> (r: u64)
    requires
        heap@.wf(),
        tag_id_of(*u, *v, heap@) is Some,
    ensures
        Some(r) == tag_id_of(*u, *v, heap@),
{
    match u {
        UnionLayout::NonRecursive(_) => match v {
            Value::Tagged(t, _) => *t,
            _ => 0,
        },
        UnionLayout::NonNullableUnwrapped(_) => 0,
        UnionLayout::NullableUnwrapped { nullable_is_one, .. } => match v {
            Value::Null => if *nullable_is_one {
                1
            } else {
                0
            },
            _ => if *nullable_is_one {
                0
            } else {
                1
            },
        },
        UnionLayout::NullableWrapped { nullable_id, .. } => match v {
            Value::Null => *nullable_id,
            Value::Ptr(a) => match heap.node(*a).tag {
                Some(t) => t,
                None => 0,
            },
            _ => 0,
        },
        UnionLayout::Recursive(_) => match v {
            Value::Ptr(a) => match heap.node(*a).tag {
                Some(t) => t,
                None => 0,
            },
            _ => 0,
        },
    }
}

/// Projects field `index` out of `v`, a value of union `u` that holds fields, from the
/// inline value or through the heap pointer, mirroring construction.
pub fn access_at_index<'a>(u: &UnionLayout, v: &'a Value, heap: &'a Heap, index: usize) -> (r: &'a Value)
    requires
        heap@.wf(),
        fields_of(*u, *v, heap@) is Some,
        index < fields_of(*u, *v, heap@)->0.len(),
    ensures
        *r == fields_of(*u, *v, heap@)->0[index as int],
{
    match v {
        Value::Tagged(_, fs) => &fs[index],
        Value::Ptr(a) => &heap.node(*a).fields[index],
        _ => v,
    }
}

/// The branch that a switch on `cond` takes: the target of the first case whose key is
/// `cond`, else the default.
pub open spec fn switch_spec(cond: u64, cases: Seq<(u64, usize)>, default: usize) -> usize
    decreases cases.len(),
{
    if cases.len() == 0 {
        default
    } else if cases[0].0 == cond {
        cases[0].1
    } else {
        switch_spec(cond, cases.subrange(1, cases.len() as int), default)
    }
}

/// Chooses the branch of a switch on the discriminant `cond`.
pub fn switch_target(cond: u64, cases: &Vec<(u64, usize)>, default: usize) -> (r: usize)
    ensures
        r == switch_spec(cond, cases@, default),
{
    let mut i: usize = 0;
    assert(cases@.subrange(0, cases@.len() as int) =~= cases@);
    while i < cases.len()
        invariant
            i <= cases@.len(),
            switch_spec(cond, cases@.subrange(i as int, cases@.len() as int), default)
                == switch_spec(cond, cases@, default),
        decreases cases.len() - i,
    {
        let ghost rest = cases@.subrange(i as int, cases@.len() as int);
        assert(rest.subrange(1, rest.len() as int) =~= cases@.subrange(i + 1, cases@.len() as int));
        if cases[i].0 == cond {
            return cases[i].1;
        }
        i = i + 1;
    }
    default
}

/// How a switch is emitted.
#[derive(Clone, Copy, Debug, PartialEq, Eq)]
pub enum SwitchLowering {
    /// A conditional branch between the one case and the default.
    TwoWayBranch,
    /// A dispatch on the discriminant over all cases.
    DispatchTable,
}

/// A switch on a boolean with exactly one case besides the default is a two-way branch;
/// any other switch dispatches on the discriminant.
pub fn switch_lowering(cond: &Layout, cases: &Vec<(u64, usize)>) -> (r: SwitchLowering)
    ensures
        r == if cases@.len() == 1 && *cond is Bool {
            SwitchLowering::TwoWayBranch
        } else {
            SwitchLowering::DispatchTable
        },
{
    match cond {
        Layout::Bool => if cases.len() == 1 {
            SwitchLowering::TwoWayBranch
        } else {
            SwitchLowering::DispatchTable
        },
        _ => SwitchLowering::DispatchTable,
    }
}

/// Reading the discriminant of a freshly constructed variant gives back its id, and
/// projecting its fields gives back the fields it was built from, unless it is the
/// null variant, which holds none.
pub proof fn lemma_build_then_read(u: UnionLayout, tag_id: u64, fields: Vec<Value>, h: HeapModel)
    requires
        h.wf(),
        h.live.len() < usize::MAX,
        u.valid(),
        tag_id < u.variant_count(),
    ensures
        ({
            let (v, h2) = build_tag_spec(u, tag_id, fields, h);
            &&& tag_id_of(u, v, h2) == Some(tag_id)
            &&& v is Null || fields_of(u, v, h2) == Some(fields@)
        }),
{
}

/// A switch whose case `i` is the first with key `cond` takes that case's target.
pub proof fn lemma_switch_finds(cond: u64, cases: Seq<(u64, usize)>, default: usize, i: int)
    requires
        0 <= i < cases.len(),
        cases[i].0 == cond,
        forall|j: int| 0 <= j < i ==> cases[j].0 != cond,
    ensures
        switch_spec(cond, cases, default) == cases[i].1,
    decreases i,
{
    if i > 0 {
        let rest = cases.subrange(1, cases.len() as int);
        assert forall|j: int| 0 <= j < i - 1 implies rest[j].0 != cond by {
            assert(rest[j] == cases[j + 1]);
        }
        lemma_switch_finds(cond, rest, default, i - 1);
    }
}

/// Constructing variant `i` of a non-recursive union with `k` variants and switching on
/// the result over cases `0 .. k`, case `j` leading to branch `j`, selects branch `i`.
pub proof fn lemma_switch_on_built_variant(
    tags: Vec<Vec<Layout>>,
    i: u64,
    fields: Vec<Value>,
    h: HeapModel,
    cases: Seq<(u64, usize)>,
    default: usize,
)
    requires
        h.wf(),
        h.live.len() < usize::MAX,
        i < tags@.len(),
        cases.len() == tags@.len(),
        forall|j: int| 0 <= j < cases.len() ==> #[trigger] cases[j] == (j as u64, j as usize),
    ensures
        ({
            let u = UnionLayout::NonRecursive(tags);
            let (v, h2) = build_tag_spec(u, i, fields, h);
            switch_spec(tag_id_of(u, v, h2)->0, cases, default) == i as usize
        }),
{
    let u = UnionLayout::NonRecursive(tags);
    lemma_build_then_read(u, i, fields, h);
    assert(cases[i as int] == (i, i as usize));
    assert forall|j: int| 0 <= j < i implies cases[j].0 != i by {
        assert(cases[j] == (j as u64, j as usize));
    }
    lemma_switch_finds(i, cases, default, i as int);
}

/// Constructing the nullable variant of a nullable union yields the null pointer and
/// allocates nothing; reading the discriminant of the null pointer yields the nullable
/// id whatever the heap holds.
pub proof fn lemma_null_variant(u: UnionLayout, fields: Vec<Value>, h: HeapModel, other: HeapModel)
    requires
        u is NullableWrapped || u is NullableUnwrapped,
    ensures
        build_tag_spec(u, u.nullable_tag()->0, fields, h) == (Value::Null, h),
        tag_id_of(u, Value::Null, other) == u.nullable_tag(),
{
}

/// The layout of a list of integers: the null pointer is the empty list, and a cell holds
/// an integer and the rest of the list.
pub fn int_list_layout() -> (r: UnionLayout)
    ensures
        r == (UnionLayout::NullableUnwrapped { nullable_is_one: false, other_fields: r->other_fields }),
        r->other_fields@.len() == 2,
        r->other_fields@[0] == Layout::Int(IntWidth::I64),
        r->other_fields@[1] == Layout::RecursivePointer,
{
    let mut fs: Vec<Layout> = Vec::new();
    fs.push(Layout::Int(IntWidth::I64));
    fs.push(Layout::RecursivePointer);
    UnionLayout::NullableUnwrapped { nullable_is_one: false, other_fields: fs }
}

/// Block `a` of `h` is a list cell holding `x` and then `rest`, with one owner.
pub open spec fn is_cell(h: HeapModel, a: int, x: i64, rest: Value) -> bool {
    &&& h.is_live(a)
    &&& h.counts[a] == 1
    &&& h.nodes[a].tag is None
    &&& h.nodes[a].fields@ == seq![Value::Word(x), rest]
}

/// What the cell allocated `j`-th on top of `n` blocks points to: the cell before it,
/// or nothing for the first.
pub open spec fn link_below(n: int, j: int) -> Value {
    if j == 0 {
        Value::Null
    } else {
        Value::Ptr((n + j - 1) as usize)
    }
}

/// `head` is the list `xs` built on top of `h0` by consing its elements from last to
/// first: the cell of `xs[i]` was allocated `len - 1 - i`-th, and nothing else changed.
pub open spec fn is_built_list(h0: HeapModel, h: HeapModel, xs: Seq<i64>, head: Value) -> bool {
    let n = h0.live.len();
    let k = xs.len();
    &&& h.live.len() == n + k
    &&& h.freed == h0.freed
    &&& forall|b: int| 0 <= b < n ==> h.live[b] == h0.live[b] && h.counts[b] == h0.counts[b]
        && h.nodes[b] == h0.nodes[b]
    &&& forall|j: int|
        0 <= j < k ==> #[trigger] is_cell(
            h,
            n + j,
            xs[k - 1 - j],
            link_below(n as int, j),
        )
    &&& head == if k == 0 {
        Value::Null
    } else {
        Value::Ptr((n + k - 1) as usize)
    }
}

/// Prepends `x` to the list `rest` in a fresh cell.
pub fn cons(x: i64, rest: Value, heap: &mut Heap) -> (r: Value)
    requires
        old(heap)@.wf(),
        old(heap)@.live.len() < usize::MAX,
    ensures
        final(heap)@.wf(),
        final(heap)@ == old(heap)@.reserve(Node { tag: None, fields: final(heap)@.nodes.last().fields }),
        final(heap)@.nodes.last().fields@ == seq![Value::Word(x), rest],
        r == Value::Ptr(old(heap)@.live.len() as usize),
{
    let u = int_list_layout();
    let mut fields: Vec<Value> = Vec::new();
    fields.push(Value::Word(x));
    fields.push(rest);
    assert(fields@ =~= seq![Value::Word(x), rest]);
    build_tag(&u, 1, fields, heap)
}

/// Builds the list `xs` by consing its elements onto the empty list, last one first.
pub fn build_int_list(xs: &Vec<i64>, heap: &mut Heap) -> (r: Value)
    requires
        old(heap)@.wf(),
        old(heap)@.live.len() + xs@.len() < usize::MAX,
    ensures
        final(heap)@.wf(),
        is_built_list(old(heap)@, final(heap)@, xs@, r),
{
    let mut head = Value::Null;
    let mut i: usize = xs.len();
    let ghost n = old(heap)@.live.len();
    let ghost k = xs@.len();
    while i > 0
        invariant
            i <= k,
            k == xs@.len(),
            n == old(heap)@.live.len(),
            n + k < usize::MAX,
            heap@.wf(),
            is_built_list(old(heap)@, heap@, xs@.subrange(i as int, k as int), head),
        decreases i,
    {
        let ghost h1 = heap@;
        let ghost ys = xs@.subrange(i as int, k as int);
        i = i - 1;
        head = cons(xs[i], head, heap);
        let ghost zs = xs@.subrange(i as int, k as int);
        assert forall|j: int| 0 <= j < zs.len() implies #[trigger] is_cell(
            heap@,
            n + j,
            zs[zs.len() - 1 - j],
            link_below(n as int, j),
        ) by {
            if j < ys.len() {
                assert(is_cell(
                    h1,
                    n + j,
                    ys[ys.len() - 1 - j],
                    link_below(n as int, j),
                ));
                assert(zs[zs.len() - 1 - j] == ys[ys.len() - 1 - j]);
            }
        }
    }
    assert(xs@.subrange(0, k as int) =~= xs@);
    head
}

/// Releasing the only owner of a list built by consing frees every cell of it, each
/// exactly once, from the head to the last cell, and touches no other block.
pub proof fn lemma_release_built_list(h0: HeapModel, h: HeapModel, xs: Seq<i64>, head: Value)
    requires
        h.wf(),
        is_built_list(h0, h, xs, head),
        xs.len() >= 1,
        h.live.len() < usize::MAX,
    ensures
        ({
            let n = h0.live.len();
            let k = xs.len();
            let cells = Seq::new(k, |i: int| (n + k - 1 - i) as usize);
            let r = h.decrement(head->Ptr_0);
            &&& r.freed == h.freed + cells
            &&& cells.no_duplicates()
            &&& forall|j: int| n <= j < n + k ==> !r.live[j] && r.counts[j] == 0
            &&& forall|b: int| 0 <= b < n ==> r.live[b] == h.live[b] && r.counts[b] == h.counts[b]
        }),
{
    let n = h0.live.len();
    let k = xs.len();
    let cells = Seq::new(k, |i: int| (n + k - 1 - i) as usize);
    assert forall|i: int| 0 <= i < cells.len() implies cells[i] as int == n + k - 1 - i by {}
    assert forall|i: int| 0 <= i < cells.len() implies #[trigger] h.is_live(cells[i] as int)
        && h.counts[cells[i] as int] == 1 by {
        let j = k - 1 - i;
        assert(is_cell(h, n + j, xs[k - 1 - j], link_below(n as int, j)));
    }
    assert forall|i: int| 0 <= i < cells.len() implies #[trigger] ptrs_in(
        h.nodes[cells[i] as int].fields@,
    ) == if i + 1 < cells.len() {
        seq![cells[i + 1]]
    } else {
        Seq::empty()
    } by {
        let j = k - 1 - i;
        let rest = link_below(n as int, j);
        assert(is_cell(h, n + j, xs[k - 1 - j], rest));
        let fs = h.nodes[cells[i] as int].fields@;
        assert(fs == seq![Value::Word(xs[k - 1 - j]), rest]);
        reveal_with_fuel(ptrs_in, 3);
        reveal_with_fuel(crate::heap::ptrs_of, 2);
        assert(fs.subrange(0, 1) =~= seq![Value::Word(xs[k - 1 - j])]);
        assert(fs.subrange(0, 1).subrange(0, 0) =~= Seq::<Value>::empty());
    }
    assert(is_owned_chain(h, cells));
    lemma_release_chain(h, cells);
    let r = h.decrement(cells[0]);
    assert forall|j: int| n <= j < n + k implies !r.live[j] && r.counts[j] == 0 by {
        assert(cells[n + k - 1 - j] == j as usize);
        assert(cells.contains(j as usize));
    }
    assert forall|b: int| 0 <= b < n implies r.live[b] == h.live[b] && r.counts[b] == h.counts[b] by {
        if cells.contains(b as usize) {
            let i = choose|i: int| 0 <= i < cells.len() && cells[i] == b as usize;
        }
    }
}

/// For a union that lives on the heap, and so is reference counted, constructing a
/// variant that is not the null one from fields that hold no pointer, adding `n` owners
/// and taking `n + 1` away returns the block's count to zero and frees it exactly once.
pub proof fn lemma_heap_variant_lifecycle(
    u: UnionLayout,
    tag_id: u64,
    fields: Vec<Value>,
    h: HeapModel,
    n: nat,
)
    requires
        h.wf(),
        h.live.len() < usize::MAX,
        u.valid(),
        u.is_heap(),
        tag_id < u.variant_count(),
        u.nullable_tag() != Some(tag_id),
        ptrs_in(fields@).len() == 0,
        n < i64::MAX,
    ensures
        Layout::Union(u).is_refcounted(),
        ({
            let (v, h1) = build_tag_spec(u, tag_id, fields, h);
            let a = v->Ptr_0;
            let h2 = h1.increment(a as int, n as int).decrement_times(a, n + 1);
            &&& v is Ptr
            &&& h2.counts[a as int] == 0
            &&& !h2.live[a as int]
            &&& h2.freed == h.freed.push(a)
        }),
{
    let tag = if u.stores_tag() {
        Some(tag_id)
    } else {
        None
    };
    lemma_reserve_increment_release(h, Node { tag, fields }, n);
}

} // verus!
