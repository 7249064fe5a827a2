//! Struct values: zero-sized fields take no room, and a struct left with a single field
//! is that field's value, unwrapped. Construction and projection apply the same rule.
//! List literals are laid out here too.
use vstd::prelude::*;
use crate::heap::{Heap, HeapModel, Node, Value};
use crate::layout::{Layout, valid_ptr_width};

verus! {

broadcast use {vstd::std_specs::vec::group_vec_axioms, vstd::seq::group_seq_axioms};

/// The values of the fields that take room, in order.
pub open spec fn kept_fields(ls: Seq<Layout>, vs: Seq<Value>, pw: nat) -> Seq<Value>
    decreases ls.len(),
{
    if ls.len() == 0 || vs.len() == 0 {
        Seq::empty()
    } else {
        kept_fields(ls.drop_last(), vs.drop_last(), pw) + if ls.last().size(pw) == 0 {
            Seq::empty()
        } else {
            seq![vs.last()]
        }
    }
}

/// Number of fields among `ls` that take room.
pub open spec fn count_sized(ls: Seq<Layout>, pw: nat) -> nat
    decreases ls.len(),
{
    if ls.len() == 0 {
        0
    } else {
        count_sized(ls.drop_last(), pw) + if ls.last().size(pw) == 0 {
            0nat
        } else {
            1nat
        }
    }
}

/// Whether `v` is the struct value of the fields `vs` with layouts `ls`.
pub open spec fn is_struct_of(v: Value, ls: Seq<Layout>, vs: Seq<Value>, pw: nat) -> bool {
    let kept = kept_fields(ls, vs, pw);
    if kept.len() == 1 {
        v == kept[0]
    } else {
        v is Block && v->Block_0@ == kept
    }
}

/// The field value at position `index` of the struct value `v` of layouts `ls`.
pub open spec fn field_of(v: Value, ls: Seq<Layout>, index: int, pw: nat) -> Value {
    if count_sized(ls, pw) == 1 {
        v
    } else {
        v->Block_0@[count_sized(ls.subrange(0, index), pw) as int]
    }
}

/// Kept fields of a prefix, and how many there are.
pub proof fn lemma_kept_prefix(ls: Seq<Layout>, vs: Seq<Value>, i: int, pw: nat)
    requires
        0 <= i < ls.len(),
        ls.len() == vs.len(),
    ensures
        kept_fields(ls.subrange(0, i + 1), vs.subrange(0, i + 1), pw) == kept_fields(
            ls.subrange(0, i),
            vs.subrange(0, i),
            pw,
        ) + if ls[i].size(pw) == 0 {
            Seq::empty()
        } else {
            seq![vs[i]]
        },
        count_sized(ls.subrange(0, i + 1), pw) == count_sized(ls.subrange(0, i), pw) + if ls[i].size(
            pw,
        ) == 0 {
            0nat
        } else {
            1nat
        },
{
    assert(ls.subrange(0, i + 1).drop_last() =~= ls.subrange(0, i));
    assert(vs.subrange(0, i + 1).drop_last() =~= vs.subrange(0, i));
}

/// There are as many kept fields as fields that take room, and the field at `index`,
/// when it takes room, is kept at the place that counts the sized fields before it.
pub proof fn lemma_kept_index(ls: Seq<Layout>, vs: Seq<Value>, index: int, pw: nat)
    requires
        ls.len() == vs.len(),
        0 <= index <= ls.len(),
    ensures
        kept_fields(ls, vs, pw).len() == count_sized(ls, pw),
        index < ls.len() && ls[index].size(pw) != 0 ==> {
            let k = count_sized(ls.subrange(0, index), pw) as int;
            &&& k < kept_fields(ls, vs, pw).len()
            &&& kept_fields(ls, vs, pw)[k] == vs[index]
        },
    decreases ls.len(),
{
    if ls.len() > 0 {
        let l0 = ls.drop_last();
        let v0 = vs.drop_last();
        if index < ls.len() - 1 {
            lemma_kept_index(l0, v0, index, pw);
            assert(l0.subrange(0, index) =~= ls.subrange(0, index));
        } else {
            lemma_kept_index(l0, v0, l0.len() as int, pw);
            assert(l0.subrange(0, l0.len() as int) =~= l0);
            if index == ls.len() - 1 {
                assert(ls.subrange(0, index) =~= l0);
            }
        }
    }
}

/// Builds the struct value of `values`, whose layouts are `layouts`: fields of size zero
/// are dropped, and a single remaining field is the value itself.
pub fn build_struct(layouts: &Vec<Layout>, values: Vec<Value>, pw: u64) -> (r: Value)
    requires
        layouts@.len() == values@.len(),
        valid_ptr_width(pw as nat),
        forall|i: int| 0 <= i < layouts@.len() ==> #[trigger] layouts@[i].size(pw as nat) <= u64::MAX,
    ensures
        is_struct_of(r, layouts@, values@, pw as nat),
{
    let ghost vs0 = values@;
    let mut rest = values;
    let mut kept: Vec<Value> = Vec::new();
    let mut i: usize = 0;
    assert(layouts@.subrange(0, 0) =~= Seq::<Layout>::empty());
    while i < layouts.len()
        invariant
            i <= layouts@.len(),
            layouts@.len() == vs0.len(),
            valid_ptr_width(pw as nat),
            forall|j: int| 0 <= j < layouts@.len() ==> #[trigger] layouts@[j].size(pw as nat) <= u64::MAX,
            rest@ == vs0.subrange(i as int, vs0.len() as int),
            kept@ == kept_fields(layouts@.subrange(0, i as int), vs0.subrange(0, i as int), pw as nat),
        decreases layouts@.len() - i,
    {
        proof {
            lemma_kept_prefix(layouts@, vs0, i as int, pw as nat);
        }
        let v = rest.remove(0);
        assert(rest@ =~= vs0.subrange(i + 1, vs0.len() as int));
        if layouts[i].stack_size(pw) != 0 {
            kept.push(v);
        } else {
            assert(kept@ =~= kept@ + Seq::<Value>::empty());
        }
        i = i + 1;
    }
    assert(layouts@.subrange(0, i as int) =~= layouts@);
    assert(vs0.subrange(0, i as int) =~= vs0);
    if kept.len() == 1 {
        kept.pop().unwrap()
    } else {
        Value::Block(kept)
    }
}

/// Counts the fields of `layouts[.. index]` that take room.
fn sized_before(layouts: &Vec<Layout>, index: usize, pw: u64) -> (r: usize)
    requires
        index <= layouts@.len(),
        valid_ptr_width(pw as nat),
        forall|i: int| 0 <= i < layouts@.len() ==> #[trigger] layouts@[i].size(pw as nat) <= u64::MAX,
    ensures
        r == count_sized(layouts@.subrange(0, index as int), pw as nat),
{
    let mut n: usize = 0;
    let mut i: usize = 0;
    assert(layouts@.subrange(0, 0) =~= Seq::<Layout>::empty());
    while i < index
        invariant
            i <= index <= layouts@.len(),
            valid_ptr_width(pw as nat),
            forall|j: int| 0 <= j < layouts@.len() ==> #[trigger] layouts@[j].size(pw as nat) <= u64::MAX,
            n == count_sized(layouts@.subrange(0, i as int), pw as nat),
            n <= i,
        decreases index - i,
    {
        proof {
            lemma_kept_prefix(layouts@, layouts@.map_values(|l: Layout| Value::Null), i as int, pw as nat);
        }
        if layouts[i].stack_size(pw) != 0 {
            n = n + 1;
        }
        i = i + 1;
    }
    n
}

/// Projects the field at `index` out of the struct value `v` of layouts `layouts`, by the
/// same rule that built it. The field must take room.
pub fn access_struct_field<'a>(layouts: &Vec<Layout>, v: &'a Value, index: usize, pw: u64) -> (r: &'a Value)
    requires
        index < layouts@.len(),
        valid_ptr_width(pw as nat),
        forall|i: int| 0 <= i < layouts@.len() ==> #[trigger] layouts@[i].size(pw as nat) <= u64::MAX,
        count_sized(layouts@, pw as nat) == 1 || (v is Block && count_sized(
            layouts@.subrange(0, index as int),
            pw as nat,
        ) < v->Block_0@.len()),
    ensures
        *r == field_of(*v, layouts@, index as int, pw as nat),
{
    let total = sized_before(layouts, layouts.len(), pw);
    assert(layouts@.subrange(0, layouts@.len() as int) =~= layouts@);
    if total == 1 {
        v
    } else {
        let k = sized_before(layouts, index, pw);
        match v {
            Value::Block(vs) => &vs[k],
            _ => v,
        }
    }
}

/// Projecting any field that takes room out of a struct built from `values` gives back
/// that field's value.
pub proof fn lemma_struct_round_trip(v: Value, ls: Seq<Layout>, vs: Seq<Value>, index: int, pw: nat)
    requires
        ls.len() == vs.len(),
        is_struct_of(v, ls, vs, pw),
        0 <= index < ls.len(),
        ls[index].size(pw) != 0,
    ensures
        field_of(v, ls, index, pw) == vs[index],
{
    lemma_kept_index(ls, vs, index, pw);
    lemma_kept_index(ls, vs, ls.len() as int, pw);
    if count_sized(ls, pw) == 1 {
        let k = count_sized(ls.subrange(0, index), pw);
        assert(k == 0);
    }
}

/// Whether `v` is the list value of `elems` built on top of heap `h`, giving heap `h2`:
/// the empty list is a null pointer with length zero and allocates nothing; any other
/// list is a fresh block holding exactly its elements, in order, with its length.
pub open spec fn is_list_literal(v: Value, elems: Vec<Value>, h: HeapModel, h2: HeapModel) -> bool {
    v is Block && v->Block_0@.len() == 2 && v->Block_0@[1] == Value::Word(elems@.len() as i64) && if elems@.len()
        == 0 {
        v->Block_0@[0] == Value::Null && h2 == h
    } else {
        v->Block_0@[0] == Value::Ptr(h.live.len() as usize) && h2 == h.reserve(
            Node { tag: None, fields: elems },
        )
    }
}

/// Materializes a list literal: its elements in one fresh block, and the pointer to it
/// with the length.
pub fn build_list_literal(elems: Vec<Value>, heap: &mut Heap) -> (r: Value)
    requires
        old(heap)@.wf(),
        old(heap)@.live.len() < usize::MAX,
        elems@.len() <= i64::MAX,
    ensures
        final(heap)@.wf(),
        is_list_literal(r, elems, old(heap)@, final(heap)@),
{
    let len = elems.len();
    let mut parts: Vec<Value> = Vec::new();
    if len == 0 {
        parts.push(Value::Null);
    } else {
        let a = heap.reserve(Node { tag: None, fields: elems });
        parts.push(Value::Ptr(a));
    }
    parts.push(Value::Word(len as i64));
    Value::Block(parts)
}

} // verus!
