//! Reference-counting statements: incrementing or decrementing what a value of a given
//! layout owns on the heap. Values of layouts without reference-counted data are left
//! alone; a value that should be a pointer but is not is reported, never skipped.
use vstd::prelude::*;
use crate::heap::{Heap, HeapModel, Value, ptrs_of};
use crate::layout::{Layout, UnionLayout};

verus! {

broadcast use {vstd::std_specs::vec::group_vec_axioms, vstd::seq::group_seq_axioms};

/// Why a reference-counting statement was refused.
#[derive(Debug, PartialEq, Eq, Clone, Copy)]
pub enum RefcountError {
    /// The layout is reference counted but the value is not a pointer where one belongs.
    NotAPointer,
}

/// The heap blocks that a value `v` of layout `l` owns and that a reference-counting
/// statement on it must touch; `None` when `v` does not have the shape `l` asks for.
/// A string or list of length zero owns nothing, and its pointer is not looked at.
pub open spec fn owned_ptrs(l: Layout, v: Value) -> Option<Seq<usize>> {
    if !l.is_refcounted() {
        Some(Seq::empty())
    } else {
        match l {
            Layout::Str | Layout::List(_) => match v {
                Value::Block(vs) => if vs@.len() == 2 && vs@[1] is Word {
                    if vs@[1]->Word_0 == 0 {
                        Some(Seq::empty())
                    } else {
                        match vs@[0] {
                            Value::Ptr(a) => Some(seq![a]),
                            _ => None,
                        }
                    }
                } else {
                    None
                },
                _ => None,
            },
            Layout::Union(UnionLayout::NonRecursive(_)) | Layout::Struct(_) => Some(ptrs_of(v)),
            _ => match v {
                Value::Ptr(a) => Some(seq![a]),
                Value::Null => Some(Seq::empty()),
                _ => None,
            },
        }
    }
}

/// The heap after adding `n` owners to each block of `ptrs` in turn.
pub open spec fn increment_all(h: HeapModel, ptrs: Seq<usize>, n: int) -> HeapModel
    decreases ptrs.len(),
{
    if ptrs.len() == 0 {
        h
    } else {
        increment_all(h, ptrs.drop_last(), n).increment(ptrs.last() as int, n)
    }
}

/// The heap after taking one owner away from each block of `ptrs` in turn.
pub open spec fn decrement_all(h: HeapModel, ptrs: Seq<usize>) -> HeapModel
    decreases ptrs.len(),
{
    if ptrs.len() == 0 {
        h
    } else {
        decrement_all(h, ptrs.drop_last()).decrement(ptrs.last())
    }
}

/// The blocks that `v`, of layout `l`, owns.
fn owned_of(l: &Layout, v: &Value) -> (r: Option<Vec<usize>>)
    ensures
        match r {
            Some(ps) => owned_ptrs(*l, *v) == Some(ps@),
            None => owned_ptrs(*l, *v) is None,
        },
{
    if !l.contains_refcounted() {
        return Some(Vec::new());
    }
    match l {
        Layout::Str | Layout::List(_) => match v {
            Value::Block(vs) => {
                if vs.len() != 2 {
                    return None;
                }
                match &vs[1] {
                    Value::Word(0) => Some(Vec::new()),
                    Value::Word(_) => match &vs[0] {
                        Value::Ptr(a) => {
                            let mut ps: Vec<usize> = Vec::new();
                            ps.push(*a);
                            assert(ps@ =~= seq![*a]);
                            Some(ps)
                        },
                        _ => None,
                    },
                    _ => None,
                }
            },
            _ => None,
        },
        Layout::Union(UnionLayout::NonRecursive(_)) | Layout::Struct(_) => {
            let mut ps: Vec<usize> = Vec::new();
            crate::heap::push_ptrs(v, &mut ps);
            assert(ps@ =~= ptrs_of(*v));
            Some(ps)
        },
        _ => match v {
            Value::Ptr(a) => {
                let mut ps: Vec<usize> = Vec::new();
                ps.push(*a);
                assert(ps@ =~= seq![*a]);
                Some(ps)
            },
            Value::Null => Some(Vec::new()),
            _ => None,
        },
    }
}

/// Whether adding `n` owners to every block of `ptrs`, each as often as it is listed,
/// keeps every count in range, and every such block is live.
pub open spec fn increments_fit(h: HeapModel, ptrs: Seq<usize>, n: int) -> bool {
    forall|i: int|
        0 <= i < ptrs.len() ==> h.is_live(#[trigger] ptrs[i] as int) && h.counts[ptrs[i] as int] + n
            * ptrs.len() <= i64::MAX
}

/// Adds `amount` owners to what `v`, of layout `l`, owns.
pub fn increment_value(l: &Layout, v: &Value, amount: i64, heap: &mut Heap) -> (r: Result<(), RefcountError>)
    requires
        old(heap)@.wf(),
        amount >= 0,
        owned_ptrs(*l, *v) is Some ==> increments_fit(old(heap)@, owned_ptrs(*l, *v)->0, amount as int),
    ensures
        final(heap)@.wf(),
        match owned_ptrs(*l, *v) {
            Some(ps) => r is Ok && final(heap)@ == increment_all(old(heap)@, ps, amount as int),
            None => r == Err::<(), RefcountError>(RefcountError::NotAPointer) && final(heap)@ == old(heap)@,
        },
{
    let ps = match owned_of(l, v) {
        Some(ps) => ps,
        None => {
            return Err(RefcountError::NotAPointer);
        },
    };
    let ghost h0 = heap@;
    let mut i: usize = 0;
    while i < ps.len()
        invariant
            i <= ps@.len(),
            h0.wf(),
            heap@.wf(),
            amount >= 0,
            increments_fit(h0, ps@, amount as int),
            heap@ == increment_all(h0, ps@.subrange(0, i as int), amount as int),
            heap@.live == h0.live,
            forall|b: int| 0 <= b < h0.live.len() ==> heap@.counts[b] <= h0.counts[b] + amount * i,
            forall|b: int| 0 <= b < h0.live.len() ==> heap@.counts[b] >= h0.counts[b],
            heap@.counts.len() == h0.counts.len(),
        decreases ps@.len() - i,
    {
        let a = ps[i];
        assert(h0.is_live(ps@[i as int] as int));
        assert(ps@.subrange(0, i + 1).drop_last() =~= ps@.subrange(0, i as int));
        proof {
            assert(amount * (i + 1) <= amount * ps@.len()) by (nonlinear_arith)
                requires
                    amount >= 0,
                    i + 1 <= ps@.len(),
            ;
            assert(amount * (i + 1) == amount * i + amount) by (nonlinear_arith);
        }
        let ghost before = heap@;
        heap.increment(a, amount);
        i = i + 1;
        proof {
            assert forall|b: int| 0 <= b < h0.live.len() implies heap@.counts[b] <= h0.counts[b] + amount
                * i && heap@.counts[b] >= h0.counts[b] by {
                if b == a as int {
                    assert(heap@.counts[b] == before.counts[b] + amount);
                } else {
                    assert(heap@.counts[b] == before.counts[b]);
                }
            }
        }
    }
    assert(ps@.subrange(0, ps@.len() as int) =~= ps@);
    Ok(())
}

/// Takes one owner away from each block that `v`, of layout `l`, owns, freeing what
/// loses its last owner.
pub fn decrement_value(l: &Layout, v: &Value, heap: &mut Heap) -> (r: Result<(), RefcountError>)
    requires
        old(heap)@.wf(),
    ensures
        final(heap)@.wf(),
        match owned_ptrs(*l, *v) {
            Some(ps) => r is Ok && final(heap)@ == decrement_all(old(heap)@, ps),
            None => r == Err::<(), RefcountError>(RefcountError::NotAPointer) && final(heap)@ == old(heap)@,
        },
{
    let ps = match owned_of(l, v) {
        Some(ps) => ps,
        None => {
            return Err(RefcountError::NotAPointer);
        },
    };
    let ghost h0 = heap@;
    let mut i: usize = 0;
    while i < ps.len()
        invariant
            i <= ps@.len(),
            heap@.wf(),
            heap@ == decrement_all(h0, ps@.subrange(0, i as int)),
        decreases ps@.len() - i,
    {
        assert(ps@.subrange(0, i + 1).drop_last() =~= ps@.subrange(0, i as int));
        heap.decrement(ps[i]);
        i = i + 1;
    }
    assert(ps@.subrange(0, ps@.len() as int) =~= ps@);
    Ok(())
}

/// A decrement statement on a pointer to a union that lives on the heap takes exactly
/// one owner away from the block it points to, so that the block's lifecycle is the
/// heap's own.
pub proof fn lemma_decrement_value_of_pointer(u: UnionLayout, a: usize, h: HeapModel)
    requires
        !(u is NonRecursive),
    ensures
        owned_ptrs(Layout::Union(u), Value::Ptr(a)) == Some(seq![a]),
        decrement_all(h, seq![a]) == h.decrement(a),
{
    assert(seq![a].drop_last() =~= Seq::<usize>::empty());
    assert(decrement_all(h, Seq::<usize>::empty()) == h);
    assert(decrement_all(h, seq![a]) == decrement_all(h, seq![a].drop_last()).decrement(seq![a].last()));
}

} // verus!
