//! Machine values and the reference-counted heap that heap-shaped values live in.
//!
//! Every heap block carries a count of its owners. A block is created with count one;
//! increments and decrements are explicit; the decrement that takes the count to zero
//! frees the block and then releases every pointer that the block's fields hold.
use vstd::prelude::*;

verus! {

broadcast use {vstd::std_specs::vec::group_vec_axioms, vstd::seq::group_seq_axioms};

/// A materialized machine value.
#[derive(Debug)]
pub enum Value {
    /// A scalar of at most one machine word.
    Word(i64),
    /// The null pointer.
    Null,
    /// A pointer to the data of a heap block.
    Ptr(usize),
    /// An inline struct.
    Block(Vec<Value>),
    /// An inline union value: its discriminant and the fields of that variant.
    Tagged(u64, Vec<Value>),
}

/// What a heap block holds: a discriminant where its union stores one, and fields.
#[derive(Debug)]
pub struct Node {
    pub tag: Option<u64>,
    pub fields: Vec<Value>,
}

/// The heap pointers that a value holds, in order.
pub open spec fn ptrs_of(v: Value) -> Seq<usize>
    decreases v,
{
    match v {
        Value::Ptr(a) => seq![a],
        Value::Block(vs) => ptrs_in(vs@),
        Value::Tagged(_, vs) => ptrs_in(vs@),
        _ => Seq::empty(),
    }
}

/// The heap pointers that a sequence of values holds, in order.
pub open spec fn ptrs_in(vs: Seq<Value>) -> Seq<usize>
    decreases vs,
{
    if vs.len() == 0 {
        Seq::empty()
    } else {
        ptrs_in(vs.subrange(0, vs.len() - 1)) + ptrs_of(vs[vs.len() - 1])
    }
}

/// The abstract state of a heap: per block its owner count, whether it is live, and its
/// contents; and every block freed so far, in order.
pub struct HeapModel {
    pub counts: Seq<i64>,
    pub live: Seq<bool>,
    pub nodes: Seq<Node>,
    pub freed: Seq<usize>,
}

/// Number of live blocks.
pub open spec fn count_live(live: Seq<bool>) -> nat
    decreases live.len(),
{
    if live.len() == 0 {
        0
    } else {
        count_live(live.drop_last()) + if live.last() {
            1nat
        } else {
            0nat
        }
    }
}

/// Marking a live block dead leaves one live block fewer.
pub proof fn lemma_count_live_kill(live: Seq<bool>, a: int)
    requires
        0 <= a < live.len(),
        live[a],
    ensures
        count_live(live.update(a, false)) + 1 == count_live(live),
    decreases live.len(),
{
    let u = live.update(a, false);
    if a == live.len() - 1 {
        assert(u.drop_last() =~= live.drop_last());
    } else {
        assert(u.drop_last() =~= live.drop_last().update(a, false));
        lemma_count_live_kill(live.drop_last(), a);
    }
}

/// The heap after releasing, one after another from the end of `work`, the blocks that
/// `work` points to: a release of a block with more than one owner takes one owner
/// away; a release of the last owner frees the block and queues the pointers its fields
/// hold. A pointer to no live block is passed over.
pub open spec fn drain(h: HeapModel, work: Seq<usize>) -> HeapModel
    decreases count_live(h.live), work.len(),
{
    if work.len() == 0 {
        h
    } else {
        let a = work.last();
        let rest = work.drop_last();
        if a >= h.live.len() || !h.live[a as int] {
            drain(h, rest)
        } else if h.counts[a as int] > 1 {
            drain(
                HeapModel { counts: h.counts.update(a as int, (h.counts[a as int] - 1) as i64), ..h },
                rest,
            )
        } else {
            proof {
                lemma_count_live_kill(h.live, a as int);
            }
            drain(
                HeapModel {
                    counts: h.counts.update(a as int, 0),
                    live: h.live.update(a as int, false),
                    nodes: h.nodes,
                    freed: h.freed.push(a),
                },
                rest + ptrs_in(h.nodes[a as int].fields@),
            )
        }
    }
}

/// The reference-counted heap.
pub struct Heap {
    counts: Vec<i64>,
    live: Vec<bool>,
    nodes: Vec<Node>,
    freed: Vec<usize>,
}

impl View for Heap {
    type V = HeapModel;

    closed spec fn view(&self) -> HeapModel {
        HeapModel { counts: self.counts@, live: self.live@, nodes: self.nodes@, freed: self.freed@ }
    }
}

impl HeapModel {
    /// Every block has a count, a liveness and contents; a live block has at least one
    /// owner and a freed one none.
    pub open spec fn wf(self) -> bool {
        &&& self.counts.len() == self.live.len()
        &&& self.nodes.len() == self.live.len()
        &&& forall|a: int|
            0 <= a < self.live.len() ==> (if self.live[a] {
                self.counts[a] >= 1
            } else {
                self.counts[a] == 0
            })
    }

    /// Whether `a` addresses a live block.
    pub open spec fn is_live(self, a: int) -> bool {
        0 <= a < self.live.len() && self.live[a]
    }

    /// The heap after allocating a block holding `node`, owned once.
    pub open spec fn reserve(self, node: Node) -> HeapModel {
        HeapModel {
            counts: self.counts.push(1),
            live: self.live.push(true),
            nodes: self.nodes.push(node),
            freed: self.freed,
        }
    }

    /// The heap after adding `n` owners to block `a`.
    pub open spec fn increment(self, a: int, n: int) -> HeapModel {
        HeapModel { counts: self.counts.update(a, (self.counts[a] + n) as i64), ..self }
    }

    /// The heap after taking one owner away from block `a`.
    pub open spec fn decrement(self, a: usize) -> HeapModel {
        drain(self, seq![a])
    }
}

/// One more value in the prefix.
pub proof fn lemma_ptrs_in_step(vs: Seq<Value>, i: int)
    requires
        0 <= i < vs.len(),
    ensures
        ptrs_in(vs.subrange(0, i + 1)) == ptrs_in(vs.subrange(0, i)) + ptrs_of(vs[i]),
{
    assert(vs.subrange(0, i + 1).subrange(0, i) =~= vs.subrange(0, i));
}

/// Appends to `out` the heap pointers that `v` holds.
pub(crate) fn push_ptrs(v: &Value, out: &mut Vec<usize>)
    ensures
        final(out)@ == old(out)@ + ptrs_of(*v),
    decreases v, 1nat,
{
    match v {
        Value::Ptr(a) => {
            out.push(*a);
        },
        Value::Block(vs) => {
            push_ptrs_in(vs, out);
        },
        Value::Tagged(_, vs) => {
            push_ptrs_in(vs, out);
        },
        _ => {
            assert(old(out)@ + ptrs_of(*v) =~= old(out)@);
        },
    }
}

/// Appends to `out` the heap pointers that the values of `vs` hold.
fn push_ptrs_in(vs: &Vec<Value>, out: &mut Vec<usize>)
    ensures
        final(out)@ == old(out)@ + ptrs_in(vs@),
    decreases vs, 0nat,
{
    let mut i: usize = 0;
    assert(old(out)@ + ptrs_in(vs@.subrange(0, 0)) =~= old(out)@);
    while i < vs.len()
        invariant
            i <= vs@.len(),
            out@ == old(out)@ + ptrs_in(vs@.subrange(0, i as int)),
        decreases vs.len() - i,
    {
        proof {
            lemma_ptrs_in_step(vs@, i as int);
        }
        let ghost before = out@;
        push_ptrs(&vs[i], out);
        assert(out@ =~= old(out)@ + ptrs_in(vs@.subrange(0, i as int + 1)));
        i = i + 1;
    }
    assert(vs@.subrange(0, vs@.len() as int) =~= vs@);
}

impl Heap {
    /// An empty heap.
    pub fn new() -> (h: Heap)
        ensures
            h@.wf(),
            h@.live.len() == 0,
            h@.freed.len() == 0,
    {
        Heap { counts: Vec::new(), live: Vec::new(), nodes: Vec::new(), freed: Vec::new() }
    }

    /// Allocates a block holding `node` with one owner, and returns its address.
    pub fn reserve(&mut self, node: Node) -> (a: usize)
        requires
            old(self)@.wf(),
        ensures
            a == old(self)@.live.len(),
            final(self)@ == old(self)@.reserve(node),
            final(self)@.wf(),
    {
        let a = self.live.len();
        self.counts.push(1);
        self.live.push(true);
        self.nodes.push(node);
        a
    }

    /// Adds `n` owners to the live block `a`.
    pub fn increment(&mut self, a: usize, n: i64)
        requires
            old(self)@.wf(),
            old(self)@.is_live(a as int),
            n >= 0,
            old(self)@.counts[a as int] + n <= i64::MAX,
        ensures
            final(self)@ == old(self)@.increment(a as int, n as int),
            final(self)@.wf(),
    {
        let c = self.counts[a];
        self.counts.set(a, c + n);
    }

    /// Takes one owner away from block `a`, freeing it, and then what it owns, when that
    /// was the last owner.
    pub fn decrement(&mut self, a: usize)
        requires
            old(self)@.wf(),
        ensures
            final(self)@ == old(self)@.decrement(a),
            final(self)@.wf(),
    {
        let mut work: Vec<usize> = Vec::new();
        work.push(a);
        assert(work@ =~= seq![a]);
        while work.len() > 0
            invariant
                self@.wf(),
                drain(self@, work@) == drain(old(self)@, seq![a]),
            decreases count_live(self@.live), work.len(),
        {
            let ghost h = self@;
            let ghost w = work@;
            let b = work.pop().unwrap();
            assert(work@ =~= w.drop_last());
            if b >= self.live.len() || !self.live[b] {
            } else if self.counts[b] > 1 {
                let c = self.counts[b];
                self.counts.set(b, c - 1);
                assert(self@ =~= HeapModel { counts: h.counts.update(b as int, (h.counts[b as int] - 1) as i64), ..h });
            } else {
                proof {
                    lemma_count_live_kill(h.live, b as int);
                }
                self.counts.set(b, 0);
                self.live.set(b, false);
                self.freed.push(b);
push_ptrs_in(&self.nodes[b].fields, &mut work);
                assert(self@ =~= HeapModel {
                    counts: h.counts.update(b as int, 0),
                    live: h.live.update(b as int, false),
                    nodes: h.nodes,
                    freed: h.freed.push(b),
                });
            }
        }
        assert(drain(self@, work@) == self@);
    }

    /// The owner count of block `a`.
    pub fn count(&self, a: usize) -> (r: i64)
        requires
            a < self@.counts.len(),
        ensures
            r == self@.counts[a as int],
    {
        self.counts[a]
    }

    /// Whether `a` addresses a live block.
    pub fn is_live(&self, a: usize) -> (r: bool)
        requires
            self@.wf(),
        ensures
            r == self@.is_live(a as int),
    {
        a < self.live.len() && self.live[a]
    }

    /// The contents of block `a`.
    pub fn node(&self, a: usize) -> (r: &Node)
        requires
            a < self@.nodes.len(),
        ensures
            *r == self@.nodes[a as int],
    {
        &self.nodes[a]
    }

    /// The blocks freed so far, in the order they were freed.
    pub fn freed(&self) -> (r: &Vec<usize>)
        ensures
            r@ == self@.freed,
    {
        &self.freed
    }
}

impl HeapModel {
    /// The heap after taking `k` owners away from block `a`, one at a time.
    pub open spec fn decrement_times(self, a: usize, k: nat) -> HeapModel
        decreases k,
    {
        if k == 0 {
            self
        } else {
            self.decrement(a).decrement_times(a, (k - 1) as nat)
        }
    }
}

/// Taking away fewer owners than a block has only lowers its count.
pub proof fn lemma_decrement_times_keeps(h: HeapModel, a: usize, k: nat)
    requires
        h.wf(),
        h.is_live(a as int),
        h.counts[a as int] > k,
    ensures
        h.decrement_times(a, k) == (HeapModel {
            counts: h.counts.update(a as int, (h.counts[a as int] - k) as i64),
            ..h
        }),
    decreases k,
{
    if k > 0 {
        reveal_with_fuel(drain, 2);
        let h1 = h.decrement(a);
        assert(h1 == HeapModel {
            counts: h.counts.update(a as int, (h.counts[a as int] - 1) as i64),
            ..h
        });
        lemma_decrement_times_keeps(h1, a, (k - 1) as nat);
        assert(h1.counts.update(a as int, (h1.counts[a as int] - (k - 1)) as i64) =~= h.counts.update(
            a as int,
            (h.counts[a as int] - k) as i64,
        ));
    } else {
        assert(h.counts.update(a as int, h.counts[a as int]) =~= h.counts);
    }
}

/// Allocating a block whose fields hold no pointer, adding `n` owners to it and then
/// taking `n + 1` owners away brings its count back to zero and frees that block, and
/// nothing else, exactly once.
pub proof fn lemma_reserve_increment_release(h: HeapModel, node: Node, n: nat)
    requires
        h.wf(),
        ptrs_in(node.fields@).len() == 0,
        n < i64::MAX,
        h.live.len() < usize::MAX,
    ensures
        ({
            let a = h.live.len() as usize;
            let h2 = h.reserve(node).increment(a as int, n as int).decrement_times(a, n + 1);
            &&& h2.counts[a as int] == 0
            &&& !h2.live[a as int]
            &&& h2.freed == h.freed.push(a)
        }),
{
    let a = h.live.len() as usize;
    let h0 = h.reserve(node);
    assert(h0.counts[a as int] == 1);
    let h1 = h0.increment(a as int, n as int);
    assert(h1.counts[a as int] == 1 + n);
    assert forall|b: int| 0 <= b < h1.live.len() implies (if h1.live[b] {
        h1.counts[b] >= 1
    } else {
        h1.counts[b] == 0
    }) by {
        if b != a {
            assert(h1.counts[b] == h.counts[b]);
            assert(h1.live[b] == h.live[b]);
        }
    }
    assert(h1.wf());
    lemma_decrement_times_keeps(h1, a, n);
    let hn = h1.decrement_times(a, n);
    assert(hn.counts[a as int] == 1);
    assert(hn.wf());
    reveal_with_fuel(drain, 2);
    assert(seq![a].drop_last() + ptrs_in(hn.nodes[a as int].fields@) =~= Seq::<usize>::empty());
    let last = hn.decrement(a);
    lemma_decrement_times_split(h1, a, n);
    assert(last.freed == h.freed.push(a));
}

/// Taking `k + 1` owners away is taking `k` and then one more.
pub proof fn lemma_decrement_times_split(h: HeapModel, a: usize, k: nat)
    ensures
        h.decrement_times(a, k + 1) == h.decrement_times(a, k).decrement(a),
    decreases k,
{
    if k > 0 {
        lemma_decrement_times_split(h.decrement(a), a, (k - 1) as nat);
    } else {
        assert(h.decrement_times(a, 1) == h.decrement(a).decrement_times(a, 0));
    }
}

/// `addrs` is a chain of distinct live blocks, each with one owner, where each block's
/// fields point to the next block and the last block's fields point nowhere.
pub open spec fn is_owned_chain(h: HeapModel, addrs: Seq<usize>) -> bool {
    &&& addrs.len() >= 1
    &&& addrs.no_duplicates()
    &&& forall|i: int|
        0 <= i < addrs.len() ==> #[trigger] h.is_live(addrs[i] as int) && h.counts[addrs[i] as int]
            == 1
    &&& forall|i: int|
        0 <= i < addrs.len() ==> #[trigger] ptrs_in(h.nodes[addrs[i] as int].fields@) == if i + 1
            < addrs.len() {
            seq![addrs[i + 1]]
        } else {
            Seq::empty()
        }
}

/// Releasing the only owner of the first block of an owned chain frees every block of
/// the chain, each once, from first to last, and touches no other block.
pub proof fn lemma_release_chain(h: HeapModel, addrs: Seq<usize>)
    requires
        h.wf(),
        is_owned_chain(h, addrs),
    ensures
        ({
            let r = h.decrement(addrs[0]);
            &&& r.wf()
            &&& r.freed == h.freed + addrs
            &&& r.nodes == h.nodes
            &&& r.live.len() == h.live.len()
            &&& forall|b: usize|
                (b as int) < h.live.len() ==> if addrs.contains(b) {
                    !r.live[b as int] && r.counts[b as int] == 0
                } else {
                    r.live[b as int] == h.live[b as int] && r.counts[b as int] == h.counts[b as int]
                }
        }),
    decreases addrs.len(),
{
    let a = addrs[0];
    assert(h.is_live(addrs[0] as int));
    let g = HeapModel {
        counts: h.counts.update(a as int, 0),
        live: h.live.update(a as int, false),
        nodes: h.nodes,
        freed: h.freed.push(a),
    };
    assert(ptrs_in(h.nodes[addrs[0] as int].fields@) == if 1 < addrs.len() {
        seq![addrs[1]]
    } else {
        Seq::<usize>::empty()
    });
    assert(g.wf());
    if addrs.len() == 1 {
        reveal_with_fuel(drain, 2);
        assert(seq![a].drop_last() + ptrs_in(h.nodes[a as int].fields@) =~= Seq::<usize>::empty());
        assert(h.freed + addrs =~= h.freed.push(a));
        assert forall|b: usize| (b as int) < h.live.len() implies (if addrs.contains(b) {
            !g.live[b as int] && g.counts[b as int] == 0
        } else {
            g.live[b as int] == h.live[b as int] && g.counts[b as int] == h.counts[b as int]
        }) by {
            if addrs.contains(b) {
                assert(addrs[0] == b);
            } else {
                assert(addrs[0] != b);
            }
        }
    } else {
        let rest = addrs.subrange(1, addrs.len() as int);
        assert(seq![a].drop_last() + ptrs_in(h.nodes[a as int].fields@) =~= seq![rest[0]]);
        assert(drain(h, seq![a]) == drain(g, seq![rest[0]]));
        assert forall|i: int| 0 <= i < rest.len() implies #[trigger] g.is_live(rest[i] as int)
            && g.counts[rest[i] as int] == 1 by {
            assert(rest[i] == addrs[i + 1]);
            assert(h.is_live(addrs[i + 1] as int));
            assert(addrs[i + 1] != addrs[0]);
        }
        assert forall|i: int| 0 <= i < rest.len() implies #[trigger] ptrs_in(
            g.nodes[rest[i] as int].fields@,
        ) == if i + 1 < rest.len() {
            seq![rest[i + 1]]
        } else {
            Seq::empty()
        } by {
            assert(rest[i] == addrs[i + 1]);
            assert(ptrs_in(h.nodes[addrs[i + 1] as int].fields@) == if i + 2 < addrs.len() {
                seq![addrs[i + 2]]
            } else {
                Seq::<usize>::empty()
            });
        }
        assert(rest.no_duplicates());
        lemma_release_chain(g, rest);
        let r = g.decrement(rest[0]);
        assert(g.freed + rest =~= h.freed + addrs);
        assert forall|b: usize| (b as int) < h.live.len() implies (if addrs.contains(b) {
            !r.live[b as int] && r.counts[b as int] == 0
        } else {
            r.live[b as int] == h.live[b as int] && r.counts[b as int] == h.counts[b as int]
        }) by {
            if addrs.contains(b) {
                let j = choose|j: int| 0 <= j < addrs.len() && addrs[j] == b;
                if j > 0 {
                    assert(rest[j - 1] == b);
                    assert(rest.contains(b));
                } else {
                    assert forall|k: int| 0 <= k < rest.len() implies rest[k] != b by {
                        assert(rest[k] == addrs[k + 1]);
                    }
                    assert(!rest.contains(b));
                }
            } else {
                assert forall|j: int| 0 <= j < rest.len() implies rest[j] != b by {
                    assert(rest[j] == addrs[j + 1]);
                }
                assert(!rest.contains(b));
                assert(addrs[0] != b);
            }
        }
    }
}

/// Releasing keeps the heap well formed, keeps blocks already freed freed, and only
/// appends to the record of frees blocks that were live, each once, and are now freed.
pub proof fn lemma_drain_frees(h: HeapModel, work: Seq<usize>)
    requires
        h.wf(),
    ensures
        ({
            let r = drain(h, work);
            let new = r.freed.subrange(h.freed.len() as int, r.freed.len() as int);
            &&& r.wf()
            &&& r.nodes == h.nodes
            &&& r.live.len() == h.live.len()
            &&& r.freed.len() >= h.freed.len()
            &&& r.freed.subrange(0, h.freed.len() as int) == h.freed
            &&& new.no_duplicates()
            &&& forall|i: int| 0 <= i < new.len() ==> h.is_live(#[trigger] new[i] as int) && !r.live[new[i] as int]
            &&& forall|b: int| 0 <= b < h.live.len() && !h.live[b] ==> !r.live[b] && r.counts[b] == 0
        }),
    decreases count_live(h.live), work.len(),
{
    if work.len() == 0 {
        assert(h.freed.subrange(0, h.freed.len() as int) =~= h.freed);
        assert(h.freed.subrange(h.freed.len() as int, h.freed.len() as int) =~= Seq::<usize>::empty());
    } else {
        let a = work.last();
        let rest = work.drop_last();
        if a >= h.live.len() || !h.live[a as int] {
            lemma_drain_frees(h, rest);
        } else if h.counts[a as int] > 1 {
            let h1 = HeapModel { counts: h.counts.update(a as int, (h.counts[a as int] - 1) as i64), ..h };
            assert(h1.wf());
            lemma_drain_frees(h1, rest);
        } else {
            lemma_count_live_kill(h.live, a as int);
            let g = HeapModel {
                counts: h.counts.update(a as int, 0),
                live: h.live.update(a as int, false),
                nodes: h.nodes,
                freed: h.freed.push(a),
            };
            assert(g.wf());
            let w2 = rest + ptrs_in(h.nodes[a as int].fields@);
            lemma_drain_frees(g, w2);
            let r = drain(g, w2);
            assert(drain(h, work) == r);
            let new_g = r.freed.subrange(g.freed.len() as int, r.freed.len() as int);
            let new = r.freed.subrange(h.freed.len() as int, r.freed.len() as int);
            assert(r.freed.subrange(0, g.freed.len() as int) == g.freed);
            assert(new =~= seq![a] + new_g) by {
                assert(r.freed[h.freed.len() as int] == g.freed.subrange(0, g.freed.len() as int)[h.freed.len() as int]);
            }
            assert(r.freed.subrange(0, h.freed.len() as int) =~= g.freed.subrange(0, h.freed.len() as int));
            assert forall|i: int| 0 <= i < new.len() implies h.is_live(#[trigger] new[i] as int) && !r.live[new[i] as int] by {
                if i > 0 {
                    assert(new[i] == new_g[i - 1]);
                    assert(g.is_live(new_g[i - 1] as int));
                } else {
                    assert(!g.live[a as int]);
                }
            }
            assert forall|x: int, y: int| 0 <= x < y < new.len() implies new[x] != new[y] by {
                assert(new[y] == new_g[y - 1]);
                assert(g.is_live(new_g[y - 1] as int));
                if x > 0 {
                    assert(new[x] == new_g[x - 1]);
                }
            }
        }
    }
}

/// Allocating a block, adding `n` owners to it and then taking `n + 1` away brings its
/// count back to zero and frees it, and among all the blocks freed on the way, those it
/// owned included, it is freed exactly once.
pub proof fn lemma_reserve_increment_release_owning(h: HeapModel, node: Node, n: nat)
    requires
        h.wf(),
        n < i64::MAX,
        h.live.len() < usize::MAX,
    ensures
        ({
            let a = h.live.len() as usize;
            let h2 = h.reserve(node).increment(a as int, n as int).decrement_times(a, n + 1);
            &&& h2.counts[a as int] == 0
            &&& !h2.live[a as int]
            &&& h2.freed.len() > h.freed.len()
            &&& h2.freed[h.freed.len() as int] == a
            &&& h2.freed.subrange(0, h.freed.len() as int) == h.freed
            &&& forall|i: int| h.freed.len() < i < h2.freed.len() ==> h2.freed[i] != a
        }),
{
    let a = h.live.len() as usize;
    let h0 = h.reserve(node);
    let h1 = h0.increment(a as int, n as int);
    assert(h1.counts[a as int] == 1 + n);
    assert forall|b: int| 0 <= b < h1.live.len() implies (if h1.live[b] {
        h1.counts[b] >= 1
    } else {
        h1.counts[b] == 0
    }) by {
        if b != a {
            assert(h1.counts[b] == h.counts[b]);
            assert(h1.live[b] == h.live[b]);
        }
    }
    lemma_decrement_times_keeps(h1, a, n);
    let hn = h1.decrement_times(a, n);
    assert(hn.counts[a as int] == 1);
    assert(hn.wf());
    lemma_decrement_times_split(h1, a, n);
    lemma_count_live_kill(hn.live, a as int);
    let g = HeapModel {
        counts: hn.counts.update(a as int, 0),
        live: hn.live.update(a as int, false),
        nodes: hn.nodes,
        freed: hn.freed.push(a),
    };
    assert(g.wf());
    let w = seq![a].drop_last() + ptrs_in(hn.nodes[a as int].fields@);
    assert(hn.decrement(a) == drain(g, w));
    lemma_drain_frees(g, w);
    let r = drain(g, w);
    assert(hn.freed == h.freed);
    assert(r.freed.subrange(0, g.freed.len() as int) == g.freed);
    assert(r.freed[h.freed.len() as int] == g.freed.subrange(0, g.freed.len() as int)[h.freed.len() as int]);
    assert(r.freed.subrange(0, h.freed.len() as int) =~= g.freed.subrange(0, h.freed.len() as int));
    assert forall|i: int| h.freed.len() < i < r.freed.len() implies r.freed[i] != a by {
        let new = r.freed.subrange(g.freed.len() as int, r.freed.len() as int);
        assert(r.freed[i] == new[i - g.freed.len()]);
        assert(g.is_live(new[i - g.freed.len()] as int));
    }
}

} // verus!
