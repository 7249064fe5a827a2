//! The scope of a procedure under generation: what each symbol is bound to, with the
//! latest binding of a symbol hiding earlier ones until it is removed, and the join
//! points that jumps may target.
use vstd::prelude::*;
use crate::heap::Value;
use crate::layout::Layout;

verus! {

broadcast use {vstd::std_specs::vec::group_vec_axioms, vstd::seq::group_seq_axioms};

/// What a symbol is bound to: its layout and its materialized value.
#[derive(Debug)]
pub struct Binding {
    pub symbol: u64,
    pub layout: Layout,
    pub value: Value,
}

/// Where jumps to a join point go: the block of its body and the slots of its
/// parameters.
#[derive(Clone, Copy, Debug, PartialEq, Eq)]
pub struct JoinTarget {
    pub block: u64,
    pub first_slot: u64,
    pub arity: u64,
}

/// The index of the latest binding of `sym` among `bs[.. n]`, if any.
pub open spec fn latest(bs: Seq<Binding>, sym: u64, n: int) -> Option<int>
    decreases n,
{
    if n <= 0 {
        None
    } else if bs[n - 1].symbol == sym {
        Some(n - 1)
    } else {
        latest(bs, sym, n - 1)
    }
}

/// The index of the latest join point registered under `id` among `js[.. n]`, if any.
pub open spec fn latest_join(js: Seq<(u64, JoinTarget)>, id: u64, n: int) -> Option<int>
    decreases n,
{
    if n <= 0 {
        None
    } else if js[n - 1].0 == id {
        Some(n - 1)
    } else {
        latest_join(js, id, n - 1)
    }
}

/// A latest binding found is a binding of that symbol, in range.
pub proof fn lemma_latest_in_range(bs: Seq<Binding>, sym: u64, n: int)
    requires
        n <= bs.len(),
    ensures
        latest(bs, sym, n) is Some ==> 0 <= latest(bs, sym, n)->0 < n && bs[latest(bs, sym, n)->0].symbol
            == sym,
    decreases n,
{
    if n > 0 && bs[n - 1].symbol != sym {
        lemma_latest_in_range(bs, sym, n - 1);
    }
}

/// The scope of one procedure.
#[derive(Debug)]
pub struct Scope {
    bindings: Vec<Binding>,
    joins: Vec<(u64, JoinTarget)>,
}

impl Scope {
    /// The bindings, oldest first.
    pub closed spec fn bindings_view(&self) -> Seq<Binding> {
        self.bindings@
    }

    /// The join points, oldest first.
    pub closed spec fn joins_view(&self) -> Seq<(u64, JoinTarget)> {
        self.joins@
    }

    /// The binding that `sym` refers to, if any.
    pub open spec fn resolve(&self, sym: u64) -> Option<Binding> {
        match latest(self.bindings_view(), sym, self.bindings_view().len() as int) {
            Some(i) => Some(self.bindings_view()[i]),
            None => None,
        }
    }

    /// The join point that `id` refers to, if any.
    pub open spec fn resolve_join(&self, id: u64) -> Option<JoinTarget> {
        match latest_join(self.joins_view(), id, self.joins_view().len() as int) {
            Some(i) => Some(self.joins_view()[i].1),
            None => None,
        }
    }

    /// An empty scope.
    pub fn new() -> (r: Scope)
        ensures
            r.bindings_view().len() == 0,
            r.joins_view().len() == 0,
    {
        Scope { bindings: Vec::new(), joins: Vec::new() }
    }

    /// Binds `symbol`, hiding any earlier binding of it.
    pub fn bind(&mut self, symbol: u64, layout: Layout, value: Value)
        ensures
            final(self).bindings_view() == old(self).bindings_view().push(
                Binding { symbol, layout, value },
            ),
            final(self).joins_view() == old(self).joins_view(),
            final(self).resolve(symbol) == Some(Binding { symbol, layout, value }),
            forall|s: u64| s != symbol ==> #[trigger] final(self).resolve(s) == old(self).resolve(s),
    {
        self.bindings.push(Binding { symbol, layout, value });
        proof {
            let bs = self.bindings@;
            assert(bs.subrange(0, old(self).bindings@.len() as int) =~= old(self).bindings@);
            assert forall|s: u64| s != symbol implies #[trigger] latest(bs, s, bs.len() as int) == latest(
                old(self).bindings@,
                s,
                old(self).bindings@.len() as int,
            ) by {
                lemma_latest_prefix(old(self).bindings@, bs, s, old(self).bindings@.len() as int);
            }
            assert forall|s: u64| s != symbol implies #[trigger] self.resolve(s) == old(self).resolve(s) by {
                lemma_latest_prefix(old(self).bindings@, bs, s, old(self).bindings@.len() as int);
                lemma_latest_in_range(bs, s, bs.len() as int);
                lemma_latest_in_range(old(self).bindings@, s, old(self).bindings@.len() as int);
            }
        }
    }

    /// The binding that `sym` refers to, if any.
    pub fn try_lookup(&self, sym: u64) -> (r: Option<&Binding>)
        ensures
            match r {
                Some(b) => self.resolve(sym) == Some(*b),
                None => self.resolve(sym) is None,
            },
    {
        let mut i: usize = self.bindings.len();
        while i > 0
            invariant
                i <= self.bindings@.len(),
                latest(self.bindings@, sym, self.bindings@.len() as int) == latest(self.bindings@, sym, i as int),
            decreases i,
        {
            if self.bindings[i - 1].symbol == sym {
                return Some(&self.bindings[i - 1]);
            }
            i = i - 1;
        }
        None
    }

    /// The binding that `sym` refers to; the symbol must be bound.
    pub fn lookup(&self, sym: u64) -> (r: &Binding)
        requires
            self.resolve(sym) is Some,
        ensures
            self.resolve(sym) == Some(*r),
    {
        match self.try_lookup(sym) {
            Some(b) => b,
            None => &self.bindings[0],
        }
    }

    /// Removes the latest binding of `sym`, uncovering the one it hid; returns it.
    pub fn unbind(&mut self, sym: u64) -> (r: Option<Binding>)
        ensures
            r == old(self).resolve(sym),
            final(self).joins_view() == old(self).joins_view(),
            match latest(old(self).bindings_view(), sym, old(self).bindings_view().len() as int) {
                Some(i) => final(self).bindings_view() == old(self).bindings_view().remove(i),
                None => final(self).bindings_view() == old(self).bindings_view(),
            },
    {
        proof {
            lemma_latest_in_range(self.bindings@, sym, self.bindings@.len() as int);
        }
        let mut i: usize = self.bindings.len();
        while i > 0
            invariant
                i <= self.bindings@.len(),
                self.bindings@ == old(self).bindings@,
                self.joins@ == old(self).joins@,
                latest(self.bindings@, sym, self.bindings@.len() as int) == latest(self.bindings@, sym, i as int),
            decreases i,
        {
            if self.bindings[i - 1].symbol == sym {
                let b = self.bindings.remove(i - 1);
                return Some(b);
            }
            i = i - 1;
        }
        None
    }

    /// Registers a join point under `id`, hiding any earlier one of that id.
    pub fn bind_join(&mut self, id: u64, target: JoinTarget)
        ensures
            final(self).joins_view() == old(self).joins_view().push((id, target)),
            final(self).bindings_view() == old(self).bindings_view(),
            final(self).resolve_join(id) == Some(target),
    {
        self.joins.push((id, target));
    }

    /// The join point that `id` refers to, if any.
    pub fn lookup_join(&self, id: u64) -> (r: Option<JoinTarget>)
        ensures
            r == self.resolve_join(id),
    {
        let mut i: usize = self.joins.len();
        while i > 0
            invariant
                i <= self.joins@.len(),
                latest_join(self.joins@, id, self.joins@.len() as int) == latest_join(self.joins@, id, i as int),
            decreases i,
        {
            if self.joins[i - 1].0 == id {
                return Some(self.joins[i - 1].1);
            }
            i = i - 1;
        }
        None
    }
}

/// Bindings added after the first `n` do not change the latest binding of a symbol
/// that none of them binds.
pub proof fn lemma_latest_prefix(old_bs: Seq<Binding>, bs: Seq<Binding>, s: u64, n: int)
    requires
        n == old_bs.len(),
        bs.len() == n + 1,
        bs.subrange(0, n) == old_bs,
        bs[n].symbol != s,
    ensures
        latest(bs, s, bs.len() as int) == latest(old_bs, s, n),
{
    lemma_latest_same(old_bs, bs, s, n);
}

/// Two sequences that agree on a prefix agree on the latest binding within it.
proof fn lemma_latest_same(a: Seq<Binding>, b: Seq<Binding>, s: u64, k: int)
    requires
        0 <= k <= a.len(),
        a.len() <= b.len(),
        a == b.subrange(0, a.len() as int),
    ensures
        latest(a, s, k) == latest(b, s, k),
    decreases k,
{
    if k > 0 {
        assert(b.subrange(0, a.len() as int)[k - 1] == b[k - 1]);
        lemma_latest_same(a, b, s, k - 1);
    }
}

/// Binding a symbol and then removing it leaves the scope as it was.
pub proof fn lemma_bind_unbind(bs: Seq<Binding>, b: Binding)
    ensures
        latest(bs.push(b), b.symbol, bs.len() + 1 as int) == Some(bs.len() as int),
        bs.push(b).remove(bs.len() as int) == bs,
{
    assert(bs.push(b).remove(bs.len() as int) =~= bs);
}

/// The latest binding of a symbol in `a + b` is its latest one in `b`, if any, else its
/// latest one in `a`.
pub proof fn lemma_latest_concat(a: Seq<Binding>, b: Seq<Binding>, s: u64, k: int)
    requires
        0 <= k <= b.len(),
    ensures
        latest(a + b, s, a.len() + k) == match latest(b, s, k) {
            Some(i) => Some(a.len() + i),
            None => latest(a, s, a.len() as int),
        },
    decreases k,
{
    if k == 0 {
        assert((a + b).subrange(0, a.len() as int) =~= a);
        lemma_latest_same(a, a + b, s, a.len() as int);
    } else {
        assert((a + b)[a.len() + k - 1] == b[k - 1]);
        lemma_latest_concat(a, b, s, k - 1);
    }
}

/// A latest join point found is one of that id, in range.
pub proof fn lemma_latest_join_in_range(js: Seq<(u64, JoinTarget)>, id: u64, n: int)
    requires
        n <= js.len(),
    ensures
        latest_join(js, id, n) is Some ==> 0 <= latest_join(js, id, n)->0 < n && js[latest_join(
            js,
            id,
            n,
        )->0].0 == id,
    decreases n,
{
    if n > 0 && js[n - 1].0 != id {
        lemma_latest_join_in_range(js, id, n - 1);
    }
}

/// The same for join points.
pub proof fn lemma_latest_join_concat(
    a: Seq<(u64, JoinTarget)>,
    b: Seq<(u64, JoinTarget)>,
    id: u64,
    k: int,
)
    requires
        0 <= k <= b.len(),
    ensures
        latest_join(a + b, id, a.len() + k) == match latest_join(b, id, k) {
            Some(i) => Some(a.len() + i),
            None => latest_join(a, id, a.len() as int),
        },
    decreases k,
{
    if k == 0 {
        assert((a + b).subrange(0, a.len() as int) =~= a);
        lemma_latest_join_same(a, a + b, id, a.len() as int);
    } else {
        assert((a + b)[a.len() + k - 1] == b[k - 1]);
        lemma_latest_join_concat(a, b, id, k - 1);
    }
}

/// Two sequences that agree on a prefix agree on the latest join point within it.
proof fn lemma_latest_join_same(a: Seq<(u64, JoinTarget)>, b: Seq<(u64, JoinTarget)>, id: u64, k: int)
    requires
        0 <= k <= a.len(),
        a.len() <= b.len(),
        a == b.subrange(0, a.len() as int),
    ensures
        latest_join(a, id, k) == latest_join(b, id, k),
    decreases k,
{
    if k > 0 {
        assert(b.subrange(0, a.len() as int)[k - 1] == b[k - 1]);
        lemma_latest_join_same(a, b, id, k - 1);
    }
}

/// The scope of one branch of a conditional: it sees every binding of the enclosing
/// scope, which it shares rather than copies and cannot change, and holds its own
/// bindings on top, which go away with it and never reach a sibling branch.
#[derive(Debug)]
pub struct BranchScope<'a> {
    parent: &'a Scope,
    local: Scope,
}

impl<'a> BranchScope<'a> {
    /// The enclosing scope.
    pub closed spec fn parent_view(&self) -> Scope {
        *self.parent
    }

    /// The bindings the branch sees, oldest first.
    pub closed spec fn bindings_view(&self) -> Seq<Binding> {
        self.parent.bindings_view() + self.local.bindings_view()
    }

    /// The join points the branch sees, oldest first.
    pub closed spec fn joins_view(&self) -> Seq<(u64, JoinTarget)> {
        self.parent.joins_view() + self.local.joins_view()
    }

    /// The binding that `sym` refers to in the branch, if any.
    pub open spec fn resolve(&self, sym: u64) -> Option<Binding> {
        match latest(self.bindings_view(), sym, self.bindings_view().len() as int) {
            Some(i) => Some(self.bindings_view()[i]),
            None => None,
        }
    }

    /// The join point that `id` refers to in the branch, if any.
    pub open spec fn resolve_join(&self, id: u64) -> Option<JoinTarget> {
        match latest_join(self.joins_view(), id, self.joins_view().len() as int) {
            Some(i) => Some(self.joins_view()[i].1),
            None => None,
        }
    }

    /// A branch of `parent` that sees exactly what `parent` binds.
    pub fn new(parent: &'a Scope) -> (r: BranchScope<'a>)
        ensures
            r.parent_view() == *parent,
            r.bindings_view() == parent.bindings_view(),
            r.joins_view() == parent.joins_view(),
    {
        let r = BranchScope { parent, local: Scope::new() };
        assert(r.bindings_view() =~= parent.bindings_view());
        assert(r.joins_view() =~= parent.joins_view());
        r
    }

    /// Binds `symbol` in the branch, hiding any earlier binding of it.
    pub fn bind(&mut self, symbol: u64, layout: Layout, value: Value)
        ensures
            final(self).parent_view() == old(self).parent_view(),
            final(self).bindings_view() == old(self).bindings_view().push(
                Binding { symbol, layout, value },
            ),
            final(self).joins_view() == old(self).joins_view(),
    {
        self.local.bind(symbol, layout, value);
        assert(self.bindings_view() =~= old(self).bindings_view().push(Binding { symbol, layout, value }));
    }

    /// Registers a join point in the branch under `id`.
    pub fn bind_join(&mut self, id: u64, target: JoinTarget)
        ensures
            final(self).parent_view() == old(self).parent_view(),
            final(self).joins_view() == old(self).joins_view().push((id, target)),
            final(self).bindings_view() == old(self).bindings_view(),
    {
        self.local.bind_join(id, target);
        assert(self.joins_view() =~= old(self).joins_view().push((id, target)));
    }

    /// The binding that `sym` refers to in the branch, if any.
    pub fn try_lookup(&self, sym: u64) -> (r: Option<&Binding>)
        ensures
            match r {
                Some(b) => self.resolve(sym) == Some(*b),
                None => self.resolve(sym) is None,
            },
    {
        let ghost pb = self.parent.bindings_view();
        let ghost lb = self.local.bindings_view();
        proof {
            lemma_latest_concat(pb, lb, sym, lb.len() as int);
            lemma_latest_in_range(lb, sym, lb.len() as int);
            lemma_latest_in_range(pb, sym, pb.len() as int);
        }
        match self.local.try_lookup(sym) {
            Some(b) => Some(b),
            None => self.parent.try_lookup(sym),
        }
    }

    /// The join point that `id` refers to in the branch, if any.
    pub fn lookup_join(&self, id: u64) -> (r: Option<JoinTarget>)
        ensures
            r == self.resolve_join(id),
    {
        let ghost pj = self.parent.joins_view();
        let ghost lj = self.local.joins_view();
        proof {
            lemma_latest_join_concat(pj, lj, id, lj.len() as int);
            lemma_latest_join_in_range(lj, id, lj.len() as int);
            lemma_latest_join_in_range(pj, id, pj.len() as int);
        }
        match self.local.lookup_join(id) {
            Some(t) => Some(t),
            None => self.parent.lookup_join(id),
        }
    }
}

} // verus!
