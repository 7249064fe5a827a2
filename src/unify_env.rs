//! The environment of unification: type variables grouped into equivalence classes, the
//! pairs of recursive variables being unified, and the variables fixed so far.
use vstd::prelude::*;

verus! {

/// A type variable.
#[derive(Clone, Copy, Debug, PartialEq, Eq, Structural)]
pub struct Variable(pub u32);

/// Type variables in equivalence classes: each variable names the representative of its
/// class, and a representative names itself.
#[derive(Debug)]
pub struct Subs {
    roots: Vec<u32>,
}

impl View for Subs {
    type V = Seq<u32>;

    /// The representative of each variable.
    closed spec fn view(&self) -> Seq<u32> {
        self.roots@
    }
}

/// Whether `roots` maps every variable to a representative that is its own.
pub open spec fn roots_wf(roots: Seq<u32>) -> bool {
    &&& roots.len() <= u32::MAX
    &&& forall|i: int|
        0 <= i < roots.len() ==> (#[trigger] roots[i] as int) < roots.len() && roots[roots[i] as int]
            == roots[i]
}

impl Subs {
    /// Every variable names a representative of its own.
    pub open spec fn wf(&self) -> bool {
        roots_wf(self@)
    }

    /// Whether `v` is a variable of this table.
    pub open spec fn has(&self, v: Variable) -> bool {
        (v.0 as int) < self@.len()
    }

    /// The representative of the class of `v`.
    pub open spec fn root(&self, v: Variable) -> Variable {
        Variable(self@[v.0 as int])
    }

    /// A table with no variables.
    pub fn new() -> (r: Subs)
        ensures
            r.wf(),
            r@.len() == 0,
    {
        Subs { roots: Vec::new() }
    }

    /// Number of variables.
    pub fn len(&self) -> (r: usize)
        ensures
            r == self@.len(),
    {
        self.roots.len()
    }

    /// A new variable in a class of its own.
    pub fn fresh(&mut self) -> (v: Variable)
        requires
            old(self).wf(),
            old(self)@.len() < u32::MAX,
        ensures
            final(self).wf(),
            v.0 == old(self)@.len(),
            final(self)@ == old(self)@.push(v.0),
    {
        let n = self.roots.len() as u32;
        self.roots.push(n);
        Variable(n)
    }

    /// The representative of the class of `v`, without shortening any path.
    pub fn get_root_key_without_compacting(&self, v: Variable) -> (r: Variable)
        requires
            self.wf(),
            self.has(v),
        ensures
            r == self.root(v),
    {
        Variable(self.roots[v.0 as usize])
    }

    /// Whether `a` and `b` are in the same class.
    pub fn equivalent_without_compacting(&self, a: Variable, b: Variable) -> (r: bool)
        requires
            self.wf(),
            self.has(a),
            self.has(b),
        ensures
            r == (self.root(a) == self.root(b)),
    {
        self.roots[a.0 as usize] == self.roots[b.0 as usize]
    }

    /// Merges the classes of `a` and `b`; the representative of `a`'s class represents
    /// the merged class.
    pub fn union(&mut self, a: Variable, b: Variable)
        requires
            old(self).wf(),
            old(self).has(a),
            old(self).has(b),
        ensures
            final(self).wf(),
            final(self)@.len() == old(self)@.len(),
            forall|v: Variable|
                old(self).has(v) ==> #[trigger] final(self).root(v) == if old(self).root(v)
                    == old(self).root(b) {
                    old(self).root(a)
                } else {
                    old(self).root(v)
                },
    {
        let ra = self.roots[a.0 as usize];
        let rb = self.roots[b.0 as usize];
        let ghost r0 = self@;
        let mut i: usize = 0;
        while i < self.roots.len()
            invariant
                roots_wf(r0),
                self@.len() == r0.len(),
                ra == r0[a.0 as int],
                rb == r0[b.0 as int],
                (a.0 as int) < r0.len(),
                (b.0 as int) < r0.len(),
                forall|j: int| 0 <= j < i ==> self@[j] == if r0[j] == rb { ra } else { r0[j] },
                forall|j: int| i <= j < r0.len() ==> self@[j] == r0[j],
            decreases r0.len() - i,
        {
            if self.roots[i] == rb {
                self.roots.set(i, ra);
            }
            i = i + 1;
        }
        assert forall|j: int| 0 <= j < self@.len() implies (#[trigger] self@[j] as int) < self@.len()
            && self@[self@[j] as int] == self@[j] by {
            assert(r0[r0[j] as int] == r0[j]);
            assert(r0[ra as int] == ra);
        }
    }
}

/// The environment of one unification.
#[derive(Debug)]
pub struct Env {
    subs: Subs,
    seen_recursion: Vec<(Variable, Variable)>,
    fixed_variables: Vec<Variable>,
}

impl Env {
    /// The variable table.
    pub closed spec fn subs_view(&self) -> Subs {
        self.subs
    }

    /// The recursive pairs being unified, by their representatives, in order of entry.
    pub closed spec fn seen(&self) -> Seq<(Variable, Variable)> {
        self.seen_recursion@
    }

    /// The variables fixed so far.
    pub closed spec fn fixed(&self) -> Seq<Variable> {
        self.fixed_variables@
    }

    /// The variable table is well formed, every recorded pair and fixed variable
    /// belongs to it, and none is recorded twice.
    pub open spec fn wf(&self) -> bool {
        &&& self.subs_view().wf()
        &&& forall|i: int|
            0 <= i < self.seen().len() ==> self.subs_view().has(#[trigger] self.seen()[i].0)
                && self.subs_view().has(self.seen()[i].1)
        &&& forall|i: int| 0 <= i < self.fixed().len() ==> self.subs_view().has(#[trigger] self.fixed()[i])
        &&& self.seen().no_duplicates()
        &&& self.fixed().no_duplicates()
    }

    /// An environment over `subs` with no recursive pairs and no fixed variables.
    pub fn new(subs: Subs) -> (r: Env)
        requires
            subs.wf(),
        ensures
            r.wf(),
            r.subs_view() == subs,
            r.seen().len() == 0,
            r.fixed().len() == 0,
    {
        Env { subs, seen_recursion: Vec::new(), fixed_variables: Vec::new() }
    }

    /// The variable table.
    pub fn subs(&self) -> (r: &Subs)
        ensures
            *r == self.subs_view(),
    {
        &self.subs
    }

    /// A new variable in a class of its own, in the environment's table.
    pub fn fresh_variable(&mut self) -> (v: Variable)
        requires
            old(self).wf(),
            old(self).subs_view()@.len() < u32::MAX,
        ensures
            final(self).wf(),
            v.0 == old(self).subs_view()@.len(),
            final(self).subs_view()@ == old(self).subs_view()@.push(v.0),
            final(self).seen() == old(self).seen(),
            final(self).fixed() == old(self).fixed(),
    {
        self.subs.fresh()
    }

    /// Merges the classes of `a` and `b` in the environment's table; the representative
    /// of `a`'s class represents the merged class.
    pub fn union(&mut self, a: Variable, b: Variable)
        requires
            old(self).wf(),
            old(self).subs_view().has(a),
            old(self).subs_view().has(b),
        ensures
            final(self).wf(),
            final(self).subs_view()@.len() == old(self).subs_view()@.len(),
            forall|v: Variable|
                old(self).subs_view().has(v) ==> #[trigger] final(self).subs_view().root(v) == if old(
                    self,
                ).subs_view().root(v) == old(self).subs_view().root(b) {
                    old(self).subs_view().root(a)
                } else {
                    old(self).subs_view().root(v)
                },
            final(self).seen() == old(self).seen(),
            final(self).fixed() == old(self).fixed(),
    {
        self.subs.union(a, b);
    }

    /// Records that the recursive variables `var1` and `var2` are being unified. The
    /// pair must not be recorded already.
    pub fn add_recursion_pair(&mut self, var1: Variable, var2: Variable)
        requires
            old(self).wf(),
            old(self).subs_view().has(var1),
            old(self).subs_view().has(var2),
            !old(self).seen().contains(
                (old(self).subs_view().root(var1), old(self).subs_view().root(var2)),
            ),
        ensures
            final(self).wf(),
            final(self).subs_view() == old(self).subs_view(),
            final(self).fixed() == old(self).fixed(),
            final(self).seen() == old(self).seen().push(
                (old(self).subs_view().root(var1), old(self).subs_view().root(var2)),
            ),
    {
        let pair = (
            self.subs.get_root_key_without_compacting(var1),
            self.subs.get_root_key_without_compacting(var2),
        );
        self.seen_recursion.push(pair);
    }

    /// Drops every recorded pair whose variables are equivalent to `var1` and `var2`.
    /// Some pair must be dropped.
    pub fn remove_recursion_pair(&mut self, var1: Variable, var2: Variable)
        requires
            old(self).wf(),
            old(self).subs_view().has(var1),
            old(self).subs_view().has(var2),
            exists|i: int|
                0 <= i < old(self).seen().len() && #[trigger] is_pair_of(
                    old(self).subs_view(),
                    old(self).seen()[i],
                    var1,
                    var2,
                ),
        ensures
            final(self).wf(),
            final(self).subs_view() == old(self).subs_view(),
            final(self).fixed() == old(self).fixed(),
            final(self).seen() == old(self).seen().filter(
                |p: (Variable, Variable)| !is_pair_of(old(self).subs_view(), p, var1, var2),
            ),
            final(self).seen().len() < old(self).seen().len(),
    {
        let ghost s0 = self.seen_recursion@;
        let ghost keep = |p: (Variable, Variable)| !is_pair_of(self.subs, p, var1, var2);
        let mut kept: Vec<(Variable, Variable)> = Vec::new();
        let mut i: usize = 0;
        assert(s0.subrange(0, 0).filter(keep) =~= Seq::<(Variable, Variable)>::empty());
        while i < self.seen_recursion.len()
            invariant
                i <= s0.len(),
                self.seen_recursion@ == s0,
                self.subs.wf(),
                self.subs.has(var1),
                self.subs.has(var2),
                keep == (|p: (Variable, Variable)| !is_pair_of(self.subs, p, var1, var2)),
                forall|j: int|
                    0 <= j < s0.len() ==> self.subs.has(#[trigger] s0[j].0) && self.subs.has(s0[j].1),
                kept@ == s0.subrange(0, i as int).filter(keep),
                s0.no_duplicates(),
                kept@.no_duplicates(),
                forall|a: (Variable, Variable)| kept@.contains(a) ==> s0.subrange(0, i as int).contains(a),
            decreases s0.len() - i,
        {
            let (v1, v2) = self.seen_recursion[i];
            let is_recursion_pair = self.subs.equivalent_without_compacting(v1, var1)
                && self.subs.equivalent_without_compacting(v2, var2);
            proof {
                let pre = s0.subrange(0, i as int);
                assert(s0.subrange(0, i + 1) =~= pre.push(s0[i as int]));
                pre.lemma_filter_push(s0[i as int], keep);
            }
            let ghost before = kept@;
            if !is_recursion_pair {
                proof {
                    if before.contains(s0[i as int]) {
                        let pre = s0.subrange(0, i as int);
                        let k = choose|k: int| 0 <= k < pre.len() && pre[k] == s0[i as int];
                        assert(s0[k] == s0[i as int]);
                    }
                }
                kept.push((v1, v2));
            }
            i = i + 1;
            proof {
                assert forall|a: (Variable, Variable)| kept@.contains(a) implies s0.subrange(0, i as int).contains(a) by {
                    if before.contains(a) {
                        let pre = s0.subrange(0, i - 1);
                        let k = choose|k: int| 0 <= k < pre.len() && pre[k] == a;
                        assert(s0.subrange(0, i as int)[k] == a);
                    } else {
                        assert(s0.subrange(0, i as int)[i - 1] == a);
                    }
                }
            }
        }
        assert(s0.subrange(0, s0.len() as int) =~= s0);
        proof {
            let w = choose|w: int| 0 <= w < s0.len() && #[trigger] is_pair_of(self.subs, s0[w], var1, var2);
            lemma_filter_drops(s0, keep, w);
        }
        self.seen_recursion = kept;
        proof {
            assert forall|j: int| 0 <= j < self.seen().len() implies self.subs_view().has(
                #[trigger] self.seen()[j].0,
            ) && self.subs_view().has(self.seen()[j].1) by {
                assert(kept@.contains(kept@[j]));
                let all = s0.subrange(0, s0.len() as int);
                let k = choose|k: int| 0 <= k < all.len() && all[k] == kept@[j];
                assert(s0[k] == kept@[j]);
            }
        }
    }

    /// Whether the pair of the representatives of `var1` and `var2` is recorded.
    pub fn seen_recursion_pair(&self, var1: Variable, var2: Variable) -> (r: bool)
        requires
            self.wf(),
            self.subs_view().has(var1),
            self.subs_view().has(var2),
        ensures
            r == self.seen().contains((self.subs_view().root(var1), self.subs_view().root(var2))),
    {
        let r1 = self.subs.get_root_key_without_compacting(var1);
        let r2 = self.subs.get_root_key_without_compacting(var2);
        let mut i: usize = 0;
        while i < self.seen_recursion.len()
            invariant
                i <= self.seen().len(),
                self.seen() == self.seen_recursion@,
                r1 == self.subs_view().root(var1),
                r2 == self.subs_view().root(var2),
                forall|j: int| 0 <= j < i ==> self.seen_recursion@[j] != (r1, r2),
            decreases self.seen_recursion@.len() - i,
        {
            let p = self.seen_recursion[i];
            if p.0 == r1 && p.1 == r2 {
                assert(self.seen_recursion@[i as int] == (r1, r2));
                return true;
            }
            i = i + 1;
        }
        false
    }

    /// Whether some fixed variable is equivalent to `var`.
    pub fn was_fixed(&self, var: Variable) -> (r: bool)
        requires
            self.wf(),
            self.subs_view().has(var),
        ensures
            r == exists|i: int|
                0 <= i < self.fixed().len() && self.subs_view().root(#[trigger] self.fixed()[i])
                    == self.subs_view().root(var),
    {
        let mut i: usize = 0;
        while i < self.fixed_variables.len()
            invariant
                i <= self.fixed().len(),
                self.wf(),
                self.subs_view().has(var),
                self.fixed() == self.fixed_variables@,
                self.subs_view() == self.subs,
                forall|j: int| 0 <= j < self.fixed().len() ==> self.subs_view().has(#[trigger] self.fixed()[j]),
                forall|j: int| 0 <= j < i ==> self.subs_view().root(#[trigger] self.fixed()[j]) != self.subs_view().root(var),
            decreases self.fixed().len() - i,
        {
            if self.subs.equivalent_without_compacting(self.fixed_variables[i], var) {
                return true;
            }
            i = i + 1;
        }
        false
    }

    /// Adds to the fixed variables those of `vars` that are not fixed yet, in order.
    pub fn extend_fixed_variables(&mut self, vars: Vec<Variable>)
        requires
            old(self).wf(),
            forall|i: int| 0 <= i < vars@.len() ==> old(self).subs_view().has(#[trigger] vars@[i]),
        ensures
            final(self).wf(),
            final(self).subs_view() == old(self).subs_view(),
            final(self).seen() == old(self).seen(),
            final(self).fixed().subrange(0, old(self).fixed().len() as int) == old(self).fixed(),
            forall|v: Variable| #[trigger] final(self).fixed().contains(v) <==> (old(self).fixed().contains(v)
                || vars@.contains(v)),
    {
        let mut i: usize = 0;
        while i < vars.len()
            invariant
                i <= vars@.len(),
                forall|k: int| 0 <= k < vars@.len() ==> old(self).subs_view().has(#[trigger] vars@[k]),
                self.subs == old(self).subs,
                self.seen_recursion == old(self).seen_recursion,
                self.wf(),
                self.fixed().len() >= old(self).fixed().len(),
                self.fixed().subrange(0, old(self).fixed().len() as int) == old(self).fixed(),
                forall|v: Variable| #[trigger] self.fixed().contains(v) <==> (old(self).fixed().contains(v)
                    || vars@.subrange(0, i as int).contains(v)),
            decreases vars@.len() - i,
        {
            let v = vars[i];
            let mut present = false;
            let mut k: usize = 0;
            while k < self.fixed_variables.len()
                invariant
                    k <= self.fixed_variables@.len(),
                    !present ==> forall|t: int| 0 <= t < k ==> self.fixed_variables@[t] != v,
                    present ==> self.fixed_variables@.contains(v),
                decreases self.fixed_variables@.len() - k,
            {
                if self.fixed_variables[k] == v {
                    present = true;
                }
                k = k + 1;
            }
            let ghost before = self.fixed();
            if !present {
                self.fixed_variables.push(v);
                assert(self.fixed().subrange(0, old(self).fixed().len() as int) =~= before.subrange(
                    0,
                    old(self).fixed().len() as int,
                ));
            }
            i = i + 1;
            proof {
                assert(vars@.subrange(0, i as int) =~= vars@.subrange(0, i - 1).push(v));
                assert forall|w: Variable| #[trigger] self.fixed().contains(w) <==> (old(self).fixed().contains(w)
                    || vars@.subrange(0, i as int).contains(w)) by {
                    if self.fixed().contains(w) && w != v {
                        let t = choose|t: int| 0 <= t < self.fixed().len() && self.fixed()[t] == w;
                        assert(before[t] == w);
                        assert(before.contains(w));
                    }
                    if w == v {
                        assert(vars@.subrange(0, i as int)[i - 1] == v);
                        if !present {
                            assert(self.fixed()[before.len() as int] == v);
                        }
                    }
                    if before.contains(w) {
                        let t = choose|t: int| 0 <= t < before.len() && before[t] == w;
                        assert(self.fixed()[t] == w);
                    }
                    if vars@.subrange(0, i as int).contains(w) && w != v {
                        let upto = vars@.subrange(0, i as int);
                        let t = choose|t: int| 0 <= t < upto.len() && upto[t] == w;
                        assert(vars@.subrange(0, i - 1)[t] == w);
                        assert(vars@.subrange(0, i - 1).contains(w));
                    }
                }
            }
        }
        assert(vars@.subrange(0, vars@.len() as int) =~= vars@);
    }
}

/// Whether the pair `p` has variables equivalent to `var1` and `var2`.
pub open spec fn is_pair_of(subs: Subs, p: (Variable, Variable), var1: Variable, var2: Variable) -> bool {
    subs.root(p.0) == subs.root(var1) && subs.root(p.1) == subs.root(var2)
}

/// Filtering out an element that is there shortens a sequence.
proof fn lemma_filter_drops<A>(s: Seq<A>, keep: spec_fn(A) -> bool, w: int)
    requires
        0 <= w < s.len(),
        !keep(s[w]),
    ensures
        s.filter(keep).len() < s.len(),
    decreases s.len(),
{
    reveal(Seq::filter);
    s.drop_last().lemma_filter_len(keep);
    if w < s.len() - 1 {
        lemma_filter_drops(s.drop_last(), keep, w);
    }
}

} // verus!
