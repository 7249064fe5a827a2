//! The dictionary built-in: integer keys, each present once, kept in the order they were
//! first inserted.
use vstd::prelude::*;

verus! {

broadcast use {vstd::std_specs::vec::group_vec_axioms, vstd::seq::group_seq_axioms};

/// Whether no key occurs twice.
pub open spec fn keys_unique<V>(s: Seq<(i64, V)>) -> bool {
    forall|i: int, j: int| 0 <= i < j < s.len() ==> s[i].0 != s[j].0
}

/// Whether some entry has key `k`.
pub open spec fn has_key<V>(s: Seq<(i64, V)>, k: i64) -> bool {
    exists|i: int| 0 <= i < s.len() && s[i].0 == k
}

/// The keys of the entries.
pub open spec fn key_set<V>(s: Seq<(i64, V)>) -> Set<i64> {
    Set::new(|k: i64| has_key(s, k))
}

/// The entries whose key is in `ks` when `keep`, or not in `ks` when not `keep`, in
/// their order.
pub open spec fn restrict<V>(s: Seq<(i64, V)>, ks: Set<i64>, keep: bool) -> Seq<(i64, V)>
    decreases s.len(),
{
    if s.len() == 0 {
        Seq::empty()
    } else {
        restrict(s.drop_last(), ks, keep) + if ks.contains(s.last().0) == keep {
            seq![s.last()]
        } else {
            Seq::empty()
        }
    }
}

/// The entries after binding `k` to `v`: in place when `k` is present, else at the end.
pub open spec fn insert_spec<V>(s: Seq<(i64, V)>, k: i64, v: V) -> Seq<(i64, V)> {
    if has_key(s, k) {
        Seq::new(s.len(), |i: int| if s[i].0 == k { (k, v) } else { s[i] })
    } else {
        s.push((k, v))
    }
}

/// The value bound to `k`, if any.
pub open spec fn get_spec<V>(s: Seq<(i64, V)>, k: i64) -> Option<V> {
    if has_key(s, k) {
        Some(s[choose|i: int| 0 <= i < s.len() && s[i].0 == k].1)
    } else {
        None
    }
}

/// One more entry in the prefix.
pub proof fn lemma_restrict_step<V>(s: Seq<(i64, V)>, ks: Set<i64>, keep: bool, i: int)
    requires
        0 <= i < s.len(),
    ensures
        restrict(s.subrange(0, i + 1), ks, keep) == restrict(s.subrange(0, i), ks, keep) + if ks.contains(s[i].0) == keep {
            seq![s[i]]
        } else {
            Seq::empty()
        },
{
    assert(s.subrange(0, i + 1).drop_last() =~= s.subrange(0, i));
}

/// What `restrict` keeps comes from `s`, keeps the keys of `s` distinct, and is exactly
/// the keys of `s` that pass the test.
pub proof fn lemma_restrict_keys<V>(s: Seq<(i64, V)>, ks: Set<i64>, keep: bool)
    requires
        keys_unique(s),
    ensures
        keys_unique(restrict(s, ks, keep)),
        forall|k: i64| #[trigger] has_key(restrict(s, ks, keep), k) <==> (has_key(s, k) && ks.contains(k) == keep),
        forall|e: (i64, V)| #[trigger] restrict(s, ks, keep).contains(e) ==> s.contains(e),
    decreases s.len(),
{
    if s.len() == 0 {
        assert(restrict(s, ks, keep) =~= Seq::<(i64, V)>::empty());
        assert forall|k: i64| #[trigger] has_key(restrict(s, ks, keep), k) <==> (has_key(s, k)
            && ks.contains(k) == keep) by {
            assert(!has_key(restrict(s, ks, keep), k));
            assert(!has_key(s, k));
        }
    } else {
        let init = s.drop_last();
        lemma_restrict_keys(init, ks, keep);
        let r0 = restrict(init, ks, keep);
        let r = restrict(s, ks, keep);
        assert(r.len() >= r0.len());
        assert(forall|j: int| 0 <= j < r0.len() ==> r[j] == r0[j]);
        assert forall|k: i64| #[trigger] has_key(r, k) implies (has_key(s, k) && ks.contains(k) == keep) by {
            let j = choose|j: int| 0 <= j < r.len() && r[j].0 == k;
            if j < r0.len() {
                assert(r0[j].0 == k);
                assert(has_key(r0, k));
                assert(has_key(init, k));
                let i = choose|i: int| 0 <= i < init.len() && init[i].0 == k;
                assert(s[i] == init[i]);
            } else {
                assert(r[j] == s.last());
                assert(s[s.len() - 1].0 == k);
            }
        }
        assert forall|k: i64| (#[trigger] has_key(s, k) && ks.contains(k) == keep) implies has_key(r, k) by {
            let i = choose|i: int| 0 <= i < s.len() && s[i].0 == k;
            if i < s.len() - 1 {
                assert(init[i] == s[i]);
                assert(has_key(init, k));
                assert(has_key(r0, k));
                let j = choose|j: int| 0 <= j < r0.len() && r0[j].0 == k;
                assert(r[j].0 == k);
            } else {
                assert(r[r.len() - 1] == s.last());
            }
        }
        assert forall|e: (i64, V)| r.contains(e) implies s.contains(e) by {
            let j = choose|j: int| 0 <= j < r.len() && r[j] == e;
            if j < r0.len() {
                assert(r0[j] == e);
                assert(r0.contains(e));
                assert(init.contains(e));
                let i = choose|i: int| 0 <= i < init.len() && init[i] == e;
                assert(s[i] == e);
            } else {
                assert(s[s.len() - 1] == e);
            }
        }
        assert forall|k: i64| #[trigger] has_key(restrict(s, ks, keep), k) <==> (has_key(s, k)
            && ks.contains(k) == keep) by {
            if has_key(r, k) {
                assert(has_key(s, k) && ks.contains(k) == keep);
            }
            if has_key(s, k) && ks.contains(k) == keep {
                assert(has_key(r, k));
            }
        }
        assert forall|a: int, b: int| 0 <= a < b < r.len() implies r[a].0 != r[b].0 by {
            if b >= r0.len() {
                assert(r[b] == s.last());
                assert(r0[a] == r[a]);
                assert(r0.contains(r[a]));
                assert(init.contains(r[a]));
                let i2 = choose|i2: int| 0 <= i2 < init.len() && init[i2] == r[a];
                assert(s[i2] == r[a]);
            } else {
                assert(r0[a] == r[a]);
                assert(r0[b] == r[b]);
            }
        }
    }
}

/// A dictionary from integer keys to values.
#[derive(Debug)]
pub struct Dict<V> {
    entries: Vec<(i64, V)>,
}

impl<V> View for Dict<V> {
    type V = Seq<(i64, V)>;

    /// The entries, in the order their keys were first inserted.
    closed spec fn view(&self) -> Seq<(i64, V)> {
        self.entries@
    }
}

impl<V: Copy> Dict<V> {
    /// Whether no key occurs twice.
    pub open spec fn wf(&self) -> bool {
        keys_unique(self@)
    }

    /// The dictionary with no entries.
    pub fn empty() -> (d: Dict<V>)
        ensures
            d@ == Seq::<(i64, V)>::empty(),
            d.wf(),
    {
        Dict { entries: Vec::new() }
    }

    /// The dictionary with the single entry `k`, `v`.
    pub fn singleton(k: i64, v: V) -> (d: Dict<V>)
        ensures
            d@ == seq![(k, v)],
            d.wf(),
    {
        let mut entries: Vec<(i64, V)> = Vec::new();
        entries.push((k, v));
        assert(entries@ =~= seq![(k, v)]);
        Dict { entries }
    }

    /// Number of entries.
    pub fn len(&self) -> (r: usize)
        ensures
            r == self@.len(),
    {
        self.entries.len()
    }

    /// Where key `k` is, if present.
    fn find(&self, k: i64) -> (r: Option<usize>)
        requires
            self.wf(),
        ensures
            match r {
                Some(i) => i < self@.len() && self@[i as int].0 == k,
                None => !has_key(self@, k),
            },
    {
        let mut i: usize = 0;
        while i < self.entries.len()
            invariant
                i <= self@.len(),
                forall|j: int| 0 <= j < i ==> self@[j].0 != k,
            decreases self@.len() - i,
        {
            if self.entries[i].0 == k {
                return Some(i);
            }
            i = i + 1;
        }
        None
    }

    /// Whether key `k` is present.
    pub fn contains(&self, k: i64) -> (r: bool)
        requires
            self.wf(),
        ensures
            r == has_key(self@, k),
    {
        self.find(k).is_some()
    }

    /// The value bound to `k`, if any.
    pub fn get(&self, k: i64) -> (r: Option<V>)
        requires
            self.wf(),
        ensures
            r == get_spec(self@, k),
    {
        match self.find(k) {
            Some(i) => {
                let ghost j = choose|j: int| 0 <= j < self@.len() && self@[j].0 == k;
                assert(j == i);
                Some(self.entries[i].1)
            },
            None => None,
        }
    }

    /// Binds `k` to `v`, replacing the value in place when `k` is present.
    pub fn insert(&mut self, k: i64, v: V)
        requires
            old(self).wf(),
        ensures
            final(self).wf(),
            final(self)@ == insert_spec(old(self)@, k, v),
    {
        match self.find(k) {
            Some(i) => {
                self.entries.set(i, (k, v));
                assert(self@ =~= insert_spec(old(self)@, k, v));
            },
            None => {
                self.entries.push((k, v));
            },
        }
    }

    /// The entries whose key is in `other` when `keep`, else those whose key is not.
    fn restricted(&self, other: &Dict<V>, keep: bool) -> (r: Dict<V>)
        requires
            self.wf(),
            other.wf(),
        ensures
            r@ == restrict(self@, key_set(other@), keep),
            r.wf(),
    {
        let mut entries: Vec<(i64, V)> = Vec::new();
        let mut i: usize = 0;
        assert(self@.subrange(0, 0) =~= Seq::<(i64, V)>::empty());
        while i < self.entries.len()
            invariant
                i <= self@.len(),
                other.wf(),
                entries@ == restrict(self@.subrange(0, i as int), key_set(other@), keep),
            decreases self@.len() - i,
        {
            proof {
                lemma_restrict_step(self@, key_set(other@), keep, i as int);
            }
            let e = self.entries[i];
            if other.contains(e.0) == keep {
                entries.push(e);
            } else {
                assert(entries@ =~= entries@ + Seq::<(i64, V)>::empty());
            }
            i = i + 1;
        }
        assert(self@.subrange(0, self@.len() as int) =~= self@);
        proof {
            lemma_restrict_keys(self@, key_set(other@), keep);
        }
        Dict { entries }
    }

    /// Removes key `k`, keeping the order of the rest.
    pub fn remove(&mut self, k: i64)
        requires
            old(self).wf(),
        ensures
            final(self).wf(),
            final(self)@ == restrict(old(self)@, set![k], false),
    {
        let mut entries: Vec<(i64, V)> = Vec::new();
        let mut i: usize = 0;
        assert(self@.subrange(0, 0) =~= Seq::<(i64, V)>::empty());
        while i < self.entries.len()
            invariant
                i <= self@.len(),
                self@ == old(self)@,
                entries@ == restrict(self@.subrange(0, i as int), set![k], false),
            decreases self@.len() - i,
        {
            proof {
                lemma_restrict_step(self@, set![k], false, i as int);
            }
            let e = self.entries[i];
            if e.0 != k {
                entries.push(e);
            } else {
                assert(entries@ =~= entries@ + Seq::<(i64, V)>::empty());
            }
            i = i + 1;
        }
        assert(self@.subrange(0, self@.len() as int) =~= self@);
        proof {
            lemma_restrict_keys(self@, set![k], false);
        }
        self.entries = entries;
    }

    /// The keys, in order.
    pub fn keys(&self) -> (r: Vec<i64>)
        ensures
            r@ == self@.map_values(|e: (i64, V)| e.0),
    {
        let mut r: Vec<i64> = Vec::new();
        let mut i: usize = 0;
        while i < self.entries.len()
            invariant
                i <= self@.len(),
                r@ == self@.subrange(0, i as int).map_values(|e: (i64, V)| e.0),
            decreases self@.len() - i,
        {
            r.push(self.entries[i].0);
            i = i + 1;
            assert(r@ =~= self@.subrange(0, i as int).map_values(|e: (i64, V)| e.0));
        }
        assert(self@.subrange(0, self@.len() as int) =~= self@);
        r
    }

    /// The values, in the order of their keys.
    pub fn values(&self) -> (r: Vec<V>)
        ensures
            r@ == self@.map_values(|e: (i64, V)| e.1),
    {
        let mut r: Vec<V> = Vec::new();
        let mut i: usize = 0;
        while i < self.entries.len()
            invariant
                i <= self@.len(),
                r@ == self@.subrange(0, i as int).map_values(|e: (i64, V)| e.1),
            decreases self@.len() - i,
        {
            r.push(self.entries[i].1);
            i = i + 1;
            assert(r@ =~= self@.subrange(0, i as int).map_values(|e: (i64, V)| e.1));
        }
        assert(self@.subrange(0, self@.len() as int) =~= self@);
        r
    }

    /// The entries of `self` whose key `other` also has, with the values of `self`.
    pub fn intersection(&self, other: &Dict<V>) -> (r: Dict<V>)
        requires
            self.wf(),
            other.wf(),
        ensures
            r.wf(),
            r@ == restrict(self@, key_set(other@), true),
    {
        self.restricted(other, true)
    }

    /// The entries of `self` whose key `other` does not have.
    pub fn difference(&self, other: &Dict<V>) -> (r: Dict<V>)
        requires
            self.wf(),
            other.wf(),
        ensures
            r.wf(),
            r@ == restrict(self@, key_set(other@), false),
    {
        self.restricted(other, false)
    }

    /// All entries of `self`, then those of `other` whose key `self` does not have: on a
    /// shared key the value of `self` wins.
    pub fn union(&self, other: &Dict<V>) -> (r: Dict<V>)
        requires
            self.wf(),
            other.wf(),
        ensures
            r.wf(),
            r@ == self@ + restrict(other@, key_set(self@), false),
    {
        let extra = other.restricted(self, false);
        let mut entries: Vec<(i64, V)> = Vec::new();
        let mut i: usize = 0;
        while i < self.entries.len()
            invariant
                i <= self@.len(),
                entries@ == self@.subrange(0, i as int),
            decreases self@.len() - i,
        {
            entries.push(self.entries[i]);
            i = i + 1;
            assert(entries@ =~= self@.subrange(0, i as int));
        }
        let mut j: usize = 0;
        while j < extra.entries.len()
            invariant
                i == self@.len(),
                j <= extra@.len(),
                entries@ == self@ + extra@.subrange(0, j as int),
            decreases extra@.len() - j,
        {
            entries.push(extra.entries[j]);
            j = j + 1;
            assert(entries@ =~= self@ + extra@.subrange(0, j as int));
        }
        assert(extra@.subrange(0, extra@.len() as int) =~= extra@);
        proof {
            lemma_restrict_keys(other@, key_set(self@), false);
            let r = self@ + extra@;
            assert forall|a: int, b: int| 0 <= a < b < r.len() implies r[a].0 != r[b].0 by {
                if b >= self@.len() && a < self@.len() {
                    let e = extra@[b - self@.len()];
                    assert(has_key(extra@, e.0));
                    assert(!key_set(self@).contains(e.0));
                    assert(!has_key(self@, e.0));
                } else if a >= self@.len() {
                    assert(r[a] == extra@[a - self@.len()]);
                    assert(r[b] == extra@[b - self@.len()]);
                }
            }
        }
        Dict { entries }
    }

    /// Folds `f` over the entries in order, starting from `init`: each call takes a key,
    /// its value and the accumulator so far, and returns the next accumulator.
    pub fn walk<A, F: Fn(i64, V, A) -> A>(&self, f: F, init: A) -> (r: A)
        requires
            forall|k: i64, v: V, a: A| #[trigger] f.requires((k, v, a)),
        ensures
            exists|accs: Seq<A>|
                {
                    &&& accs.len() == self@.len() + 1
                    &&& accs[0] == init
                    &&& accs.last() == r
                    &&& forall|i: int|
                        0 <= i < self@.len() ==> f.ensures(
                            (self@[i].0, self@[i].1, accs[i]),
                            #[trigger] accs[i + 1],
                        )
                },
    {
        let mut acc = init;
        let ghost mut accs: Seq<A> = seq![init];
        let mut i: usize = 0;
        while i < self.entries.len()
            invariant
                i <= self@.len(),
                forall|k: i64, v: V, a: A| #[trigger] f.requires((k, v, a)),
                accs.len() == i + 1,
                accs[0] == init,
                accs.last() == acc,
                forall|j: int|
                    0 <= j < i ==> f.ensures(
                        (self@[j].0, self@[j].1, accs[j]),
                        #[trigger] accs[j + 1],
                    ),
            decreases self@.len() - i,
        {
            let e = self.entries[i];
            let next = f(e.0, e.1, acc);
            proof {
                accs = accs.push(next);
            }
            acc = next;
            i = i + 1;
        }
        assert({
            &&& accs.len() == self@.len() + 1
            &&& accs[0] == init
            &&& accs.last() == acc
            &&& forall|i: int|
                0 <= i < self@.len() ==> f.ensures(
                    (self@[i].0, self@[i].1, accs[i]),
                    #[trigger] accs[i + 1],
                )
        });
        acc
    }
}

} // verus!
