use roc_gen::unify_env::{Env, Subs, Variable};

fn subs_with(n: usize) -> (Subs, Vec<Variable>) {
    let mut s = Subs::new();
    let vs = (0..n).map(|_| s.fresh()).collect();
    (s, vs)
}

#[test]
fn recursion_pairs_by_representative() {
    let (mut subs, v) = subs_with(4);
    subs.union(v[0], v[1]);
    assert!(subs.equivalent_without_compacting(v[0], v[1]));
    assert_eq!(subs.get_root_key_without_compacting(v[1]), v[0]);
    let mut env = Env::new(subs);
    env.add_recursion_pair(v[1], v[2]);
    assert!(env.seen_recursion_pair(v[0], v[2]));
    assert!(!env.seen_recursion_pair(v[2], v[0]));
    env.add_recursion_pair(v[3], v[3]);
    env.remove_recursion_pair(v[1], v[2]);
    assert!(!env.seen_recursion_pair(v[0], v[2]));
    assert!(env.seen_recursion_pair(v[3], v[3]));
}

#[test]
fn fixed_variables_up_to_equivalence() {
    let (mut subs, v) = subs_with(3);
    subs.union(v[2], v[1]);
    let mut env = Env::new(subs);
    assert!(!env.was_fixed(v[1]));
    env.extend_fixed_variables(vec![v[2], v[2]]);
    env.extend_fixed_variables(vec![v[2]]);
    assert!(env.was_fixed(v[1]));
    assert!(!env.was_fixed(v[0]));
}

#[test]
fn union_through_the_environment() {
    let (subs, v) = subs_with(2);
    let mut env = Env::new(subs);
    let w = env.fresh_variable();
    env.add_recursion_pair(v[1], w);
    env.union(v[0], v[1]);
    assert!(env.subs().equivalent_without_compacting(v[0], v[1]));
    assert!(!env.seen_recursion_pair(v[1], w));
    env.add_recursion_pair(v[1], w);
    assert!(env.seen_recursion_pair(v[0], w));
}
