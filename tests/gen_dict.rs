use roc_gen::dict::Dict;

fn with_default(x: Option<f64>, def: f64) -> f64 {
    match x {
        Some(v) => v,
        None => def,
    }
}

#[test]
fn dict_empty_len() {
    let d: Dict<i64> = Dict::empty();
    assert_eq!(d.len(), 0usize);
}

#[test]
fn dict_insert_empty() {
    let mut d: Dict<i64> = Dict::empty();
    d.insert(42, 32);
    assert_eq!(d.len(), 1usize);
}

#[test]
fn dict_empty_contains() {
    let empty: Dict<f64> = Dict::empty();
    assert_eq!(empty.contains(42), false);
}

#[test]
fn dict_nonempty_contains() {
    let mut empty: Dict<f64> = Dict::empty();
    empty.insert(42, 3.14);
    assert_eq!(empty.contains(42), true);
}

#[test]
fn dict_empty_remove() {
    let mut empty: Dict<f64> = Dict::empty();
    empty.remove(42);
    assert_eq!(empty.len() as i64, 0);
}

#[test]
fn dict_nonempty_remove() {
    let mut empty: Dict<f64> = Dict::empty();
    empty.insert(42, 3.14);
    empty.remove(42);
    assert_eq!(empty.len() as i64, 0);
}

#[test]
fn dict_nonempty_get() {
    let mut empty: Dict<f64> = Dict::empty();
    empty.insert(42, 3.14);
    empty.insert(42, 3.14);
    assert_eq!(with_default(empty.get(42), 0.0), 3.14);

    let mut d: Dict<f64> = Dict::empty();
    d.insert(42, 3.14);
    assert_eq!(with_default(d.get(43), 0.0), 0.0);
}

#[test]
fn keys() {
    let mut my_dict: Dict<i64> = Dict::empty();
    my_dict.insert(0, 100);
    my_dict.insert(1, 100);
    my_dict.insert(2, 100);
    assert_eq!(my_dict.keys(), vec![0i64, 1, 2]);
}

#[test]
fn values() {
    let mut my_dict: Dict<i64> = Dict::empty();
    my_dict.insert(0, 100);
    my_dict.insert(1, 200);
    my_dict.insert(2, 300);
    assert_eq!(my_dict.values(), vec![100i64, 200, 300]);
}

#[test]
fn unit_values() {
    let mut my_dict: Dict<()> = Dict::empty();
    my_dict.insert(0, ());
    my_dict.insert(1, ());
    my_dict.insert(2, ());
    my_dict.insert(3, ());
    assert_eq!(my_dict.len() as i64, 4);
}

#[test]
fn singleton() {
    let my_dict: Dict<()> = Dict::singleton(0, ());
    assert_eq!(my_dict.len() as i64, 1);
}

#[test]
fn union() {
    let my_dict = Dict::singleton(0, ()).union(&Dict::singleton(1, ()));
    assert_eq!(my_dict.len() as i64, 2);
}

#[test]
fn union_prefer_first() {
    let my_dict = Dict::singleton(0, 100i64).union(&Dict::singleton(0, 200));
    assert_eq!(my_dict.values(), vec![100i64]);
}

#[test]
fn intersection() {
    let mut dict1: Dict<()> = Dict::empty();
    for k in 1..=5 {
        dict1.insert(k, ());
    }
    let mut dict2: Dict<()> = Dict::empty();
    dict2.insert(0, ());
    dict2.insert(2, ());
    dict2.insert(4, ());
    assert_eq!(dict1.intersection(&dict2).len() as i64, 2);
}

#[test]
fn difference() {
    let mut dict1: Dict<()> = Dict::empty();
    for k in 1..=5 {
        dict1.insert(k, ());
    }
    let mut dict2: Dict<()> = Dict::empty();
    dict2.insert(0, ());
    dict2.insert(2, ());
    dict2.insert(4, ());
    assert_eq!(dict1.difference(&dict2).len() as i64, 3);
}

#[test]
fn walk_sum_keys() {
    let mut dict1: Dict<i64> = Dict::empty();
    for k in 1..=5 {
        dict1.insert(k, k);
    }
    assert_eq!(dict1.walk(|k, _, a| k + a, 0i64), 15);
}

#[test]
fn insert_existing_key_keeps_position() {
    let mut d: Dict<i64> = Dict::empty();
    d.insert(5, 1);
    d.insert(7, 2);
    d.insert(5, 3);
    assert_eq!(d.keys(), vec![5i64, 7]);
    assert_eq!(d.values(), vec![3i64, 2]);
}

#[test]
fn intersection_and_difference_keep_first_values() {
    let mut dict1: Dict<i64> = Dict::empty();
    for k in 1..=5 {
        dict1.insert(k, k);
    }
    let mut dict2: Dict<i64> = Dict::empty();
    dict2.insert(0, 100);
    dict2.insert(2, 200);
    dict2.insert(4, 300);
    assert_eq!(dict1.intersection(&dict2).values(), vec![2i64, 4]);
    assert_eq!(dict1.difference(&dict2).values(), vec![1i64, 3, 5]);
}

#[test]
fn walk_visits_in_order() {
    let mut d: Dict<i64> = Dict::empty();
    d.insert(3, 30);
    d.insert(1, 10);
    d.insert(2, 20);
    let seen = d.walk(|k, v, mut acc: Vec<(i64, i64)>| {
        acc.push((k, v));
        acc
    }, Vec::new());
    assert_eq!(seen, vec![(3, 30), (1, 10), (2, 20)]);
}

fn sorted(mut v: Vec<i64>) -> Vec<i64> {
    v.sort();
    v
}

#[test]
fn from_list_with_fold() {
    let mut my_dict: Dict<i64> = Dict::empty();
    for value in [1i64, 2, 3] {
        my_dict.insert(value, value);
    }
    assert_eq!(sorted(my_dict.values()), sorted(vec![2, 3, 1]));

    let range: Vec<i64> = (0..25).collect();
    let mut my_dict: Dict<i64> = Dict::empty();
    for value in range {
        my_dict.insert(value, value);
    }
    assert_eq!(my_dict.values().len() as i64, 25);
}

#[test]
fn intersection_prefer_first() {
    let mut dict1: Dict<i64> = Dict::empty();
    for k in 1..=5 {
        dict1.insert(k, k);
    }
    let mut dict2: Dict<i64> = Dict::empty();
    dict2.insert(0, 100);
    dict2.insert(2, 200);
    dict2.insert(4, 300);
    assert_eq!(sorted(dict1.intersection(&dict2).values()), sorted(vec![4, 2]));
}

#[test]
fn difference_prefer_first() {
    let mut dict1: Dict<i64> = Dict::empty();
    for k in 1..=5 {
        dict1.insert(k, k);
    }
    let mut dict2: Dict<i64> = Dict::empty();
    dict2.insert(0, 100);
    dict2.insert(2, 200);
    dict2.insert(4, 300);
    assert_eq!(sorted(dict1.difference(&dict2).values()), sorted(vec![5, 3, 1]));
}

#[test]
fn values_follow_insertion_order() {
    let mut my_dict: Dict<i64> = Dict::empty();
    for value in [1i64, 2, 3] {
        my_dict.insert(value, value);
    }
    assert_eq!(my_dict.values(), vec![1, 2, 3]);
}
