use roc_gen::heap::{Heap, Node, Value};
use roc_gen::layout::{IntWidth, Layout, UnionLayout};
use roc_gen::refcount::{decrement_value, increment_value, RefcountError};
use roc_gen::scope::{BranchScope, JoinTarget, Scope};
use roc_gen::strings::{str_literal, LiteralTable, StrValue};
use roc_gen::structs::{access_struct_field, build_list_literal, build_struct};

#[test]
fn struct_drops_zero_sized_fields_and_unwraps_single_field() {
    let layouts = vec![Layout::Struct(vec![]), Layout::Int(IntWidth::I64), Layout::Struct(vec![])];
    let v = build_struct(&layouts, vec![Value::Block(vec![]), Value::Word(9), Value::Block(vec![])], 8);
    assert!(matches!(v, Value::Word(9)));
    assert!(matches!(access_struct_field(&layouts, &v, 1, 8), Value::Word(9)));

    let layouts = vec![Layout::Int(IntWidth::I8), Layout::Struct(vec![]), Layout::Bool];
    let v = build_struct(&layouts, vec![Value::Word(1), Value::Block(vec![]), Value::Word(0)], 8);
    match &v {
        Value::Block(fs) => assert_eq!(fs.len(), 2),
        _ => panic!("expected a block"),
    }
    assert!(matches!(access_struct_field(&layouts, &v, 0, 8), Value::Word(1)));
    assert!(matches!(access_struct_field(&layouts, &v, 2, 8), Value::Word(0)));
}

#[test]
fn scope_bindings_are_lexical() {
    let mut scope = Scope::new();
    scope.bind(1, Layout::Bool, Value::Word(1));
    scope.bind(2, Layout::Bool, Value::Word(2));
    scope.bind(1, Layout::Bool, Value::Word(3));
    assert!(matches!(scope.lookup(1).value, Value::Word(3)));
    let removed = scope.unbind(1).unwrap();
    assert!(matches!(removed.value, Value::Word(3)));
    assert!(matches!(scope.lookup(1).value, Value::Word(1)));
    assert!(matches!(scope.lookup(2).value, Value::Word(2)));
    scope.unbind(1);
    assert!(scope.try_lookup(1).is_none());
    assert!(scope.unbind(7).is_none());
    let t = JoinTarget { block: 4, first_slot: 0, arity: 2 };
    scope.bind_join(10, t);
    assert_eq!(scope.lookup_join(10), Some(t));
    assert_eq!(scope.lookup_join(11), None);
}

#[test]
fn refcount_statements_follow_the_layout() {
    let mut heap = Heap::new();
    let a = heap.reserve(Node { tag: Some(0), fields: vec![] });
    let u = Layout::Union(UnionLayout::Recursive(vec![vec![]]));
    assert_eq!(increment_value(&u, &Value::Ptr(a), 2, &mut heap), Ok(()));
    assert_eq!(heap.count(a), 3);
    assert_eq!(decrement_value(&u, &Value::Ptr(a), &mut heap), Ok(()));
    assert_eq!(heap.count(a), 2);
    assert_eq!(decrement_value(&u, &Value::Word(3), &mut heap), Err(RefcountError::NotAPointer));
    assert_eq!(decrement_value(&Layout::Bool, &Value::Word(3), &mut heap), Ok(()));
    let list = Layout::List(Box::new(Layout::Bool));
    let empty = Value::Block(vec![Value::Null, Value::Word(0)]);
    assert_eq!(decrement_value(&list, &empty, &mut heap), Ok(()));
    let full = Value::Block(vec![Value::Ptr(a), Value::Word(4)]);
    assert_eq!(decrement_value(&list, &full, &mut heap), Ok(()));
    assert_eq!(decrement_value(&list, &full, &mut heap), Ok(()));
    assert!(!heap.is_live(a));
    assert_eq!(heap.freed(), &vec![a]);
}

#[test]
fn short_literals_are_inline_and_long_ones_shared() {
    let mut table = LiteralTable::new();
    match str_literal(&b"abc".to_vec(), 4, &mut table) {
        StrValue::Small(bytes) => assert_eq!(bytes, vec![b'a', b'b', b'c', 0, 0, 0, 0, 0x83]),
        _ => panic!("expected an inline string"),
    }
    assert_eq!(table.len(), 0);
    let long = b"a string of more than sixteen bytes".to_vec();
    let first = str_literal(&long, 8, &mut table);
    let second = str_literal(&long, 8, &mut table);
    match (first, second) {
        (StrValue::Big { global: g1, len: l1 }, StrValue::Big { global: g2, len: l2 }) => {
            assert_eq!(g1, g2);
            assert_eq!(l1, long.len());
            assert_eq!(l2, long.len());
        }
        _ => panic!("expected shared buffers"),
    }
    assert_eq!(table.len(), 1);
    match str_literal(&b"exactly sixteen!".to_vec(), 8, &mut table) {
        StrValue::Big { global, .. } => assert_eq!(global, 1),
        _ => panic!("expected a buffer"),
    }
}

#[test]
fn list_literals_allocate_their_elements_once() {
    let mut heap = Heap::new();
    let empty = build_list_literal(vec![], &mut heap);
    assert!(matches!(&empty, Value::Block(p) if matches!(p[..], [Value::Null, Value::Word(0)])));
    assert!(!heap.is_live(0));
    let list = build_list_literal(vec![Value::Word(1), Value::Word(2), Value::Word(3)], &mut heap);
    assert!(matches!(&list, Value::Block(p) if matches!(p[..], [Value::Ptr(0), Value::Word(3)])));
    assert_eq!(heap.node(0).fields.len(), 3);
    let layout = Layout::List(Box::new(Layout::Int(IntWidth::I64)));
    assert_eq!(decrement_value(&layout, &empty, &mut heap), Ok(()));
    assert_eq!(decrement_value(&layout, &list, &mut heap), Ok(()));
    assert_eq!(heap.freed(), &vec![0]);
}

#[test]
fn branches_share_the_parent_and_keep_their_own_bindings() {
    let mut scope = Scope::new();
    scope.bind(1, Layout::Bool, Value::Word(1));
    scope.bind_join(5, JoinTarget { block: 1, first_slot: 0, arity: 1 });
    {
        let mut left = BranchScope::new(&scope);
        left.bind(2, Layout::Bool, Value::Word(2));
        left.bind(1, Layout::Bool, Value::Word(10));
        assert!(matches!(left.try_lookup(1).unwrap().value, Value::Word(10)));
        assert!(matches!(left.try_lookup(2).unwrap().value, Value::Word(2)));
        assert_eq!(left.lookup_join(5).map(|t| t.block), Some(1));
        left.bind_join(5, JoinTarget { block: 9, first_slot: 1, arity: 0 });
        assert_eq!(left.lookup_join(5).map(|t| t.block), Some(9));
    }
    let right = BranchScope::new(&scope);
    assert!(right.try_lookup(2).is_none());
    assert!(matches!(right.try_lookup(1).unwrap().value, Value::Word(1)));
    assert_eq!(right.lookup_join(5).map(|t| t.block), Some(1));
    assert!(matches!(scope.lookup(1).value, Value::Word(1)));
}
