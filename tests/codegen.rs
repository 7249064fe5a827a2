use roc_gen::arith::{
    num_add_checked, num_add_with_overflow, num_add_wrap, num_sub_checked, num_sub_with_overflow,
    num_sub_wrap, Exception,
};
use roc_gen::control::{invoke_needs_landing_pad, run_join, Expr, Stmt};
use roc_gen::heap::{Heap, Node, Value};
use roc_gen::host::{catch_exception, expose, result_size, return_convention, ReturnConvention};
use roc_gen::layout::{allocation_size, FloatWidth, IntWidth, Layout, UnionLayout};
use roc_gen::tags::{
    access_at_index, build_int_list, build_tag, cons, get_tag_id, int_list_layout, switch_lowering,
    switch_target, SwitchLowering,
};

fn variants(k: usize) -> Vec<Vec<Layout>> {
    (0..k).map(|_| vec![Layout::Int(IntWidth::I64)]).collect()
}

#[test]
fn layout_sizes_and_alignment() {
    let s = Layout::Struct(vec![
        Layout::Int(IntWidth::I8),
        Layout::Int(IntWidth::I64),
        Layout::Float(FloatWidth::F32),
    ]);
    assert_eq!(s.stack_size(8), 13);
    assert_eq!(s.alignment_bytes(8), 8);
    assert!(!s.contains_refcounted());
    assert_eq!(Layout::Str.stack_size(4), 8);
    assert_eq!(Layout::Struct(vec![]).stack_size(8), 0);
    assert_eq!(Layout::Struct(vec![]).alignment_bytes(8), 1);
    let u = Layout::Union(UnionLayout::NonRecursive(vec![
        vec![Layout::Int(IntWidth::I32)],
        vec![Layout::Int(IntWidth::I64), Layout::Bool],
    ]));
    assert_eq!(u.stack_size(8), 8 + 9);
    assert_eq!(u.alignment_bytes(4), 8);
    assert!(!u.contains_refcounted());
    let r = Layout::Union(UnionLayout::Recursive(variants(2)));
    assert_eq!(r.stack_size(4), 4);
    assert!(r.contains_refcounted());
    let nested = Layout::Struct(vec![Layout::Bool, Layout::List(Box::new(Layout::Bool))]);
    assert!(nested.contains_refcounted());
    assert_eq!(nested.stack_size(8), 17);
}

#[test]
fn allocate_increment_decrement_frees_once() {
    let mut heap = Heap::new();
    let a = heap.reserve(Node { tag: Some(0), fields: vec![Value::Word(7)] });
    heap.increment(a, 3);
    assert_eq!(heap.count(a), 4);
    for _ in 0..3 {
        heap.decrement(a);
        assert!(heap.is_live(a));
    }
    assert_eq!(heap.count(a), 1);
    heap.decrement(a);
    assert_eq!(heap.count(a), 0);
    assert!(!heap.is_live(a));
    assert_eq!(heap.freed(), &vec![a]);
    heap.decrement(a);
    assert_eq!(heap.freed(), &vec![a]);
}

#[test]
fn freeing_a_block_releases_what_it_owns() {
    let mut heap = Heap::new();
    let child = heap.reserve(Node { tag: None, fields: vec![] });
    heap.increment(child, 1);
    let parent = heap.reserve(Node { tag: None, fields: vec![Value::Block(vec![Value::Ptr(child)])] });
    heap.decrement(parent);
    assert_eq!(heap.freed(), &vec![parent]);
    assert!(heap.is_live(child));
    assert_eq!(heap.count(child), 1);
}

#[test]
fn switch_selects_constructed_variant() {
    let k = 5usize;
    let u = UnionLayout::NonRecursive(variants(k));
    let cases: Vec<(u64, usize)> = (0..k as u64).map(|i| (i, i as usize)).collect();
    let mut heap = Heap::new();
    for i in 0..k as u64 {
        let v = build_tag(&u, i, vec![Value::Word(i as i64 * 10)], &mut heap);
        let id = get_tag_id(&u, &v, &heap);
        assert_eq!(id, i);
        assert_eq!(switch_target(id, &cases, 99), i as usize);
        assert!(matches!(access_at_index(&u, &v, &heap, 0), Value::Word(x) if *x == i as i64 * 10));
    }
    assert_eq!(switch_target(7, &cases, 99), 99);
}

#[test]
fn recursive_union_stores_tag_on_heap() {
    let u = UnionLayout::Recursive(variants(3));
    let mut heap = Heap::new();
    let v = build_tag(&u, 2, vec![Value::Word(5)], &mut heap);
    assert!(matches!(v, Value::Ptr(0)));
    assert_eq!(heap.node(0).tag, Some(2));
    assert_eq!(heap.count(0), 1);
    assert_eq!(get_tag_id(&u, &v, &heap), 2);
    assert!(matches!(access_at_index(&u, &v, &heap, 0), Value::Word(5)));
}

#[test]
fn nullable_variant_is_null() {
    let wrapped = UnionLayout::NullableWrapped { nullable_id: 1, other_tags: variants(2) };
    let mut heap = Heap::new();
    let v = build_tag(&wrapped, 1, vec![], &mut heap);
    assert!(matches!(v, Value::Null));
    assert!(!heap.is_live(0));
    assert_eq!(get_tag_id(&wrapped, &Value::Null, &heap), 1);
    let other = build_tag(&wrapped, 2, vec![Value::Word(1)], &mut heap);
    assert_eq!(get_tag_id(&wrapped, &other, &heap), 2);

    let unwrapped = UnionLayout::NullableUnwrapped { nullable_is_one: false, other_fields: vec![] };
    assert!(matches!(build_tag(&unwrapped, 0, vec![], &mut heap), Value::Null));
    assert_eq!(get_tag_id(&unwrapped, &Value::Null, &heap), 0);
    let cell = build_tag(&unwrapped, 1, vec![], &mut heap);
    assert_eq!(get_tag_id(&unwrapped, &cell, &heap), 1);
    assert_eq!(heap.node(1).tag, None);
}

#[test]
fn releasing_a_cons_list_frees_every_cell_once() {
    let mut heap = Heap::new();
    let keep = heap.reserve(Node { tag: None, fields: vec![] });
    let xs: Vec<i64> = (1..=200).collect();
    let head = build_int_list(&xs, &mut heap);
    assert!(matches!(head, Value::Ptr(200)));
    match head {
        Value::Ptr(a) => heap.decrement(a),
        _ => unreachable!(),
    }
    let expected: Vec<usize> = (1..=200).rev().collect();
    assert_eq!(heap.freed(), &expected);
    assert!(heap.is_live(keep));
    let l = int_list_layout();
    let one = cons(9, Value::Null, &mut heap);
    assert_eq!(get_tag_id(&l, &one, &heap), 1);
    assert_eq!(get_tag_id(&l, &Value::Null, &heap), 0);
}

#[test]
fn checked_add_overflow_raises_and_wrapping_add_truncates() {
    assert_eq!(num_add_checked(IntWidth::I64, i64::MAX, 1), Err(Exception::Overflow));
    assert_eq!(num_add_wrap(IntWidth::I64, i64::MAX, 1), i64::MIN);
    assert_eq!(num_add_with_overflow(IntWidth::I64, i64::MAX, 1), (i64::MIN, true));
    assert_eq!(num_add_checked(IntWidth::I8, 100, 27), Ok(127));
    assert_eq!(num_add_checked(IntWidth::I8, 100, 28), Err(Exception::Overflow));
    assert_eq!(num_add_wrap(IntWidth::I8, 100, 28), -128);
    assert_eq!(num_add_wrap(IntWidth::I16, -32768, -1), 32767);
    assert_eq!(num_add_with_overflow(IntWidth::I32, 1, 2), (3, false));
}

#[test]
fn checked_sub_overflow_raises_and_wrapping_sub_truncates() {
    assert_eq!(num_sub_checked(IntWidth::I64, i64::MIN, 1), Err(Exception::Overflow));
    assert_eq!(num_sub_wrap(IntWidth::I64, i64::MIN, 1), i64::MAX);
    assert_eq!(num_sub_checked(IntWidth::I32, -5, 7), Ok(-12));
    assert_eq!(num_sub_with_overflow(IntWidth::I8, -128, 1), (127, true));
}

fn lit(v: i64) -> Expr {
    Expr::Lit(v)
}

fn param(i: usize) -> Expr {
    Expr::Param(i)
}

/// Sums `0 .. n` with a join point: parameters (i, acc).
fn sum_loop_body() -> Stmt {
    Stmt::If(
        Expr::Lt(Box::new(param(0)), Box::new(param(2))),
        Box::new(Stmt::Jump(vec![
            Expr::Add(Box::new(param(0)), Box::new(lit(1))),
            Expr::Add(Box::new(param(1)), Box::new(param(0))),
            param(2),
        ])),
        Box::new(Stmt::Ret(param(1))),
    )
}

fn sum_rec(i: i64, acc: i64, n: i64) -> i64 {
    if i < n {
        sum_rec(i + 1, acc + i, n)
    } else {
        acc
    }
}

#[test]
fn join_with_zero_iterations_runs_the_body_once() {
    let remainder = Stmt::Jump(vec![param(0), lit(42), param(0)]);
    let r = run_join(&remainder, &vec![0], &sum_loop_body(), 3, 0);
    assert_eq!(r, Some(Ok(42)));
}

#[test]
fn join_loop_matches_recursion() {
    for n in [1i64, 10, 300, 1000] {
        let remainder = Stmt::Jump(vec![lit(0), lit(0), param(0)]);
        let r = run_join(&remainder, &vec![n], &sum_loop_body(), 3, 10_000);
        assert_eq!(r, Some(Ok(sum_rec(0, 0, n))));
    }
    let remainder = Stmt::Jump(vec![lit(0), lit(0), lit(50)]);
    assert_eq!(run_join(&remainder, &vec![], &sum_loop_body(), 3, 10), None);
}

#[test]
fn join_propagates_exceptions() {
    let remainder = Stmt::Jump(vec![lit(i64::MAX)]);
    let body = Stmt::Ret(Expr::Add(Box::new(param(0)), Box::new(lit(1))));
    assert_eq!(run_join(&remainder, &vec![], &body, 1, 5), Some(Err(Exception::Overflow)));
    let fail = Stmt::Fail(3);
    assert_eq!(run_join(&fail, &vec![], &body, 1, 5), Some(Err(Exception::RuntimeError(3))));
    assert_eq!(
        catch_exception(Err(Exception::RuntimeError(3))),
        roc_gen::host::HostResult { failed: true, value: 0, exception: Some(Exception::RuntimeError(3)) }
    );
    assert_eq!(
        catch_exception(Ok(5)),
        roc_gen::host::HostResult { failed: false, value: 5, exception: None }
    );
}

#[test]
fn large_struct_goes_through_out_pointer() {
    let big = Layout::Struct(vec![
        Layout::Int(IntWidth::I64),
        Layout::Int(IntWidth::I64),
        Layout::Int(IntWidth::I64),
    ]);
    assert_eq!(return_convention(&big, 8), ReturnConvention::OutPointer);
    assert_eq!(result_size(&big, 8), 24);
    let e = expose("main", &big, 8);
    assert_eq!(e.entry_name, "roc__main_1_exposed");
    assert_eq!(e.size_name, "roc__main_1_size");
    assert_eq!(e.convention, ReturnConvention::OutPointer);
    assert_eq!(e.result_size, 24);
    let small = Layout::Struct(vec![Layout::Int(IntWidth::I64), Layout::Int(IntWidth::I64)]);
    assert_eq!(return_convention(&small, 8), ReturnConvention::Direct);
    assert_eq!(return_convention(&small, 4), ReturnConvention::OutPointer);
}

fn invoke_add_one(fail: Stmt) -> Stmt {
    Stmt::Invoke(
        Expr::Add(Box::new(param(0)), Box::new(lit(1))),
        Box::new(Stmt::Ret(Expr::Sub(Box::new(param(1)), Box::new(param(0))))),
        Box::new(fail),
    )
}

#[test]
fn invoke_passes_results_and_handles_exceptions() {
    let enter = |v: i64| Stmt::Jump(vec![lit(v)]);
    let reraise = invoke_add_one(Stmt::Resume);
    assert_eq!(run_join(&enter(5), &vec![], &reraise, 1, 0), Some(Ok(1)));
    assert_eq!(run_join(&enter(i64::MAX), &vec![], &reraise, 1, 0), Some(Err(Exception::Overflow)));
    let handled = invoke_add_one(Stmt::Ret(lit(-1)));
    assert_eq!(run_join(&enter(i64::MAX), &vec![], &handled, 1, 0), Some(Ok(-1)));
    assert!(!invoke_needs_landing_pad(&Stmt::Resume));
    assert!(invoke_needs_landing_pad(&Stmt::Ret(lit(0))));
}

#[test]
fn heap_blocks_are_sized_to_the_union() {
    let u = UnionLayout::Recursive(vec![
        vec![],
        vec![Layout::Int(IntWidth::I64), Layout::RecursivePointer],
    ]);
    assert_eq!(u.heap_data_bytes(8), 8 + 16);
    assert_eq!(u.heap_data_bytes(4), 8 + 12);
    let l = int_list_layout();
    assert_eq!(l.heap_data_bytes(8), 16);
    assert_eq!(UnionLayout::NonRecursive(vec![vec![Layout::Bool]]).heap_data_bytes(8), 0);
    assert_eq!(allocation_size(24, 8, 8), 32);
    assert_eq!(allocation_size(24, 16, 8), 40);
    assert_eq!(allocation_size(12, 8, 4), 20);
}

#[test]
fn boolean_switch_with_one_case_is_a_branch() {
    let one = vec![(1u64, 0usize)];
    let two = vec![(0u64, 0usize), (1, 1)];
    assert_eq!(switch_lowering(&Layout::Bool, &one), SwitchLowering::TwoWayBranch);
    assert_eq!(switch_lowering(&Layout::Bool, &two), SwitchLowering::DispatchTable);
    assert_eq!(switch_lowering(&Layout::Int(IntWidth::I64), &one), SwitchLowering::DispatchTable);
}
