use roc_gen::leb128::encode_u32;
use roc_gen::wasm::{
    copy_memory, encode_alignment, encode_u64, round_up_to_alignment, Align, CopyMemoryConfig,
    FunctionBuilder, Instruction, LocalId,
};
use roc_gen::wasm_module::{build_module, build_module_help, emission_order, plan_module, Env, ProcHeader};

#[test]
fn encode_u32_small_and_large() {
    let mut buf = [0xffu8; 6];
    assert_eq!(encode_u32(&mut buf, 5), 1);
    assert_eq!(buf, [5, 0xff, 0xff, 0xff, 0xff, 0xff]);
    assert_eq!(encode_u32(&mut buf, 624485), 3);
    assert_eq!(&buf[..3], &[0xe5, 0x8e, 0x26]);
    assert_eq!(encode_u32(&mut buf, u32::MAX), 5);
    assert_eq!(&buf[..5], &[0xff, 0xff, 0xff, 0xff, 0x0f]);
    assert_eq!(buf[5], 0xff);
}

#[test]
fn encode_u64_into_arena_vector() {
    let arena = bumpalo::Bump::new();
    let mut buf = bumpalo::collections::Vec::with_capacity_in(12, &arena);
    for _ in 0..12 {
        buf.push(0u8);
    }
    assert_eq!(encode_u64(&mut buf, 128), 2);
    assert_eq!(&buf[..2], &[0x80, 0x01]);
    assert_eq!(encode_u64(&mut buf, u64::MAX), 10);
    assert_eq!(&buf[..10], &[0xff, 0xff, 0xff, 0xff, 0xff, 0xff, 0xff, 0xff, 0xff, 0x01]);
    assert_eq!(buf[10], 0);
}

#[test]
fn alignment_immediates() {
    assert_eq!(encode_alignment(1), Align::Bytes1);
    assert_eq!(encode_alignment(2), Align::Bytes2);
    assert_eq!(encode_alignment(4), Align::Bytes4);
    assert_eq!(encode_alignment(8), Align::Bytes8);
}

#[test]
fn rounding_to_alignment() {
    assert_eq!(round_up_to_alignment(0, 16), 0);
    assert_eq!(round_up_to_alignment(1, 16), 16);
    assert_eq!(round_up_to_alignment(17, 8), 24);
    assert_eq!(round_up_to_alignment(24, 8), 24);
    assert_eq!(round_up_to_alignment(-5, 4), -4);
    assert_eq!(round_up_to_alignment(7, 1), 7);
}

fn config(from: u32, to: u32, size: u32) -> CopyMemoryConfig {
    CopyMemoryConfig {
        from_ptr: LocalId(from),
        from_offset: 4,
        to_ptr: LocalId(to),
        to_offset: 0,
        size,
        alignment_bytes: 4,
    }
}

#[test]
fn copy_memory_uses_widest_moves() {
    let mut b = FunctionBuilder::new();
    copy_memory(&mut b, config(1, 2, 13));
    let a = Align::Bytes4;
    let expected = vec![
        Instruction::GetLocal(LocalId(2)),
        Instruction::GetLocal(LocalId(1)),
        Instruction::I64Load(a, 4),
        Instruction::I64Store(a, 0),
        Instruction::GetLocal(LocalId(2)),
        Instruction::GetLocal(LocalId(1)),
        Instruction::I32Load(a, 12),
        Instruction::I32Store(a, 8),
        Instruction::GetLocal(LocalId(2)),
        Instruction::GetLocal(LocalId(1)),
        Instruction::I32Load8U(a, 16),
        Instruction::I32Store8(a, 12),
    ];
    assert_eq!(b.code, expected);
}

#[test]
fn copy_memory_onto_itself_emits_nothing() {
    let mut b = FunctionBuilder::new();
    let mut c = config(3, 3, 40);
    c.to_offset = 4;
    c.alignment_bytes = 3;
    copy_memory(&mut b, c);
    assert!(b.code.is_empty());
}

fn env() -> Env {
    Env { exposed_to_host: vec![1, 7] }
}

fn procs() -> Vec<ProcHeader> {
    vec![
        ProcHeader { symbol: 3, export_name: "helper".to_string() },
        ProcHeader { symbol: 1, export_name: "main".to_string() },
        ProcHeader { symbol: 7, export_name: "other".to_string() },
    ]
}

#[test]
fn module_plan_orders_by_symbol_descending() {
    let ps = procs();
    assert_eq!(emission_order(&ps), vec![2, 0, 1]);
    let plan = plan_module(&env(), &ps);
    assert_eq!(plan.exports, vec![(2, 0), (1, 2)]);
    assert_eq!(plan.main_function_index, 2);
    assert_eq!(plan.memory_min_pages, 16);
    assert_eq!(plan.stack_pointer_init, 1048576);
}

#[test]
fn module_frame_encodes() {
    let ps = procs();
    let (_, main) = build_module_help(&env(), &ps);
    assert_eq!(main, 2);
    let bytes = build_module(&env(), &ps).unwrap();
    assert_eq!(&bytes[..8], &[0x00, 0x61, 0x73, 0x6d, 0x01, 0x00, 0x00, 0x00]);
    assert!(bytes.windows(6).any(|w| w == b"memory"));
}
