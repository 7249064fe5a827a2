//! The frame of a WebAssembly module: the order in which procedures get their function
//! indices, the exports for the host, the linear memory and the stack pointer.
use vstd::prelude::*;
use parity_wasm::builder::ModuleBuilder;
use parity_wasm::elements::{Error, Module};

verus! {

/// Size of the linear memory the module starts with.
pub const MIN_MEMORY_SIZE_KB: u32 = 1024;

/// Size of a WebAssembly memory page.
pub const PAGE_SIZE_KB: u32 = 64;

/// Index of the global that holds the stack pointer.
pub const STACK_POINTER_GLOBAL_ID: u32 = 0;

/// Alignment of stack frames.
pub const FRAME_ALIGNMENT_BYTES: i32 = 16;

/// What the backend is given besides the procedures: the symbols the host may call.
#[derive(Debug)]
pub struct Env {
    pub exposed_to_host: Vec<u64>,
}

/// A procedure as the module sees it: the interned symbol it is keyed by, and the name
/// it is exported under when the host may call it.
#[derive(Debug)]
pub struct ProcHeader {
    pub symbol: u64,
    pub export_name: String,
}

/// Whether the host may call the procedures of symbol `sym`.
fn is_exposed(env: &Env, sym: u64) -> (r: bool)
    ensures
        r == env.exposed_to_host@.contains(sym),
{
    let mut i: usize = 0;
    while i < env.exposed_to_host.len()
        invariant
            i <= env.exposed_to_host@.len(),
            forall|j: int| 0 <= j < i ==> env.exposed_to_host@[j] != sym,
        decreases env.exposed_to_host@.len() - i,
    {
        if env.exposed_to_host[i] == sym {
            return true;
        }
        i = i + 1;
    }
    false
}

/// The layout of a module.
#[derive(Debug)]
pub struct ModulePlan {
    /// Indices into the procedures, in the order they get function indices.
    pub order: Vec<usize>,
    /// For each exposed procedure, in that order: its index and its function index.
    pub exports: Vec<(usize, u32)>,
    /// The function index of the last procedure, which is `main`.
    pub main_function_index: u32,
    pub memory_min_pages: u32,
    pub stack_pointer_init: i32,
}

/// Whether `order` lists the symbols of `procs` from highest to lowest, keeping the
/// given order among equal symbols.
pub open spec fn sorted_desc(procs: Seq<ProcHeader>, order: Seq<usize>) -> bool {
    forall|a: int, b: int|
        0 <= a < b < order.len() ==> procs[order[a] as int].symbol > procs[order[b] as int].symbol
            || (procs[order[a] as int].symbol == procs[order[b] as int].symbol && order[a] < order[b])
}

/// Whether `order` lists each of `0 .. n` exactly once.
pub open spec fn is_permutation(order: Seq<usize>, n: nat) -> bool {
    &&& order.len() == n
    &&& order.no_duplicates()
    &&& forall|i: int| 0 <= i < order.len() ==> (#[trigger] order[i] as int) < n
}

/// The emission order: procedures by symbol from highest to lowest, so that the symbol
/// interned first, `main`'s, comes last; equal symbols keep their given order.
pub fn emission_order(procs: &Vec<ProcHeader>) -> (order: Vec<usize>)
    ensures
        is_permutation(order@, procs@.len()),
        sorted_desc(procs@, order@),
{
    let mut order: Vec<usize> = Vec::new();
    let mut k: usize = 0;
    while k < procs.len()
        invariant
            k <= procs@.len(),
            is_permutation(order@, k as nat),
            sorted_desc(procs@, order@),
        decreases procs@.len() - k,
    {
        let key = procs[k].symbol;
        let mut p: usize = 0;
        while p < order.len() && procs[order[p]].symbol >= key
            invariant
                p <= order@.len(),
                k < procs@.len(),
                is_permutation(order@, k as nat),
                forall|j: int| 0 <= j < p ==> procs@[order@[j] as int].symbol >= key,
            decreases order@.len() - p,
        {
            p = p + 1;
        }
        let ghost old_order = order@;
        order.insert(p, k);
        proof {
            assert forall|a: int, b: int| 0 <= a < b < order@.len() implies procs@[order@[a] as int].symbol
                > procs@[order@[b] as int].symbol || (procs@[order@[a] as int].symbol
                == procs@[order@[b] as int].symbol && order@[a] < order@[b]) by {
                if b < p {
                    assert(order@[a] == old_order[a] && order@[b] == old_order[b]);
                } else if b == p {
                    assert(order@[a] == old_order[a]);
                } else if a == p {
                    assert(order@[b] == old_order[b - 1]);
                    assert(p < old_order.len());
                    assert(procs@[old_order[p as int] as int].symbol < key);
                    assert(sorted_desc(procs@, old_order));
                    if b - 1 > p {
                        assert(procs@[old_order[p as int] as int].symbol >= procs@[old_order[b - 1] as int].symbol);
                    }
                } else if a < p {
                    assert(order@[a] == old_order[a] && order@[b] == old_order[b - 1]);
                } else {
                    assert(order@[a] == old_order[a - 1] && order@[b] == old_order[b - 1]);
                }
            }
            assert forall|i: int, j: int| 0 <= i < j < order@.len() implies order@[i] != order@[j] by {
                if i < p && j > p {
                    assert(order@[i] == old_order[i] && order@[j] == old_order[j - 1]);
                } else if j < p {
                    assert(order@[i] == old_order[i] && order@[j] == old_order[j]);
                } else if i > p {
                    assert(order@[i] == old_order[i - 1] && order@[j] == old_order[j - 1]);
                } else if i == p {
                    assert(order@[j] == old_order[j - 1]);
                } else {
                    assert(order@[i] == old_order[i]);
                }
            }
            assert forall|i: int| 0 <= i < order@.len() implies (#[trigger] order@[i] as int) < k + 1 by {
                if i < p {
                    assert(order@[i] == old_order[i]);
                } else if i > p {
                    assert(order@[i] == old_order[i - 1]);
                }
            }
        }
        k = k + 1;
    }
    order
}

/// The exports of the procedures listed from `order[i]` on whose symbol is in
/// `exposed`, the first of them having function index `i`.
pub open spec fn exports_from(exposed: Seq<u64>, procs: Seq<ProcHeader>, order: Seq<usize>, i: int) -> Seq<(usize, u32)>
    decreases order.len() - i,
{
    if i >= order.len() || i < 0 {
        Seq::empty()
    } else {
        let rest = exports_from(exposed, procs, order, i + 1);
        if exposed.contains(procs[order[i] as int].symbol) {
            seq![(order[i], i as u32)] + rest
        } else {
            rest
        }
    }
}

/// Lays out the module for `procs`: function indices in emission order, an export for
/// each exposed procedure, 1024 KB of memory, and the stack pointer at its top.
pub fn plan_module(env: &Env, procs: &Vec<ProcHeader>) -> (r: ModulePlan)
    requires
        procs@.len() <= u32::MAX,
    ensures
        is_permutation(r.order@, procs@.len()),
        sorted_desc(procs@, r.order@),
        r.exports@ == exports_from(env.exposed_to_host@, procs@, r.order@, 0),
        r.main_function_index == if procs@.len() == 0 {
            0
        } else {
            procs@.len() - 1
        },
        r.memory_min_pages == 16,
        r.stack_pointer_init == 1024 * 1024,
{
    let order = emission_order(procs);
    let mut exports: Vec<(usize, u32)> = Vec::new();
    let mut i: usize = order.len();
    while i > 0
        invariant
            i <= order@.len(),
            order@.len() == procs@.len(),
            procs@.len() <= u32::MAX,
            is_permutation(order@, procs@.len()),
            exports@ == exports_from(env.exposed_to_host@, procs@, order@, i as int),
        decreases i,
    {
        i = i - 1;
        if is_exposed(env, procs[order[i]].symbol) {
            let mut e: Vec<(usize, u32)> = Vec::new();
            e.push((order[i], i as u32));
            let mut j: usize = 0;
            while j < exports.len()
                invariant
                    j <= exports@.len(),
                    e@ == seq![(order@[i as int], i as u32)] + exports@.subrange(0, j as int),
                decreases exports@.len() - j,
            {
                e.push(exports[j]);
                j = j + 1;
                assert(e@ =~= seq![(order@[i as int], i as u32)] + exports@.subrange(0, j as int));
            }
            assert(exports@.subrange(0, exports@.len() as int) =~= exports@);
            exports = e;
        }
    }
    let main_function_index: u32 = if procs.len() == 0 {
        0
    } else {
        (procs.len() - 1) as u32
    };
    ModulePlan {
        order,
        exports,
        main_function_index,
        memory_min_pages: MIN_MEMORY_SIZE_KB / PAGE_SIZE_KB,
        stack_pointer_init: (MIN_MEMORY_SIZE_KB * 1024) as i32,
    }
}

#[verifier::external_type_specification]
#[verifier::external_body]
#[verifier::reject_recursive_types(F)]
pub struct ExModuleBuilder<F>(parity_wasm::builder::ModuleBuilder<F>);

#[verifier::external_type_specification]
#[verifier::external_body]
pub struct ExIdentity(parity_wasm::builder::Identity);

#[verifier::external_type_specification]
#[verifier::external_body]
pub struct ExModule(parity_wasm::elements::Module);

#[verifier::external_type_specification]
#[verifier::external_body]
pub struct ExError(parity_wasm::elements::Error);

/// What an export refers to.
#[derive(Clone, Copy, Debug, PartialEq, Eq, Structural)]
pub enum ExportKind {
    Function,
    Memory,
}

/// The exports a module builder holds, in order: name, kind and index.
pub uninterp spec fn builder_exports(b: ModuleBuilder) -> Seq<(Seq<char>, ExportKind, u32)>;

/// The linear memories a module builder holds, in order: minimum and maximum pages.
pub uninterp spec fn builder_memories(b: ModuleBuilder) -> Seq<(u32, Option<u32>)>;

/// The globals a module builder holds, in order: whether each is mutable, and the `i32`
/// constant it starts at.
pub uninterp spec fn builder_globals(b: ModuleBuilder) -> Seq<(bool, i32)>;

/// The exports of a module, in order: name, kind and index.
pub uninterp spec fn module_exports(m: Module) -> Seq<(Seq<char>, ExportKind, u32)>;

/// The linear memories of a module, in order: minimum and maximum pages.
pub uninterp spec fn module_memories(m: Module) -> Seq<(u32, Option<u32>)>;

/// The globals of a module, in order: whether each is mutable, and the `i32` constant it
/// starts at.
pub uninterp spec fn module_globals(m: Module) -> Seq<(bool, i32)>;

/// Whether a module builder holds nothing but exports, linear memories without data,
/// and globals.
pub uninterp spec fn builder_is_frame(b: ModuleBuilder) -> bool;

/// Whether a module has no sections but exports, linear memories without data, and
/// globals.
pub uninterp spec fn module_is_frame(m: Module) -> bool;

/// The most bytes that the export entry named `name` takes when encoded: the name's
/// length and UTF-8 bytes, the kind, and the index.
pub open spec fn export_cost(name: Seq<char>) -> int {
    4 * name.len() as int + 11
}

/// The most bytes that an export section of `es` takes when encoded, with its count.
pub open spec fn export_section_bytes(es: Seq<(Seq<char>, ExportKind, u32)>) -> int
    decreases es.len(),
{
    if es.len() == 0 {
        5
    } else {
        export_cost(es[0].0) + export_section_bytes(es.subrange(1, es.len() as int))
    }
}

/// Whether the encoder can write every length of the module frame `m` as a 32-bit
/// number: its export section, and its memory and global sections, each entry of which
/// takes at most 16 bytes.
pub open spec fn frame_fits(m: Module) -> bool {
    &&& module_is_frame(m)
    &&& export_section_bytes(module_exports(m)) <= u32::MAX
    &&& module_memories(m).len() * 16 + 5 <= u32::MAX
    &&& module_globals(m).len() * 16 + 5 <= u32::MAX
}

/// The binary encoding of a module, when it can be encoded.
pub uninterp spec fn module_encoding(m: Module) -> Option<Seq<u8>>;

/// Why a module cannot be encoded.
pub uninterp spec fn module_encoding_error(m: Module) -> Error;

/// The debug text of an encoding error.
pub uninterp spec fn error_debug_text(e: Error) -> Seq<char>;

/// Relies on `parity_wasm::builder::ModuleBuilder::new`: a builder of an empty module.
#[verifier::external_body]
fn new_module_builder() -> (r: ModuleBuilder)
    ensures
        builder_exports(r) == Seq::<(Seq<char>, ExportKind, u32)>::empty(),
        builder_memories(r) == Seq::<(u32, Option<u32>)>::empty(),
        builder_globals(r) == Seq::<(bool, i32)>::empty(),
        builder_is_frame(r),
{
    ModuleBuilder::new()
}

/// Relies on `parity_wasm::builder::ModuleBuilder::push_export`: appends an export of
/// the function or memory `index` under `name`.
#[verifier::external_body]
fn push_export(builder: &mut ModuleBuilder, name: &str, kind: ExportKind, index: u32)
    ensures
        builder_exports(*final(builder)) == builder_exports(*old(builder)).push((name@, kind, index)),
        builder_memories(*final(builder)) == builder_memories(*old(builder)),
        builder_globals(*final(builder)) == builder_globals(*old(builder)),
        builder_is_frame(*final(builder)) == builder_is_frame(*old(builder)),
{
    let internal = match kind {
        ExportKind::Function => parity_wasm::elements::Internal::Function(index),
        ExportKind::Memory => parity_wasm::elements::Internal::Memory(index),
    };
    builder.push_export(parity_wasm::builder::export().field(name).with_internal(internal).build());
}

/// Relies on `parity_wasm::builder::ModuleBuilder::push_memory`: appends a linear memory
/// of at least `min_pages` pages and no maximum.
#[verifier::external_body]
fn push_memory(builder: &mut ModuleBuilder, min_pages: u32)
    ensures
        builder_memories(*final(builder)) == builder_memories(*old(builder)).push((min_pages, None)),
        builder_exports(*final(builder)) == builder_exports(*old(builder)),
        builder_globals(*final(builder)) == builder_globals(*old(builder)),
        builder_is_frame(*final(builder)) == builder_is_frame(*old(builder)),
{
    builder.push_memory(parity_wasm::builder::MemoryBuilder::new().with_min(min_pages).build());
}

/// Relies on `parity_wasm::builder::ModuleBuilder::push_global`: appends a mutable `i32`
/// global that starts at `init`.
#[verifier::external_body]
fn push_mutable_i32_global(builder: &mut ModuleBuilder, init: i32)
    ensures
        builder_globals(*final(builder)) == builder_globals(*old(builder)).push((true, init)),
        builder_exports(*final(builder)) == builder_exports(*old(builder)),
        builder_memories(*final(builder)) == builder_memories(*old(builder)),
        builder_is_frame(*final(builder)) == builder_is_frame(*old(builder)),
{
    let global = parity_wasm::builder::global()
        .with_type(parity_wasm::elements::ValueType::I32)
        .mutable()
        .init_expr(parity_wasm::elements::Instruction::I32Const(init))
        .build();
    builder.push_global(global);
}

/// Relies on `parity_wasm::builder::ModuleBuilder::build`: the module built so far, with
/// the exports, memories and globals of the builder.
#[verifier::external_body]
fn finish_module(builder: ModuleBuilder) -> (r: Module)
    ensures
        module_exports(r) == builder_exports(builder),
        module_memories(r) == builder_memories(builder),
        module_globals(r) == builder_globals(builder),
        module_is_frame(r) == builder_is_frame(builder),
{
    builder.build()
}

/// Relies on `parity_wasm::elements::Module::to_bytes`: the binary encoding of the
/// module, or why it could not be encoded. It panics where a length does not fit in 32
/// bits, which `frame_fits` rules out.
#[verifier::external_body]
fn module_to_bytes(module: Module) -> (r: Result<Vec<u8>, Error>)
    requires
        frame_fits(module),
    ensures
        match r {
            Ok(b) => module_encoding(module) == Some(b@),
            Err(e) => module_encoding(module) is None && e == module_encoding_error(module),
        },
{
    module.to_bytes()
}

/// Relies on the `Debug` of `parity_wasm::elements::Error`: a description of the error.
#[verifier::external_body]
fn error_text(e: &Error) -> (r: String)
    ensures
        r@ == error_debug_text(*e),
{
    format!("{:?}", e)
}

/// The exports of a module frame: each exposed procedure's function under its name, in
/// the order of `exports`, then the memory as `memory`.
pub open spec fn frame_exports(procs: Seq<ProcHeader>, exports: Seq<(usize, u32)>) -> Seq<
    (Seq<char>, ExportKind, u32),
> {
    exports.map_values(
        |e: (usize, u32)| (procs[e.0 as int].export_name@, ExportKind::Function, e.1),
    ).push(("memory"@, ExportKind::Memory, 0u32))
}

/// The export list of the module frame of `procs`, function indices following the
/// procedures from the highest symbol to the lowest.
pub open spec fn planned_exports(env: Env, procs: Seq<ProcHeader>, order: Seq<usize>) -> Seq<
    (Seq<char>, ExportKind, u32),
> {
    frame_exports(procs, exports_from(env.exposed_to_host@, procs, order, 0))
}

/// Whether `order` is the emission order of `procs`.
pub open spec fn is_emission_order(procs: Seq<ProcHeader>, order: Seq<usize>) -> bool {
    is_permutation(order, procs.len()) && sorted_desc(procs, order)
}

/// Builds the frame of the module for `procs`: an export for each exposed procedure,
/// the function indices following the symbols from highest to lowest, a memory of 16
/// pages exported as `memory`, and the stack pointer as a mutable `i32` global at
/// 1048576. Returns the builder and the function index of `main`, the procedure with
/// the lowest symbol. Function bodies are generated into that index space.
pub fn build_module_help(env: &Env, procs: &Vec<ProcHeader>) -> (r: (ModuleBuilder, u32))
    requires
        procs@.len() <= u32::MAX,
    ensures
        r.1 == if procs@.len() == 0 {
            0
        } else {
            procs@.len() - 1
        },
        exists|order: Seq<usize>|
            is_emission_order(procs@, order) && builder_exports(r.0) == planned_exports(
                *env,
                procs@,
                order,
            ),
        builder_memories(r.0) == seq![(16u32, None::<u32>)],
        builder_globals(r.0) == seq![(true, 1048576i32)],
        builder_is_frame(r.0),
{
    let plan = plan_module(env, procs);
    let mut builder = new_module_builder();
    let ghost fx = plan.exports@.map_values(
        |e: (usize, u32)| (procs@[e.0 as int].export_name@, ExportKind::Function, e.1),
    );
    let mut i: usize = 0;
    while i < plan.exports.len()
        invariant
            plan.exports@ == exports_from(env.exposed_to_host@, procs@, plan.order@, 0),
            is_permutation(plan.order@, procs@.len()),
            i <= plan.exports@.len(),
            fx == plan.exports@.map_values(
                |e: (usize, u32)| (procs@[e.0 as int].export_name@, ExportKind::Function, e.1),
            ),
            builder_exports(builder) == fx.subrange(0, i as int),
            builder_memories(builder) == Seq::<(u32, Option<u32>)>::empty(),
            builder_globals(builder) == Seq::<(bool, i32)>::empty(),
            builder_is_frame(builder),
        decreases plan.exports@.len() - i,
    {
        let (p, index) = plan.exports[i];
        proof {
            lemma_exports_in_range(env.exposed_to_host@, procs@, plan.order@, 0, i as int);
        }
        push_export(&mut builder, procs[p].export_name.as_str(), ExportKind::Function, index);
        i = i + 1;
        assert(builder_exports(builder) =~= fx.subrange(0, i as int));
    }
    assert(fx.subrange(0, i as int) =~= fx);
    push_memory(&mut builder, plan.memory_min_pages);
    push_export(&mut builder, "memory", ExportKind::Memory, 0);
    push_mutable_i32_global(&mut builder, plan.stack_pointer_init);
    assert(builder_memories(builder) =~= seq![(16u32, None::<u32>)]);
    assert(builder_globals(builder) =~= seq![(true, 1048576i32)]);
    assert(builder_exports(builder) == planned_exports(*env, procs@, plan.order@));
    assert(is_emission_order(procs@, plan.order@));
    (builder, plan.main_function_index)
}

/// Every export names one of the procedures.
pub proof fn lemma_exports_in_range(
    exposed: Seq<u64>,
    procs: Seq<ProcHeader>,
    order: Seq<usize>,
    from: int,
    i: int,
)
    requires
        is_permutation(order, procs.len()),
        0 <= from,
        0 <= i < exports_from(exposed, procs, order, from).len(),
    ensures
        (exports_from(exposed, procs, order, from)[i].0 as int) < procs.len(),
    decreases order.len() - from,
{
    if from < order.len() {
        if exposed.contains(procs[order[from] as int].symbol) {
            if i > 0 {
                lemma_exports_in_range(exposed, procs, order, from + 1, i - 1);
            }
        } else {
            lemma_exports_in_range(exposed, procs, order, from + 1, i);
        }
    }
}

/// The most bytes that the export entries of all `procs` take when encoded.
pub open spec fn procs_export_cost(procs: Seq<ProcHeader>) -> int
    decreases procs.len(),
{
    if procs.len() == 0 {
        0
    } else {
        procs_export_cost(procs.drop_last()) + export_cost(procs.last().export_name@)
    }
}

/// The export cost of the procedures at the indices `idx`.
pub open spec fn indexed_cost(procs: Seq<ProcHeader>, idx: Seq<usize>) -> int
    decreases idx.len(),
{
    if idx.len() == 0 {
        0
    } else {
        export_cost(procs[idx[0] as int].export_name@) + indexed_cost(
            procs,
            idx.subrange(1, idx.len() as int),
        )
    }
}

/// The export cost of the procedures that `exports` names.
pub open spec fn exports_cost(procs: Seq<ProcHeader>, exports: Seq<(usize, u32)>) -> int
    decreases exports.len(),
{
    if exports.len() == 0 {
        0
    } else {
        export_cost(procs[exports[0].0 as int].export_name@) + exports_cost(
            procs,
            exports.subrange(1, exports.len() as int),
        )
    }
}

/// Leaving out the index at `p` takes away its cost.
proof fn lemma_indexed_cost_remove(procs: Seq<ProcHeader>, idx: Seq<usize>, p: int)
    requires
        0 <= p < idx.len(),
    ensures
        indexed_cost(procs, idx) == indexed_cost(procs, idx.remove(p)) + export_cost(
            procs[idx[p] as int].export_name@,
        ),
    decreases p,
{
    if p == 0 {
        assert(idx.remove(0) =~= idx.subrange(1, idx.len() as int));
    } else {
        let rest = idx.subrange(1, idx.len() as int);
        lemma_indexed_cost_remove(procs, rest, p - 1);
        assert(idx.remove(p).subrange(1, idx.remove(p).len() as int) =~= rest.remove(p - 1));
        assert(idx.remove(p)[0] == idx[0]);
    }
}

/// Distinct indices below `n` cost no more than the first `n` procedures.
proof fn lemma_indexed_cost_bound(procs: Seq<ProcHeader>, idx: Seq<usize>, n: int)
    requires
        0 <= n <= procs.len(),
        procs.len() <= usize::MAX,
        idx.no_duplicates(),
        forall|j: int| 0 <= j < idx.len() ==> (#[trigger] idx[j] as int) < n,
    ensures
        indexed_cost(procs, idx) <= procs_export_cost(procs.subrange(0, n)),
    decreases n,
{
    if n == 0 {
        if idx.len() > 0 {
            assert((idx[0] as int) < 0);
        }
        assert(procs.subrange(0, 0) =~= Seq::<ProcHeader>::empty());
    } else {
        let prefix = procs.subrange(0, n);
        assert(prefix.drop_last() =~= procs.subrange(0, n - 1));
        assert(prefix.last() == procs[n - 1]);
        assert(procs_export_cost(prefix) == procs_export_cost(procs.subrange(0, n - 1)) + export_cost(
            procs[n - 1].export_name@,
        ));
        if idx.contains((n - 1) as usize) {
            let p = choose|p: int| 0 <= p < idx.len() && idx[p] == (n - 1) as usize;
            lemma_indexed_cost_remove(procs, idx, p);
            let rest = idx.remove(p);
            assert forall|j: int| 0 <= j < rest.len() implies (#[trigger] rest[j] as int) < n - 1 by {
                if j < p {
                    assert(rest[j] == idx[j]);
                } else {
                    assert(rest[j] == idx[j + 1]);
                }
            }
            assert(rest.no_duplicates()) by {
                assert forall|a: int, b: int| 0 <= a < b < rest.len() implies rest[a] != rest[b] by {
                    let a2 = if a < p { a } else { a + 1 };
                    let b2 = if b < p { b } else { b + 1 };
                    assert(rest[a] == idx[a2] && rest[b] == idx[b2]);
                }
            }
            lemma_indexed_cost_bound(procs, rest, n - 1);
            assert(procs[idx[p] as int] == procs[n - 1]);
        } else {
            assert forall|j: int| 0 <= j < idx.len() implies (#[trigger] idx[j] as int) < n - 1 by {
                if idx[j] as int == n - 1 {
                    assert(idx.contains(idx[j]));
                }
            }
            lemma_indexed_cost_bound(procs, idx, n - 1);
        }
    }
}

/// The exported procedures from `order[i]` on cost no more than all procedures from
/// `order[i]` on.
proof fn lemma_exports_cost_bound(exposed: Seq<u64>, procs: Seq<ProcHeader>, order: Seq<usize>, i: int)
    requires
        0 <= i <= order.len(),
    ensures
        exports_cost(procs, exports_from(exposed, procs, order, i)) <= indexed_cost(
            procs,
            order.subrange(i, order.len() as int),
        ),
    decreases order.len() - i,
{
    if i < order.len() {
        lemma_exports_cost_bound(exposed, procs, order, i + 1);
        let sub = order.subrange(i, order.len() as int);
        assert(sub.subrange(1, sub.len() as int) =~= order.subrange(i + 1, order.len() as int));
        let rest = exports_from(exposed, procs, order, i + 1);
        if exposed.contains(procs[order[i] as int].symbol) {
            let e = seq![(order[i], i as u32)] + rest;
            assert(e.subrange(1, e.len() as int) =~= rest);
        }
    } else {
        assert(order.subrange(i, order.len() as int) =~= Seq::<usize>::empty());
    }
}

/// Appending an export adds its cost.
proof fn lemma_export_section_push(es: Seq<(Seq<char>, ExportKind, u32)>, e: (Seq<char>, ExportKind, u32))
    ensures
        export_section_bytes(es.push(e)) == export_section_bytes(es) + export_cost(e.0),
    decreases es.len(),
{
    if es.len() > 0 {
        let t = es.subrange(1, es.len() as int);
        lemma_export_section_push(t, e);
        let p = es.push(e);
        assert(p.subrange(1, p.len() as int) =~= t.push(e));
        assert(p[0] == es[0]);
        assert(export_section_bytes(p) == export_cost(es[0].0) + export_section_bytes(t.push(e)));
    } else {
        let p = es.push(e);
        assert(p.subrange(1, p.len() as int) =~= Seq::<(Seq<char>, ExportKind, u32)>::empty());
        assert(export_section_bytes(p) == export_cost(e.0) + export_section_bytes(
            Seq::<(Seq<char>, ExportKind, u32)>::empty(),
        ));
    }
}

/// The function exports of `exports` cost their procedures' export cost, with the count.
proof fn lemma_export_section_map(procs: Seq<ProcHeader>, exports: Seq<(usize, u32)>)
    ensures
        export_section_bytes(
            exports.map_values(
                |e: (usize, u32)| (procs[e.0 as int].export_name@, ExportKind::Function, e.1),
            ),
        ) == 5 + exports_cost(procs, exports),
    decreases exports.len(),
{
    let f = |e: (usize, u32)| (procs[e.0 as int].export_name@, ExportKind::Function, e.1);
    if exports.len() > 0 {
        let t = exports.subrange(1, exports.len() as int);
        lemma_export_section_map(procs, t);
        let m = exports.map_values(f);
        assert(m.subrange(1, m.len() as int) =~= t.map_values(f));
    } else {
        assert(exports.map_values(f) =~= Seq::<(Seq<char>, ExportKind, u32)>::empty());
    }
}

/// The export section of the frame of `procs` fits when all export entries of `procs`
/// and the memory's would fit together.
pub proof fn lemma_frame_exports_fit(env: Env, procs: Seq<ProcHeader>, order: Seq<usize>)
    requires
        is_emission_order(procs, order),
        procs.len() <= usize::MAX,
    ensures
        export_section_bytes(planned_exports(env, procs, order)) <= procs_export_cost(procs) + 40,
{
    let exports = exports_from(env.exposed_to_host@, procs, order, 0);
    let fx = exports.map_values(
        |e: (usize, u32)| (procs[e.0 as int].export_name@, ExportKind::Function, e.1),
    );
    lemma_export_section_map(procs, exports);
    lemma_export_section_push(fx, ("memory"@, ExportKind::Memory, 0u32));
    reveal_strlit("memory");
    lemma_exports_cost_bound(env.exposed_to_host@, procs, order, 0);
    assert(order.subrange(0, order.len() as int) =~= order);
    lemma_indexed_cost_bound(procs, order, procs.len() as int);
    assert(procs.subrange(0, procs.len() as int) =~= procs);
}

/// Builds and encodes the module frame for `procs`, as `build_module_help` lays it out.
/// Fails, with the encoder's error after `Error serialising Wasm module `, exactly when
/// that module cannot be encoded. The export names must be short enough for the export
/// section's length to fit in 32 bits, as the encoder writes it.
pub fn build_module(env: &Env, procs: &Vec<ProcHeader>) -> (r: Result<Vec<u8>, String>)
    requires
        procs@.len() <= u32::MAX,
        procs_export_cost(procs@) + 40 <= u32::MAX,
    ensures
        exists|m: Module, order: Seq<usize>|
            {
                &&& is_emission_order(procs@, order)
                &&& module_is_frame(m)
                &&& module_exports(m) == planned_exports(*env, procs@, order)
                &&& module_memories(m) == seq![(16u32, None::<u32>)]
                &&& module_globals(m) == seq![(true, 1048576i32)]
                &&& match module_encoding(m) {
                    Some(bytes) => r is Ok && r->Ok_0@ == bytes,
                    None => r is Err && r->Err_0@ == "Error serialising Wasm module "@
                        + error_debug_text(module_encoding_error(m)),
                }
            },
{
    let (builder, _) = build_module_help(env, procs);
    let ghost order = choose|order: Seq<usize>|
        is_emission_order(procs@, order) && builder_exports(builder) == planned_exports(
            *env,
            procs@,
            order,
        );
    let module = finish_module(builder);
    let ghost m = module;
    proof {
        lemma_frame_exports_fit(*env, procs@, order);
    }
    let r = match module_to_bytes(module) {
        Ok(bytes) => Ok(bytes),
        Err(e) => {
            let mut s = String::from_str("Error serialising Wasm module ");
            let t = error_text(&e);
            s.append(t.as_str());
            Err(s)
        },
    };
    assert(is_emission_order(procs@, order) && module_exports(m) == planned_exports(*env, procs@, order));
    r
}

} // verus!
