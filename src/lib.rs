//! Layout-directed code generation: memory layouts of values, their construction and
//! projection, reference counting, control-flow lowering, built-in operations and the
//! bridge to host code; the WebAssembly encoding helpers; the environment of type
//! unification; and the messages of editor errors.
pub mod arith;
pub mod control;
pub mod dict;
pub mod ed_error;
pub mod heap;
pub mod host;
pub mod layout;
pub mod leb128;
pub mod refcount;
pub mod scope;
pub mod strings;
pub mod structs;
pub mod tags;
pub mod unify_env;
pub mod wasm;
pub mod wasm_module;
