//! The bridge to host code: how an exposed function hands back its result, the size
//! query paired with it, the names the host links against, and the adapter that turns a
//! raised exception into a flagged result.
use vstd::prelude::*;
use crate::arith::Exception;
use crate::layout::{Layout, valid_ptr_width};

verus! {

/// How an exposed function hands its result to the host.
#[derive(Debug, PartialEq, Eq, Clone, Copy)]
pub enum ReturnConvention {
    /// In registers, as the return value.
    Direct,
    /// Written through a pointer that the caller passes, to storage it allocated.
    OutPointer,
}

/// Results larger than two machine words go through an output pointer.
pub open spec fn convention_spec(l: Layout, pw: nat) -> ReturnConvention {
    if l.size(pw) > 2 * pw {
        ReturnConvention::OutPointer
    } else {
        ReturnConvention::Direct
    }
}

/// The convention by which a function with result layout `l` returns to the host.
pub fn return_convention(l: &Layout, pw: u64) -> (r: ReturnConvention)
    requires
        valid_ptr_width(pw as nat),
        l.size(pw as nat) <= u64::MAX,
    ensures
        r == convention_spec(*l, pw as nat),
{
    if l.stack_size(pw) > 2 * pw {
        ReturnConvention::OutPointer
    } else {
        ReturnConvention::Direct
    }
}

/// What the size query paired with an exposed function reports: the bytes the host
/// must allocate for its result.
pub fn result_size(l: &Layout, pw: u64) -> (r: u64)
    requires
        valid_ptr_width(pw as nat),
        l.size(pw as nat) <= u64::MAX,
    ensures
        r == l.size(pw as nat),
{
    l.stack_size(pw)
}

/// How the host sees an exposed function.
#[derive(Debug)]
pub struct ExposedFunction {
    /// The symbol of the entry point that computes the value.
    pub entry_name: String,
    /// The symbol of the zero-argument function that reports the result size.
    pub size_name: String,
    pub convention: ReturnConvention,
    pub result_size: u64,
}

/// The symbol of the entry point of the function `name`.
pub open spec fn entry_name_of(name: Seq<char>) -> Seq<char> {
    "roc__"@ + name + "_1_exposed"@
}

/// The symbol of the size query of the function `name`.
pub open spec fn size_name_of(name: Seq<char>) -> Seq<char> {
    "roc__"@ + name + "_1_size"@
}

/// Describes the host-facing pair of functions generated for the function `name` with
/// result layout `l`.
pub fn expose(name: &str, l: &Layout, pw: u64) -> (r: ExposedFunction)
    requires
        valid_ptr_width(pw as nat),
        l.size(pw as nat) <= u64::MAX,
    ensures
        r.entry_name@ == entry_name_of(name@),
        r.size_name@ == size_name_of(name@),
        r.convention == convention_spec(*l, pw as nat),
        r.result_size == l.size(pw as nat),
{
    let mut entry_name = String::from_str("roc__");
    entry_name.append(name);
    entry_name.append("_1_exposed");
    let mut size_name = String::from_str("roc__");
    size_name.append(name);
    size_name.append("_1_size");
    ExposedFunction {
        entry_name,
        size_name,
        convention: return_convention(l, pw),
        result_size: result_size(l, pw),
    }
}

/// What the host receives from an exposed function: a failure flag, and the value or
/// the exception.
#[derive(Debug, PartialEq, Eq)]
pub struct HostResult {
    pub failed: bool,
    pub value: i64,
    pub exception: Option<Exception>,
}

/// The exception-catching adapter: a raised exception becomes a flagged result instead
/// of unwinding into the host.
pub fn catch_exception(r: Result<i64, Exception>) -> (h: HostResult)
    ensures
        match r {
            Ok(v) => h == HostResult { failed: false, value: v, exception: None },
            Err(x) => h == HostResult { failed: true, value: 0, exception: Some(x) },
        },
{
    match r {
        Ok(v) => HostResult { failed: false, value: v, exception: None },
        Err(x) => HostResult { failed: true, value: 0, exception: Some(x) },
    }
}

/// A function exposed to the host whose result is a struct larger than two machine
/// words returns through an output pointer, and the size its size query reports, the
/// result layout's size, is the struct's declared size: the sum of its fields' sizes.
pub proof fn lemma_large_struct_out_pointer(fields: Vec<Layout>, pw: nat)
    requires
        valid_ptr_width(pw),
        Layout::Struct(fields).size(pw) > 2 * pw,
    ensures
        convention_spec(Layout::Struct(fields), pw) == ReturnConvention::OutPointer,
        Layout::Struct(fields).size(pw) == crate::layout::fields_size(fields@, pw),
{
}

} // verus!
