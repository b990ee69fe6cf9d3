//! The runtime handle for WebAssembly, where every task runs on one thread
//! and a spawned task cannot be joined.

use vstd::prelude::*;

verus! {

/// The runtime handle for WebAssembly.
#[derive(Clone, Copy, Debug)]
pub struct WasmRuntime;

impl WasmRuntime {
    /// A runtime handle.
    pub fn new() -> (r: WasmRuntime)
        ensures
            r == WasmRuntime,
    {
        WasmRuntime
    }
}

/// The handle of a task spawned on WebAssembly; it never completes.
#[derive(Debug)]
pub struct WasmJoinHandle<O> {
    _phantom: core::marker::PhantomData<O>,
}

/// The error of joining a task on WebAssembly.
#[derive(Clone, Copy, Debug, PartialEq, Eq, Structural)]
pub struct WasmJoinError;

impl WasmJoinError {
    /// Whether the task panicked: a join on WebAssembly never says so.
    pub fn is_panic(&self) -> (r: bool)
        ensures
            !r,
    {
        false
    }

    /// The text of the error.
    pub fn to_string(&self) -> (r: String)
        ensures
            r@ == "WASM join error"@,
    {
        "WASM join error".to_string()
    }
}

} // verus!
