//! Rewrites a WebAssembly module so that it no longer imports the functions
//! of chosen modules (by default the WASI system-call layer): each such import
//! becomes a local function that ignores its arguments and returns a fixed
//! value.

pub mod decode;
pub mod encode;
pub mod leb;
pub mod model;
pub mod patch;
pub mod plan;
pub mod policy;
pub mod rewrite;
mod wasm;

pub use model::{Error, FuncSig, ImportItem, ValueType};
pub use plan::{classify, ImportIndex, Plan};
pub use policy::{FunctionsToStub, ShouldStub};
pub use rewrite::{list_stubbed, stub_wasi_functions};
