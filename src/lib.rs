//! An embeddable Lisp core: an s-expression value model, a reader, and a
//! tree-walking evaluator over a three-tier symbol table.
use vstd::prelude::*;

pub mod text;
pub mod caller;
pub mod color;
pub mod error;
pub mod value;
pub mod render;
pub mod table;
pub mod arithmetic;
pub mod context;
pub mod source;
pub mod parser;
pub mod roundtrip;
pub mod vm;
pub mod cell;

pub use context::{Context, MAX_DEPTH};
pub use error::{Error, ErrorType};
pub use parser::{parse_source, MinilispSource, ParseError};
pub use table::{Builtin, Function, Sym, SymbolTable};
pub use value::{append, car, cdr, cons, list, Value};
pub use vm::VirtualMachine;

verus! {

} // verus!
