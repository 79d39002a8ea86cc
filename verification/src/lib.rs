pub mod laws;
pub mod parser;
pub mod position;
pub mod primitives;
pub mod semantics;
pub mod state;
pub mod value;

pub use parser::{Cont, FailFn, MapFn, Node, ParseResult, Parser, Pred, Strategy};
pub use position::Pos;
pub use state::State;
pub use value::{Failure, Val};
