//! The syntax tree, the parser that builds it and the evaluator that
//! walks it.

pub mod eval;
pub mod failures;
pub mod grammar;
pub mod laws;
pub mod node;
pub mod nodetype;
pub mod parser;
pub mod program;
pub mod rettype;
pub mod spelling;
pub mod store;
pub mod tree;
pub mod unfold;

pub use node::Node;
pub use nodetype::Ntype;
pub use program::Program;
pub use rettype::RetType;
pub use store::VarTable;
