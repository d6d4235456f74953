//! Abstract-syntax-tree construction for a small expression language.
//!
//! The input is a flat, doubly linked arena of classified syntax nodes, as a
//! grouping front end produces it. A single ordered-precedence reduction pass
//! rewrites the link fields in place, turning the flat chain into a tree
//! without moving or removing any node, and a final walk up the parent links
//! locates the root.

pub mod ast;
pub mod laws;
pub mod nodes;
pub mod table;

pub use ast::{make_ast, AstError, AST};
pub use nodes::{Classification, Node, ParseResult, Token, TokenType};
