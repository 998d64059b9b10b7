//! A typed, loss-free model of the JSON abstract-syntax-tree output of the
//! Solidity compiler: source-location strings, the open node-kind
//! classification, and the recursive node tree with its open attribute bag.

pub mod ast;
pub mod dec;
pub mod error;
pub mod json;
pub mod location;
pub mod node;
pub mod node_type;

pub use ast::Ast;
pub use error::AstError;
pub use json::Json;
pub use json::JsonV;
pub use location::SourceLocation;
pub use node::Node;
pub use node_type::NodeType;
