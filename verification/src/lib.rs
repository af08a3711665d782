//! Navigate a parsed, tree-shaped document through chained queries, and, when
//! a query fails, report the whole derivation path that led to the failure.

pub mod cache;
pub mod document;
pub mod ops;
pub mod outside;
pub mod tree;
pub mod type_id;

pub use cache::ArenaCache;
pub use document::Collection;
pub use document::Deriv;
pub use document::Document;
pub use document::Error;
pub use document::Node;
pub use document::Text;
pub use ops::Operation;
pub use ops::Reason;
pub use ops::fmt_multiple;
pub use outside::FromText;
pub use type_id::Type;
