//! Shared utilities: the error taxonomy, text helpers, and an in-memory
//! XML tree with a builder.

pub mod error;
pub mod text;
pub mod xml_node;

pub use error::SCError;
pub use error::SCResult;
pub use error::ValidationReason;
pub use xml_node::FromXmlNode;
pub use xml_node::XmlNode;
pub use xml_node::XmlNodeBuilder;
