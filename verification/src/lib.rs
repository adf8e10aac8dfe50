//! Resolution and search engine of a documentation navigator.

pub mod color_scheme;
pub mod crate_name;
pub mod doc_ref;
pub mod external;
pub mod format_context;
pub mod interactive;
pub mod item;
pub mod laws;
pub mod list_crates;
pub mod navigator;
pub mod ranking;
pub mod renderer;
pub mod rustdoc_data;
pub mod search;
pub mod sources;
pub mod styled_string;
pub mod text;
pub mod traversal;
pub mod verbosity;

pub use crate_name::CrateName;
pub use doc_ref::DocRef;
pub use navigator::Navigator;
pub use rustdoc_data::RustdocData;
pub use sources::CrateProvenance;
