//! A language server's logic for `Cargo.toml` files: reading dependencies,
//! completing crate names and versions, hovers with click-to-replace links,
//! quick fixes and inline version hints.
pub mod position;
pub mod text;
pub mod line_index;
pub mod toml_model;
pub mod toml_parser;
pub mod toml_laws;
pub mod section_laws;
pub mod entry_laws;
pub mod edit_laws;
pub mod versions;
pub mod popular_crates;
pub mod crates_client;
pub mod client_laws;
pub mod search_laws;
pub mod server;
pub mod hover;
pub mod percent;
pub mod replacer;
pub mod link_laws;
pub mod binary_lookup;
