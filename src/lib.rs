pub mod graph;
pub mod graph_builder;
pub mod laws;
pub mod mappings;
pub mod module_specifiers;
pub mod output_path;
pub mod path;
pub mod resolve;
pub mod shims;
pub mod specifier;
pub mod text_changes;

pub use module_specifiers::{get_module_specifier_text_changes, GetModuleSpecifierTextChangesParams};
