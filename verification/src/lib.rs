pub mod archive;
pub mod errors;
pub mod laws;
pub mod models;
pub mod reader;
pub mod spec_format;
pub mod type_ids;
pub mod walk;
pub mod write_context;
pub mod writer;
