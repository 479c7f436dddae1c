//! Layered configuration assembler: merges ordered fragment files into one
//! target document, dispatching on the target's format (JSON, TOML or plain
//! text).  The merge engine, parser dispatch, serializer dispatch and the
//! per-target fold are verified; calls into the outside parser and
//! serializer crates stand behind trusted wrappers.
pub mod config;
pub mod json;
pub mod paths;
pub mod pipeline;
pub mod toml_doc;
pub mod tree;
