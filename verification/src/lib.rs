//! Operational knowledge layered over the CF standard name table.
pub mod text;

pub mod assoc;
pub mod tree;
pub mod standard;
pub mod knowledge;
pub mod cf;
pub mod standards_filter;
pub mod standards_library;
pub mod compressed;
pub mod laws;
