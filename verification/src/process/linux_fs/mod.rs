pub mod changes;
pub mod files;
pub mod image;
pub mod lookups;
pub mod namespace;
pub mod naming;
pub mod object_backend;
pub mod path;
pub mod tree;
