pub mod console;
pub mod descriptors;
pub mod open_description;
pub mod readiness;
pub mod references;
pub mod registry;
pub mod table;
