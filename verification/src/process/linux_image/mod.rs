//! Validation of Linux ELF64 images and construction of their processes.

pub mod construct;
pub mod demand;
pub mod error;
pub mod launch;
pub mod layout;
pub mod load_plan;
pub mod placement;
pub mod prescan;
pub mod validate;
