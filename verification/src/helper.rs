pub mod batch;
pub mod laws;
pub mod panic;
