pub mod errors;
pub mod mpmc;
pub mod recv;
pub mod spsc;
pub mod text_laws;
