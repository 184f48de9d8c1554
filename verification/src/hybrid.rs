pub mod errors;
pub mod inner;
pub mod receiver;
pub mod recv_batch;
pub mod sender;
pub mod step_laws;
pub mod sync;
