pub mod batch;
pub mod buf;
pub mod flow;
pub mod hash;
pub mod lanes;
pub mod laws;
pub mod layout;
pub mod receiver;
pub mod sender_key;
pub mod sender_round_robin;
pub mod step_laws;
pub mod sender_group;
pub mod recv_any;
