pub mod block;
pub mod codec;
pub mod timer;
pub mod hashes;
pub mod context_tree;
pub mod ipc;
pub mod machine;
pub mod messages;
pub mod rpc;
pub mod slots;
pub mod stats;
pub mod store;
