//! Client for a QEMU guest agent reached through `virsh qemu-agent-command`:
//! agent commands and replies, chunked file transfer with guaranteed handle
//! cleanup, OS identity queries with a time-bounded cache, and the small text
//! helpers that the interactive front end uses.

pub mod wire;
pub mod codec;
pub mod identity;
pub mod transfer;
pub mod probe;
pub mod utils;
pub mod edit;
