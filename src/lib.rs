//! Client-side codec and transport logic for a version-evolving,
//! length-framed binary request/response protocol.

pub mod buffer;
pub mod error;
pub mod wire;
pub mod primitive;
pub mod varint;
pub mod text;
pub mod compose;
pub mod tagged;
pub mod api;
pub mod api_versions;
pub mod topics;
pub mod metadata;
pub mod list_offsets;
pub mod header;
pub mod describe_groups;
pub mod join_group;
pub mod records;
pub mod produce;
pub mod fetch;
pub mod leader_isr;
pub mod offset_commit;
pub mod sync_group;
pub mod create_partitions;
pub mod offset_fetch;
pub mod leave_group;
pub mod find_coordinator;
pub mod list_groups;
pub mod heartbeat;
pub mod offset_delete;
pub mod transport;
pub mod client;
pub mod config;
