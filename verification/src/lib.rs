//! A multi-tenant, sharded file-storage core.
//!
//! The library holds the verified logic of three cooperating stores: an
//! asset metadata store keeping a hierarchical tree of folders, files and
//! tokenized assets per owner; a chunk store (one instance per storage
//! shard) keeping raw content blocks keyed by owner identity; and a users
//! directory mapping each owner to the shard addresses provisioned for it.
//! Platform concerns (remote calls, timestamps, shard provisioning,
//! persistence of snapshots) live outside the library and hand it plain
//! values.

pub mod principal;
pub mod text;
pub mod api_error;
pub mod settings;
pub mod nft;
pub mod chunk;
pub mod asset;
pub mod invite;
pub mod user;
pub mod seq_facts;
pub mod assets_store;
pub mod chunks_store;
pub mod users_store;
pub mod whitelist;
pub mod utils;
pub mod protocol;
pub mod laws;
