//! Storage and synchronisation core of a peer-to-peer encrypted file-sync engine.
//!
//! - Blocks and blobs: `cursor`, `blob`, `fork`, `lock`.
//! - Directories and versions: `version_vector`, `directory`, `joint`, `root`.
//! - Repository state: `access`, `metadata`, `progress`, `worker`, `codec`, `replica_id`.
//! - Peers and links: `peer_addr`, `handshake`, `peer_exchange`, `links`, `dispatcher`,
//!   `request`.
//! - Shared pieces: `error`, `table`.

pub mod error;
pub mod table;
pub mod codec;
pub mod cursor;
pub mod blob;
pub mod fork;
pub mod lock;
pub mod version_vector;
pub mod directory;
pub mod joint;
pub mod root;
pub mod access;
pub mod metadata;
pub mod progress;
pub mod replica_id;
pub mod peer_addr;
pub mod handshake;
pub mod peer_exchange;
pub mod links;
pub mod dispatcher;
pub mod request;
pub mod worker;
