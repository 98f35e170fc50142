//! An embeddable, encrypted, local key-value store with namespaces,
//! optional authenticated encryption and forward migration of its
//! on-disk layout.

pub mod codec;
pub mod crypto;
pub mod error;
pub mod helpers;
pub mod kv;
pub mod migrate;
pub mod namespace;
pub mod registry;
pub mod reload;
pub mod secure;
pub mod shared;
pub mod store;

pub use error::{ErrorType, KVError};
pub use kv::MicroKV;
pub use migrate::{FromLessThan027, Layout, LegacyLayout, Migrate, OnDisk, VersionedLayout};
pub use namespace::NamespaceMicroKV;
pub use registry::Registry;
pub use reload::{WatchAndReload, WatchEvent};
pub use store::KvStore;
