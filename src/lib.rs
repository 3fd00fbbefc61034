//! An in-memory, account-scoped state store for a Move virtual machine:
//! module bytecode, resource blobs and module checksums per account, with
//! change-set application and the read-side resolver operations.

pub mod key_order;
pub mod ordered_map;
pub mod error;
pub mod change_set;
pub mod names;
pub mod checksum;
pub mod resolver;
pub mod store;
pub mod blank;
pub mod laws;
