//! The read-side operations that a virtual machine asks of a store. Each
//! store answers them in the same shape; what it answers is stated over its
//! own view.

use crate::checksum::Checksum;
use crate::error::StorageError;
use crate::names::{AccountAddress, Identifier, StructTag};
use vstd::prelude::*;

verus! {

/// A metadata entry of a module, offered as a hint to resource lookups.
#[derive(Debug, Clone, PartialEq, Eq)]
pub struct Metadata {
    pub key: Vec<u8>,
    pub value: Vec<u8>,
}

/// Looks up raw module bytes.
pub trait ModuleBytesStorage {
    /// The store is in a state in which it can answer.
    spec fn module_store_ready(&self) -> bool;

    /// The bytes stored for module `name` of account `a`.
    spec fn stored_module(&self, a: Seq<u8>, name: Seq<u8>) -> Option<Seq<u8>>;

    /// The bytes of module `module_name` of account `address`, if stored.
    fn fetch_module_bytes(&self, address: &AccountAddress, module_name: &Identifier) -> (r: Result<
        Option<Vec<u8>>,
        StorageError,
    >)
        requires
            self.module_store_ready(),
        ensures
            match r {
                Ok(Some(b)) => self.stored_module(address@, module_name@) == Some(b@),
                Ok(None) => self.stored_module(address@, module_name@) is None,
                Err(_) => false,
            },
    ;
}

/// Looks up module checksums.
pub trait ChecksumStorage {
    /// The store is in a state in which it can answer.
    spec fn checksum_store_ready(&self) -> bool;

    /// The checksum stored for module `name` of account `a`.
    spec fn stored_checksum(&self, a: Seq<u8>, name: Seq<u8>) -> Option<Seq<u8>>;

    /// The checksum of module `module_name` of account `address`, if stored.
    fn fetch_checksum(&self, address: &AccountAddress, module_name: &Identifier) -> (r: Result<
        Option<Checksum>,
        StorageError,
    >)
        requires
            self.checksum_store_ready(),
        ensures
            match r {
                Ok(Some(c)) => self.stored_checksum(address@, module_name@) == Some(c@),
                Ok(None) => self.stored_checksum(address@, module_name@) is None,
                Err(_) => false,
            },
    ;
}

/// Looks up resources together with their size.
pub trait ResourceResolver {
    /// The store is in a state in which it can answer.
    spec fn resource_store_ready(&self) -> bool;

    /// The bytes stored for resource `tag` of account `a`.
    spec fn stored_resource(&self, a: Seq<u8>, tag: Seq<u8>) -> Option<Seq<u8>>;

    /// The resource under `(address, tag)` with its size in bytes; `(None, 0)`
    /// where there is none. The metadata and layout are hints that a store
    /// may ignore.
    fn get_resource_bytes_with_metadata_and_layout<L>(
        &self,
        address: &AccountAddress,
        tag: &StructTag,
        metadata: &[Metadata],
        maybe_layout: Option<&L>,
    ) -> (r: Result<(Option<Vec<u8>>, usize), StorageError>)
        requires
            self.resource_store_ready(),
        ensures
            match r {
                Ok((Some(b), n)) => self.stored_resource(address@, tag@) == Some(b@) && n == b@.len(),
                Ok((None, n)) => self.stored_resource(address@, tag@) is None && n == 0,
                Err(_) => false,
            },
    ;
}

} // verus!
