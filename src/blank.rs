//! A store that holds nothing: every lookup reports absence.

use crate::checksum::Checksum;
use crate::error::StorageError;
use crate::names::{AccountAddress, Identifier, StructTag};
use crate::resolver::{ChecksumStorage, Metadata, ModuleBytesStorage, ResourceResolver};
use vstd::prelude::*;

verus! {

/// A store containing no modules and no resources.
#[derive(Debug, Clone, Copy)]
pub struct BlankStorage;

impl Default for BlankStorage {
    fn default() -> (r: Self)
        ensures
            r == BlankStorage,
    {
        Self::new()
    }
}

impl BlankStorage {
    /// The empty store.
    pub fn new() -> (r: Self)
        ensures
            r == BlankStorage,
    {
        BlankStorage
    }
}

impl ModuleBytesStorage for BlankStorage {
    open spec fn module_store_ready(&self) -> bool {
        true
    }

    /// No module is stored, whatever is asked.
    open spec fn stored_module(&self, a: Seq<u8>, name: Seq<u8>) -> Option<Seq<u8>> {
        None
    }

    fn fetch_module_bytes(&self, _address: &AccountAddress, _module_name: &Identifier) -> (r: Result<
        Option<Vec<u8>>,
        StorageError,
    >) {
        Ok(None)
    }
}

impl ChecksumStorage for BlankStorage {
    open spec fn checksum_store_ready(&self) -> bool {
        true
    }

    /// No checksum is stored, whatever is asked.
    open spec fn stored_checksum(&self, a: Seq<u8>, name: Seq<u8>) -> Option<Seq<u8>> {
        None
    }

    fn fetch_checksum(&self, _address: &AccountAddress, _module_name: &Identifier) -> (r: Result<
        Option<Checksum>,
        StorageError,
    >) {
        Ok(None)
    }
}

impl ResourceResolver for BlankStorage {
    open spec fn resource_store_ready(&self) -> bool {
        true
    }

    /// No resource is stored, whatever is asked.
    open spec fn stored_resource(&self, a: Seq<u8>, tag: Seq<u8>) -> Option<Seq<u8>> {
        None
    }

    fn get_resource_bytes_with_metadata_and_layout<L>(
        &self,
        _address: &AccountAddress,
        _tag: &StructTag,
        _metadata: &[Metadata],
        _maybe_layout: Option<&L>,
    ) -> (r: Result<(Option<Vec<u8>>, usize), StorageError>) {
        Ok((None, 0))
    }
}

} // verus!
