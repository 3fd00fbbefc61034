//! The in-memory state store: per-account resources, modules and checksums.

use crate::change_set::{apply_all, apply_changes, failure_of, Op};
use crate::checksum::{module_checksum, sha3_256_of, Checksum};
use crate::error::StorageError;
use crate::names::{AccountAddress, Identifier, ModuleId, StructTag};
use crate::ordered_map::OrderedMap;
use crate::resolver::{ChecksumStorage, Metadata, ModuleBytesStorage, ResourceResolver};
use vstd::prelude::*;

verus! {

/// Bounds that the module decoder works within.
#[derive(Debug, Clone, Copy, PartialEq, Eq)]
pub struct DeserializerConfig {
    /// The highest binary format version accepted.
    pub max_binary_format_version: u32,
    /// The longest identifier accepted, in bytes.
    pub max_identifier_size: u64,
}

impl DeserializerConfig {
    /// Bounds of the given format version and identifier length.
    pub fn new(max_binary_format_version: u32, max_identifier_size: u64) -> (r: Self)
        ensures
            r.max_binary_format_version == max_binary_format_version,
            r.max_identifier_size == max_identifier_size,
    {
        DeserializerConfig { max_binary_format_version, max_identifier_size }
    }
}

/// Resource deltas for one account, applied in the order given.
pub struct AccountChangeSet {
    pub resources: Vec<(StructTag, Op<Vec<u8>>)>,
}

/// Per-account deltas, applied account by account in the order given.
pub struct ChangeSet {
    pub accounts: Vec<(AccountAddress, AccountChangeSet)>,
}

/// Resource deltas with each struct tag replaced by its key.
pub open spec fn keyed_changes(s: Seq<(StructTag, Op<Vec<u8>>)>) -> Seq<(Vec<u8>, Op<Vec<u8>>)> {
    s.map_values(|c: (StructTag, Op<Vec<u8>>)| (c.0.canonical, c.1))
}

/// The entries of account `a` in a per-account view; none where it has no record.
pub open spec fn account_map<T>(rv: Map<Seq<u8>, Map<Seq<u8>, T>>, a: Seq<u8>) -> Map<Seq<u8>, T> {
    if rv.contains_key(a) {
        rv[a]
    } else {
        Map::empty()
    }
}

/// `v[a][k]`, where both are present.
pub open spec fn lookup<T>(v: Map<Seq<u8>, Map<Seq<u8>, T>>, a: Seq<u8>, k: Seq<u8>) -> Option<T> {
    if v.contains_key(a) && v[a].contains_key(k) {
        Some(v[a][k])
    } else {
        None
    }
}

/// Applies a change set to per-account resources: the resources after the
/// last delta that fit, and the error of the first that did not, if any.
/// An account that a change set names has a record afterwards.
pub open spec fn apply_change_set(
    rv: Map<Seq<u8>, Map<Seq<u8>, Vec<u8>>>,
    cs: Seq<(AccountAddress, AccountChangeSet)>,
) -> (Map<Seq<u8>, Map<Seq<u8>, Vec<u8>>>, Option<StorageError>)
    decreases cs.len(),
{
    if cs.len() == 0 {
        (rv, None)
    } else {
        let prev = apply_change_set(rv, cs.drop_last());
        if prev.1 is Some {
            prev
        } else {
            let a = cs.last().0@;
            let changes = keyed_changes(cs.last().1.resources@);
            let res = apply_all(account_map(prev.0, a), changes);
            let next = prev.0.insert(a, res.0);
            match res.1 {
                None => (next, None),
                Some(i) => (next, Some(failure_of(changes[i]))),
            }
        }
    }
}

/// One account's resources, modules and module checksums.
struct InMemoryAccountStorage {
    resources: OrderedMap<Vec<u8>>,
    modules: OrderedMap<Vec<u8>>,
    checksums: OrderedMap<Checksum>,
}

impl InMemoryAccountStorage {
    /// Each module has a checksum computed from its bytes, and nothing else does.
    spec fn wf(&self) -> bool {
        &&& self.resources.wf()
        &&& self.modules.wf()
        &&& self.checksums.wf()
        &&& self.modules@.dom() == self.checksums@.dom()
        &&& forall|k: Seq<u8>| #[trigger] self.modules@.contains_key(k)
            ==> self.checksums@[k]@ == sha3_256_of(self.modules@[k]@)
    }

    fn new() -> (r: Self)
        ensures
            r.wf(),
            r.resources@ == Map::<Seq<u8>, Vec<u8>>::empty(),
            r.modules@ == Map::<Seq<u8>, Vec<u8>>::empty(),
            r.checksums@ == Map::<Seq<u8>, Checksum>::empty(),
    {
        InMemoryAccountStorage {
            modules: OrderedMap::new(),
            checksums: OrderedMap::new(),
            resources: OrderedMap::new(),
        }
    }

    /// Applies an account's resource deltas to its resources.
    fn apply(&mut self, account_changeset: AccountChangeSet) -> (r: Result<(), StorageError>)
        requires
            old(self).wf(),
        ensures
            final(self).wf(),
            final(self).modules == old(self).modules,
            final(self).checksums == old(self).checksums,
            ({
                let res = apply_all(old(self).resources@, keyed_changes(account_changeset.resources@));
                &&& final(self).resources@ == res.0
                &&& match res.1 {
                    None => r is Ok,
                    Some(i) => r == Err::<(), StorageError>(
                        failure_of(keyed_changes(account_changeset.resources@)[i]),
                    ),
                }
            }),
    {
        let changes = into_keyed(account_changeset.resources);
        apply_changes(&mut self.resources, changes)
    }
}

/// Replaces each struct tag of `resources` by its key.
fn into_keyed(resources: Vec<(StructTag, Op<Vec<u8>>)>) -> (r: Vec<(Vec<u8>, Op<Vec<u8>>)>)
    ensures
        r@ == keyed_changes(resources@),
{
    let ghost src = resources@;
    let mut rest = resources;
    let mut r: Vec<(Vec<u8>, Op<Vec<u8>>)> = Vec::new();
    let total: usize = rest.len();
    let mut i: usize = 0;
    while i < total
        invariant
            total == src.len(),
            i + rest@.len() == src.len(),
            rest@ == src.subrange(i as int, src.len() as int),
            r@ == keyed_changes(src.subrange(0, i as int)),
        decreases total - i,
    {
        let (tag, op) = rest.remove(0);
        r.push((tag.canonical, op));
        i = i + 1;
        assert(r@ =~= keyed_changes(src.subrange(0, i as int)));
    }
    assert(src.subrange(0, i as int) =~= src);
    r
}

/// An in-memory store of account state, usable as the storage behind a virtual machine.
pub struct InMemoryStorage {
    accounts: OrderedMap<InMemoryAccountStorage>,
}

impl Default for InMemoryStorage {
    fn default() -> (r: Self)
        ensures
            r.wf(),
            r.resource_view() == Map::<Seq<u8>, Map<Seq<u8>, Vec<u8>>>::empty(),
            r.module_view() == Map::<Seq<u8>, Map<Seq<u8>, Vec<u8>>>::empty(),
            r.checksum_view() == Map::<Seq<u8>, Map<Seq<u8>, Checksum>>::empty(),
    {
        Self::new()
    }
}

impl InMemoryStorage {
    /// The maps are ordered and every account record keeps its checksums in step with its modules.
    pub closed spec fn wf(&self) -> bool {
        &&& self.accounts.wf()
        &&& forall|a: Seq<u8>| #[trigger] self.accounts@.contains_key(a) ==> self.accounts@[a].wf()
    }

    /// Resources by account, then by struct tag key.
    pub closed spec fn resource_view(&self) -> Map<Seq<u8>, Map<Seq<u8>, Vec<u8>>> {
        self.accounts@.map_values(|r: InMemoryAccountStorage| r.resources@)
    }

    /// Module bytes by account, then by module name.
    pub closed spec fn module_view(&self) -> Map<Seq<u8>, Map<Seq<u8>, Vec<u8>>> {
        self.accounts@.map_values(|r: InMemoryAccountStorage| r.modules@)
    }

    /// Module checksums by account, then by module name.
    pub closed spec fn checksum_view(&self) -> Map<Seq<u8>, Map<Seq<u8>, Checksum>> {
        self.accounts@.map_values(|r: InMemoryAccountStorage| r.checksums@)
    }

    /// The module bytes under `(a, name)`.
    pub open spec fn module_bytes(&self, a: Seq<u8>, name: Seq<u8>) -> Option<Seq<u8>> {
        match lookup(self.module_view(), a, name) {
            Some(b) => Some(b@),
            None => None,
        }
    }

    /// The module checksum under `(a, name)`.
    pub open spec fn module_checksum(&self, a: Seq<u8>, name: Seq<u8>) -> Option<Seq<u8>> {
        match lookup(self.checksum_view(), a, name) {
            Some(c) => Some(c@),
            None => None,
        }
    }

    /// The resource bytes under `(a, tag)`.
    pub open spec fn resource_bytes(&self, a: Seq<u8>, tag: Seq<u8>) -> Option<Seq<u8>> {
        match lookup(self.resource_view(), a, tag) {
            Some(b) => Some(b@),
            None => None,
        }
    }

    /// An empty store.
    pub fn new() -> (r: Self)
        ensures
            r.wf(),
            r.resource_view() == Map::<Seq<u8>, Map<Seq<u8>, Vec<u8>>>::empty(),
            r.module_view() == Map::<Seq<u8>, Map<Seq<u8>, Vec<u8>>>::empty(),
            r.checksum_view() == Map::<Seq<u8>, Map<Seq<u8>, Checksum>>::empty(),
    {
        let r = InMemoryStorage { accounts: OrderedMap::new() };
        assert(r.resource_view() =~= Map::<Seq<u8>, Map<Seq<u8>, Vec<u8>>>::empty());
        assert(r.module_view() =~= Map::<Seq<u8>, Map<Seq<u8>, Vec<u8>>>::empty());
        assert(r.checksum_view() =~= Map::<Seq<u8>, Map<Seq<u8>, Checksum>>::empty());
        r
    }

    /// Takes the record of account `key` out of the store, or a new one where there is none.
    fn take_account(&mut self, key: &[u8]) -> (r: InMemoryAccountStorage)
        requires
            old(self).wf(),
        ensures
            final(self).wf(),
            r.wf(),
            final(self).resource_view() == old(self).resource_view().remove(key@),
            final(self).module_view() == old(self).module_view().remove(key@),
            final(self).checksum_view() == old(self).checksum_view().remove(key@),
            r.resources@ == account_map(old(self).resource_view(), key@),
            r.modules@ == account_map(old(self).module_view(), key@),
            r.checksums@ == account_map(old(self).checksum_view(), key@),
    {
        let ghost before = self.accounts@;
        let r = match self.accounts.remove(key) {
            Some(record) => record,
            None => InMemoryAccountStorage::new(),
        };
        assert(self.resource_view() =~= before.map_values(|r: InMemoryAccountStorage| r.resources@).remove(key@));
        assert(self.module_view() =~= before.map_values(|r: InMemoryAccountStorage| r.modules@).remove(key@));
        assert(self.checksum_view() =~= before.map_values(|r: InMemoryAccountStorage| r.checksums@).remove(key@));
        r
    }

    /// Stores `record` as the record of account `key`.
    fn put_account(&mut self, key: Vec<u8>, record: InMemoryAccountStorage)
        requires
            old(self).wf(),
            record.wf(),
        ensures
            final(self).wf(),
            final(self).resource_view() == old(self).resource_view().insert(key@, record.resources@),
            final(self).module_view() == old(self).module_view().insert(key@, record.modules@),
            final(self).checksum_view() == old(self).checksum_view().insert(key@, record.checksums@),
    {
        let ghost before = self.accounts@;
        let ghost k = key@;
        let ghost rec = record;
        self.accounts.insert(key, record);
        assert(self.resource_view() =~= before.map_values(|r: InMemoryAccountStorage| r.resources@).insert(k, rec.resources@));
        assert(self.module_view() =~= before.map_values(|r: InMemoryAccountStorage| r.modules@).insert(k, rec.modules@));
        assert(self.checksum_view() =~= before.map_values(|r: InMemoryAccountStorage| r.checksums@).insert(k, rec.checksums@));
    }

    /// Applies a change set, account by account and delta by delta, in the
    /// order given. Each account named gets a record. The first delta that
    /// does not fit stops the application with its error; what was applied
    /// before it stays applied. Modules and checksums are not touched.
    pub fn apply_extended(&mut self, changeset: ChangeSet) -> (r: Result<(), StorageError>)
        requires
            old(self).wf(),
        ensures
            final(self).wf(),
            final(self).resource_view() == apply_change_set(old(self).resource_view(), changeset.accounts@).0,
            match apply_change_set(old(self).resource_view(), changeset.accounts@).1 {
                None => r is Ok,
                Some(e) => r == Err::<(), StorageError>(e),
            },
            forall|a: Seq<u8>, k: Seq<u8>|
                lookup(final(self).module_view(), a, k) == lookup(old(self).module_view(), a, k),
            forall|a: Seq<u8>, k: Seq<u8>|
                lookup(final(self).checksum_view(), a, k) == lookup(old(self).checksum_view(), a, k),
    {
        let ghost cs = changeset.accounts@;
        let ghost start = *self;
        let mut rest = changeset.accounts;
        let total: usize = rest.len();
        let mut i: usize = 0;
        assert(cs.subrange(0, 0) =~= Seq::<(AccountAddress, AccountChangeSet)>::empty());
        assert(cs.subrange(0, cs.len() as int) =~= cs);
        while i < total
            invariant
                self.wf(),
                start == *old(self),
                cs == changeset.accounts@,
                total == cs.len(),
                i + rest@.len() == cs.len(),
                rest@ == cs.subrange(i as int, cs.len() as int),
                apply_change_set(start.resource_view(), cs.subrange(0, i as int)) == (
                    self.resource_view(),
                    None::<StorageError>,
                ),
                forall|a: Seq<u8>, k: Seq<u8>|
                    lookup(self.module_view(), a, k) == lookup(start.module_view(), a, k),
                forall|a: Seq<u8>, k: Seq<u8>|
                    lookup(self.checksum_view(), a, k) == lookup(start.checksum_view(), a, k),
            decreases total - i,
        {
            let (addr, acs) = rest.remove(0);
            assert(cs.subrange(0, i + 1).drop_last() =~= cs.subrange(0, i as int));
            assert(cs.subrange(0, i + 1).last() == cs[i as int]);
            let ghost mid = *self;
            let key = addr.to_key();
            let mut record = self.take_account(key.as_slice());
            let res = record.apply(acs);
            self.put_account(key, record);
            proof {
                let k = addr@;
                assert(self.resource_view() =~= mid.resource_view().insert(k, record.resources@));
                assert(self.module_view() =~= mid.module_view().insert(k, record.modules@));
                assert(self.checksum_view() =~= mid.checksum_view().insert(k, record.checksums@));
            }
            match res {
                Ok(()) => {},
                Err(e) => {
                    proof {
                        assert(apply_change_set(start.resource_view(), cs.subrange(0, i + 1)) == (
                            self.resource_view(),
                            Some(e),
                        ));
                        lemma_change_set_stops(start.resource_view(), cs, i as int);
                    }
                    return Err(e);
                },
            }
            i = i + 1;
        }
        Ok(())
    }

    /// Stores module bytes under `(address, module_name)` with their checksum,
    /// replacing what was there, and returns the checksum.
    pub fn add_module_bytes(&mut self, address: &AccountAddress, module_name: &Identifier, bytes: Vec<u8>) -> (r: Checksum)
        requires
            old(self).wf(),
        ensures
            final(self).wf(),
            r@ == sha3_256_of(bytes@),
            final(self).module_view() == old(self).module_view().insert(
                address@,
                account_map(old(self).module_view(), address@).insert(module_name@, bytes),
            ),
            final(self).checksum_view() == old(self).checksum_view().insert(
                address@,
                account_map(old(self).checksum_view(), address@).insert(module_name@, r),
            ),
            final(self).resource_view() == old(self).resource_view().insert(
                address@,
                account_map(old(self).resource_view(), address@),
            ),
    {
        let checksum = module_checksum(bytes.as_slice());
        let key = address.to_key();
        let mut account = self.take_account(key.as_slice());
        account.modules.insert(module_name.to_key(), bytes);
        account.checksums.insert(module_name.to_key(), checksum);
        self.put_account(key, account);
        checksum
    }

    /// Stores a resource under `(addr, struct_tag)`, replacing what was there.
    pub fn publish_or_overwrite_resource(&mut self, addr: AccountAddress, struct_tag: StructTag, blob: Vec<u8>)
        requires
            old(self).wf(),
        ensures
            final(self).wf(),
            final(self).resource_view() == old(self).resource_view().insert(
                addr@,
                account_map(old(self).resource_view(), addr@).insert(struct_tag@, blob),
            ),
            final(self).module_view() == old(self).module_view().insert(
                addr@,
                account_map(old(self).module_view(), addr@),
            ),
            final(self).checksum_view() == old(self).checksum_view().insert(
                addr@,
                account_map(old(self).checksum_view(), addr@),
            ),
    {
        let key = addr.to_key();
        let mut account = self.take_account(key.as_slice());
        account.resources.insert(struct_tag.canonical, blob);
        self.put_account(key, account);
    }

    /// The bytes of module `module_id`, if stored.
    pub fn get_module(&self, module_id: &ModuleId) -> (r: Result<Option<Vec<u8>>, StorageError>)
        requires
            self.wf(),
        ensures
            match r {
                Ok(Some(b)) => self.module_bytes(module_id.address@, module_id.name@) == Some(b@),
                Ok(None) => self.module_bytes(module_id.address@, module_id.name@) is None,
                Err(_) => false,
            },
    {
        self.fetch_module_bytes(&module_id.address, &module_id.name)
    }

    /// Decodes module `id` with `decode` under `config`. No module gives
    /// `Ok(None)`; bytes that `decode` rejects give `DecodeError`, never `Ok(None)`.
    pub fn view_compiled_module<M, F: Fn(&[u8], &DeserializerConfig) -> Result<M, String>>(
        &self,
        id: &ModuleId,
        config: &DeserializerConfig,
        decode: F,
    ) -> (r: Result<Option<M>, StorageError>)
        requires
            self.wf(),
            forall|b: &[u8]| decode.requires((b, config)),
        ensures
            self.module_bytes(id.address@, id.name@) is None ==> r == Ok::<Option<M>, StorageError>(None),
            self.module_bytes(id.address@, id.name@) is Some ==> exists|b: &[u8], d: Result<M, String>|
                #![all_triggers]
                b@ == self.module_bytes(id.address@, id.name@)->0 && decode.ensures((b, config), d)
                    && r == decoded_view(Some(d)),
    {
        match self.get_module(id) {
            Ok(Some(bytes)) => {
                let d = decode(bytes.as_slice(), config);
                finish_view(Some(d))
            },
            Ok(None) => finish_view(None),
            Err(e) => Err(e),
        }
    }

    /// Applies a change set; the same as [`InMemoryStorage::apply_extended`].
    pub fn apply(&mut self, changeset: ChangeSet) -> (r: Result<(), StorageError>)
        requires
            old(self).wf(),
        ensures
            final(self).wf(),
            final(self).resource_view() == apply_change_set(old(self).resource_view(), changeset.accounts@).0,
            match apply_change_set(old(self).resource_view(), changeset.accounts@).1 {
                None => r is Ok,
                Some(e) => r == Err::<(), StorageError>(e),
            },
            forall|a: Seq<u8>, k: Seq<u8>|
                lookup(final(self).module_view(), a, k) == lookup(old(self).module_view(), a, k),
            forall|a: Seq<u8>, k: Seq<u8>|
                lookup(final(self).checksum_view(), a, k) == lookup(old(self).checksum_view(), a, k),
    {
        self.apply_extended(changeset)
    }
}

impl ModuleBytesStorage for InMemoryStorage {
    open spec fn module_store_ready(&self) -> bool {
        self.wf()
    }

    open spec fn stored_module(&self, a: Seq<u8>, name: Seq<u8>) -> Option<Seq<u8>> {
        self.module_bytes(a, name)
    }

    fn fetch_module_bytes(&self, address: &AccountAddress, module_name: &Identifier) -> (r: Result<Option<Vec<u8>>, StorageError>) {
        let key = address.to_key();
        match self.accounts.get(key.as_slice()) {
            Some(account) => match account.modules.get(module_name.as_bytes()) {
                Some(b) => {
                    let c = b.clone();
                    assert(c@ =~= b@);
                    Ok(Some(c))
                },
                None => Ok(None),
            },
            None => Ok(None),
        }
    }
}

impl ChecksumStorage for InMemoryStorage {
    open spec fn checksum_store_ready(&self) -> bool {
        self.wf()
    }

    open spec fn stored_checksum(&self, a: Seq<u8>, name: Seq<u8>) -> Option<Seq<u8>> {
        self.module_checksum(a, name)
    }

    fn fetch_checksum(&self, address: &AccountAddress, module_name: &Identifier) -> (r: Result<Option<Checksum>, StorageError>) {
        let key = address.to_key();
        match self.accounts.get(key.as_slice()) {
            Some(account) => match account.checksums.get(module_name.as_bytes()) {
                Some(c) => Ok(Some(*c)),
                None => Ok(None),
            },
            None => Ok(None),
        }
    }
}

impl ResourceResolver for InMemoryStorage {
    open spec fn resource_store_ready(&self) -> bool {
        self.wf()
    }

    open spec fn stored_resource(&self, a: Seq<u8>, tag: Seq<u8>) -> Option<Seq<u8>> {
        self.resource_bytes(a, tag)
    }

    fn get_resource_bytes_with_metadata_and_layout<L>(
        &self,
        address: &AccountAddress,
        tag: &StructTag,
        _metadata: &[Metadata],
        _maybe_layout: Option<&L>,
    ) -> (r: Result<(Option<Vec<u8>>, usize), StorageError>) {
        let key = address.to_key();
        match self.accounts.get(key.as_slice()) {
            Some(account) => {
                let buf = match account.resources.get(tag.canonical.as_slice()) {
                    Some(b) => {
                        let c = b.clone();
                        assert(c@ =~= b@);
                        Some(c)
                    },
                    None => None,
                };
                let buf_size = resource_size(&buf);
                Ok((buf, buf_size))
            },
            None => Ok((None, 0)),
        }
    }
}

/// What a module view answers, given the decoder's verdict on the module's
/// bytes, or `None` where there is no module.
pub open spec fn decoded_view<M>(decoded: Option<Result<M, String>>) -> Result<Option<M>, StorageError> {
    match decoded {
        None => Ok(None),
        Some(Ok(m)) => Ok(Some(m)),
        Some(Err(reason)) => Err(StorageError::DecodeError { reason }),
    }
}

/// Turns the decoder's verdict into a module view's answer: absence and a
/// decode failure stay apart.
pub fn finish_view<M>(decoded: Option<Result<M, String>>) -> (r: Result<Option<M>, StorageError>)
    ensures
        r == decoded_view(decoded),
{
    match decoded {
        None => Ok(None),
        Some(Ok(m)) => Ok(Some(m)),
        Some(Err(reason)) => Err(StorageError::DecodeError { reason }),
    }
}

/// The size of a resource: its length, or zero where there is none.
pub fn resource_size(resource: &Option<Vec<u8>>) -> (r: usize)
    ensures
        r == match resource {
            Some(b) => b@.len(),
            None => 0,
        },
{
    match resource {
        Some(b) => b.len(),
        None => 0,
    }
}

/// Once an account's deltas fail, the later accounts change nothing.
proof fn lemma_change_set_stops(
    rv: Map<Seq<u8>, Map<Seq<u8>, Vec<u8>>>,
    cs: Seq<(AccountAddress, AccountChangeSet)>,
    i: int,
)
    requires
        0 <= i < cs.len(),
        apply_change_set(rv, cs.subrange(0, i + 1)).1 is Some,
    ensures
        apply_change_set(rv, cs) == apply_change_set(rv, cs.subrange(0, i + 1)),
    decreases cs.len(),
{
    if i == cs.len() - 1 {
        assert(cs.subrange(0, i + 1) =~= cs);
    } else {
        assert(cs.drop_last().subrange(0, i + 1) =~= cs.subrange(0, i + 1));
        lemma_change_set_stops(rv, cs.drop_last(), i);
    }
}

} // verus!
