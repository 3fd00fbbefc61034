//! Laws of the store, stated over the views that the operations' contracts use.

use crate::change_set::{apply_all, Op};
use crate::checksum::sha3_256_of;
use crate::error::StorageError;
use crate::names::{AccountAddress, StructTag};
use crate::store::{account_map, apply_change_set, keyed_changes, AccountChangeSet, InMemoryStorage};
use vstd::prelude::*;

verus! {

/// A store with no modules and no checksums (as `InMemoryStorage::new` makes
/// it) answers "absent" to every module and checksum lookup.
pub proof fn lemma_fresh_store_has_no_modules(s: InMemoryStorage, a: Seq<u8>, name: Seq<u8>)
    requires
        s.module_view() == Map::<Seq<u8>, Map<Seq<u8>, Vec<u8>>>::empty(),
        s.checksum_view() == Map::<Seq<u8>, Map<Seq<u8>, [u8; 32]>>::empty(),
    ensures
        s.module_bytes(a, name) is None,
        s.module_checksum(a, name) is None,
{
}

/// After module bytes `b` are added under `(a, name)` with checksum `c` (as
/// `add_module_bytes` does), the module reads back as `b`, its checksum as `c`,
/// and `c` is the digest of `b`: equal bytes give equal checksums.
pub proof fn lemma_added_module_reads_back(
    before: InMemoryStorage,
    after: InMemoryStorage,
    a: Seq<u8>,
    name: Seq<u8>,
    b: Vec<u8>,
    c: [u8; 32],
    other: Seq<u8>,
)
    requires
        c@ == sha3_256_of(b@),
        after.module_view() == before.module_view().insert(
            a,
            account_map(before.module_view(), a).insert(name, b),
        ),
        after.checksum_view() == before.checksum_view().insert(
            a,
            account_map(before.checksum_view(), a).insert(name, c),
        ),
    ensures
        after.module_bytes(a, name) == Some(b@),
        after.module_checksum(a, name) == Some(c@),
        other == b@ ==> sha3_256_of(other) == c@,
{
}

/// One account's resource deltas, as a change set.
pub open spec fn single_delta(
    cs: Seq<(AccountAddress, AccountChangeSet)>,
    a: AccountAddress,
    t: StructTag,
    op: Op<Vec<u8>>,
) -> bool {
    &&& cs.len() == 1
    &&& cs[0].0 == a
    &&& cs[0].1.resources@ == seq![(t, op)]
}

proof fn lemma_single_delta(
    rv: Map<Seq<u8>, Map<Seq<u8>, Vec<u8>>>,
    cs: Seq<(AccountAddress, AccountChangeSet)>,
    a: AccountAddress,
    t: StructTag,
    op: Op<Vec<u8>>,
)
    requires
        single_delta(cs, a, t, op),
    ensures
        ({
            let m = account_map(rv, a@);
            let changes = keyed_changes(cs[0].1.resources@);
            &&& changes =~= seq![(t.canonical, op)]
            &&& apply_all(m, changes) == apply_all(m, seq![(t.canonical, op)])
            &&& apply_change_set(rv, cs) == (
                rv.insert(a@, apply_all(m, changes).0),
                match apply_all(m, changes).1 {
                    None => None,
                    Some(i) => Some(crate::change_set::failure_of(changes[i])),
                },
            )
        }),
{
    reveal_with_fuel(apply_change_set, 2);
    assert(cs.drop_last() =~= Seq::<(AccountAddress, AccountChangeSet)>::empty());
    assert(cs.last() == cs[0]);
    let changes = keyed_changes(cs[0].1.resources@);
    assert(changes =~= seq![(t.canonical, op)]);
    assert(changes.drop_last() =~= Seq::<(Vec<u8>, Op<Vec<u8>>)>::empty());
}

proof fn lemma_one_change(m: Map<Seq<u8>, Vec<u8>>, k: Vec<u8>, op: Op<Vec<u8>>)
    ensures
        apply_all(m, seq![(k, op)]) == match crate::change_set::apply_op(m, k@, op) {
            Some(next) => (next, None),
            None => (m, Some(0int)),
        },
{
    reveal_with_fuel(apply_all, 2);
    assert(seq![(k, op)].drop_last() =~= Seq::<(Vec<u8>, Op<Vec<u8>>)>::empty());
}

/// Creating a resource that is absent succeeds; applying the same creation
/// again fails with `DuplicateKeyOnCreate` for that key.
pub proof fn lemma_create_then_duplicate(
    rv: Map<Seq<u8>, Map<Seq<u8>, Vec<u8>>>,
    cs: Seq<(AccountAddress, AccountChangeSet)>,
    a: AccountAddress,
    t: StructTag,
    v: Vec<u8>,
)
    requires
        single_delta(cs, a, t, Op::Create(v)),
        !account_map(rv, a@).contains_key(t@),
    ensures
        apply_change_set(rv, cs).1 is None,
        account_map(apply_change_set(rv, cs).0, a@) == account_map(rv, a@).insert(t@, v),
        apply_change_set(apply_change_set(rv, cs).0, cs).1 == Some(
            StorageError::DuplicateKeyOnCreate { key: t.canonical },
        ),
{
    lemma_single_delta(rv, cs, a, t, Op::Create(v));
    lemma_one_change(account_map(rv, a@), t.canonical, Op::Create(v));
    let rv1 = apply_change_set(rv, cs).0;
    lemma_single_delta(rv1, cs, a, t, Op::Create(v));
    lemma_one_change(account_map(rv1, a@), t.canonical, Op::Create(v));
}

/// Deleting a resource that is absent fails with `MissingKeyOnModifyOrDelete` for that key.
pub proof fn lemma_delete_missing_fails(
    rv: Map<Seq<u8>, Map<Seq<u8>, Vec<u8>>>,
    cs: Seq<(AccountAddress, AccountChangeSet)>,
    a: AccountAddress,
    t: StructTag,
)
    requires
        single_delta(cs, a, t, Op::Delete),
        !account_map(rv, a@).contains_key(t@),
    ensures
        apply_change_set(rv, cs).1 == Some(StorageError::MissingKeyOnModifyOrDelete { key: t.canonical }),
{
    lemma_single_delta(rv, cs, a, t, Op::Delete);
    lemma_one_change(account_map(rv, a@), t.canonical, Op::Delete);
}

/// Creating an absent resource and then deleting it leaves the account's
/// resources as they were.
pub proof fn lemma_create_then_delete(
    rv: Map<Seq<u8>, Map<Seq<u8>, Vec<u8>>>,
    create: Seq<(AccountAddress, AccountChangeSet)>,
    delete: Seq<(AccountAddress, AccountChangeSet)>,
    a: AccountAddress,
    t: StructTag,
    v: Vec<u8>,
)
    requires
        single_delta(create, a, t, Op::Create(v)),
        single_delta(delete, a, t, Op::Delete),
        !account_map(rv, a@).contains_key(t@),
    ensures
        apply_change_set(rv, create).1 is None,
        apply_change_set(apply_change_set(rv, create).0, delete).1 is None,
        account_map(apply_change_set(apply_change_set(rv, create).0, delete).0, a@) == account_map(rv, a@),
{
    lemma_single_delta(rv, create, a, t, Op::Create(v));
    lemma_one_change(account_map(rv, a@), t.canonical, Op::Create(v));
    let rv1 = apply_change_set(rv, create).0;
    lemma_single_delta(rv1, delete, a, t, Op::Delete);
    lemma_one_change(account_map(rv1, a@), t.canonical, Op::Delete);
    assert(account_map(rv, a@).insert(t@, v).remove(t@) =~= account_map(rv, a@));
}

} // verus!
