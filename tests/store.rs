use move_storage::key_order::{compare_bytes, KeyOrder};
use move_storage::blank::BlankStorage;
use move_storage::change_set::{apply_changes, Op};
use move_storage::error::StorageError;
use move_storage::names::{AccountAddress, Identifier, ModuleId, StructTag};
use move_storage::ordered_map::OrderedMap;
use move_storage::store::{
    finish_view, resource_size, AccountChangeSet, ChangeSet, DeserializerConfig, InMemoryStorage,
};
use move_storage::resolver::{ChecksumStorage, Metadata, ModuleBytesStorage, ResourceResolver};
use sha3::Digest;

fn addr(last: u8) -> AccountAddress {
    let mut b = [0u8; 32];
    b[31] = last;
    AccountAddress(b)
}

fn ident(s: &str) -> Identifier {
    Identifier::new(s.as_bytes().to_vec()).unwrap()
}

fn tag(s: &str) -> StructTag {
    StructTag::new(s.as_bytes().to_vec())
}

fn one_change(a: AccountAddress, t: &str, op: Op<Vec<u8>>) -> ChangeSet {
    ChangeSet {
        accounts: vec![(a, AccountChangeSet { resources: vec![(tag(t), op)] })],
    }
}

fn resource(s: &InMemoryStorage, a: &AccountAddress, t: &str) -> (Option<Vec<u8>>, usize) {
    s.get_resource_bytes_with_metadata_and_layout::<()>(a, &tag(t), &[], None).unwrap()
}

// Stand-in decoder: accepts only bytes that start with the module magic.
fn magic_decoder(b: &[u8], _c: &DeserializerConfig) -> Result<usize, String> {
    if b.len() >= 4 && b[..4] == [0xa1, 0x1c, 0xeb, 0x0b] {
        Ok(b.len())
    } else {
        Err("bad magic".to_string())
    }
}

#[test]
fn fresh_store_has_nothing() {
    let s = InMemoryStorage::new();
    for a in [addr(0), addr(1), addr(255)] {
        assert_eq!(s.fetch_module_bytes(&a, &ident("m")).unwrap(), None);
        assert_eq!(s.fetch_checksum(&a, &ident("m")).unwrap(), None);
        assert_eq!(resource(&s, &a, "0x1::m::T"), (None, 0));
    }
    let d = InMemoryStorage::default();
    assert_eq!(d.fetch_module_bytes(&addr(1), &ident("x")).unwrap(), None);
}

#[test]
fn added_module_reads_back_with_checksum() {
    let mut s = InMemoryStorage::new();
    let c = s.add_module_bytes(&addr(7), &ident("m"), vec![9, 8, 7]);
    let expected: [u8; 32] = sha3::Sha3_256::digest([9u8, 8, 7]).into();
    assert_eq!(c, expected);
    assert_ne!(c, [0u8; 32]);
    assert_eq!(s.fetch_module_bytes(&addr(7), &ident("m")).unwrap(), Some(vec![9, 8, 7]));
    assert_eq!(s.fetch_checksum(&addr(7), &ident("m")).unwrap(), Some(c));
    // Same bytes elsewhere give the same checksum; other bytes another.
    let c2 = s.add_module_bytes(&addr(8), &ident("n"), vec![9, 8, 7]);
    assert_eq!(c, c2);
    let c3 = s.add_module_bytes(&addr(7), &ident("m"), vec![1]);
    assert_ne!(c, c3);
    assert_eq!(s.fetch_module_bytes(&addr(7), &ident("m")).unwrap(), Some(vec![1]));
    assert_eq!(s.fetch_checksum(&addr(7), &ident("m")).unwrap(), Some(c3));
    assert_eq!(s.fetch_module_bytes(&addr(7), &ident("n")).unwrap(), None);
}

#[test]
fn empty_module_has_checksum() {
    let mut s = InMemoryStorage::new();
    let c = s.add_module_bytes(&addr(1), &ident("e"), vec![]);
    let expected: [u8; 32] = sha3::Sha3_256::digest([0u8; 0]).into();
    assert_eq!(c, expected);
    assert_eq!(s.fetch_module_bytes(&addr(1), &ident("e")).unwrap(), Some(vec![]));
}

#[test]
fn create_then_duplicate_create() {
    let mut s = InMemoryStorage::new();
    let t = "0x1::coin::Coin";
    assert_eq!(s.apply(one_change(addr(1), t, Op::Create(vec![5]))), Ok(()));
    assert_eq!(resource(&s, &addr(1), t), (Some(vec![5]), 1));
    assert_eq!(
        s.apply(one_change(addr(1), t, Op::Create(vec![5]))),
        Err(StorageError::DuplicateKeyOnCreate { key: t.as_bytes().to_vec() })
    );
    assert_eq!(resource(&s, &addr(1), t), (Some(vec![5]), 1));
}

#[test]
fn delete_missing_fails() {
    let mut s = InMemoryStorage::new();
    let t = "0x1::coin::Coin";
    assert_eq!(
        s.apply(one_change(addr(2), t, Op::Delete)),
        Err(StorageError::MissingKeyOnModifyOrDelete { key: t.as_bytes().to_vec() })
    );
}

#[test]
fn modify_missing_fails_and_modify_present_replaces() {
    let mut s = InMemoryStorage::new();
    let t = "0x1::a::B";
    assert_eq!(
        s.apply_extended(one_change(addr(2), t, Op::Modify(vec![1]))),
        Err(StorageError::MissingKeyOnModifyOrDelete { key: t.as_bytes().to_vec() })
    );
    s.publish_or_overwrite_resource(addr(2), tag(t), vec![1, 1]);
    assert_eq!(s.apply_extended(one_change(addr(2), t, Op::Modify(vec![2, 2, 2]))), Ok(()));
    assert_eq!(resource(&s, &addr(2), t), (Some(vec![2, 2, 2]), 3));
}

#[test]
fn create_then_delete_round_trip() {
    let mut s = InMemoryStorage::new();
    s.publish_or_overwrite_resource(addr(3), tag("0x3::k::Keep"), vec![4]);
    let t = "0x3::k::Temp";
    assert_eq!(s.apply(one_change(addr(3), t, Op::Create(vec![8, 8]))), Ok(()));
    assert_eq!(s.apply(one_change(addr(3), t, Op::Delete)), Ok(()));
    assert_eq!(resource(&s, &addr(3), t), (None, 0));
    assert_eq!(resource(&s, &addr(3), "0x3::k::Keep"), (Some(vec![4]), 1));
}

#[test]
fn failure_keeps_earlier_effects() {
    let mut s = InMemoryStorage::new();
    let cs = ChangeSet {
        accounts: vec![
            (addr(1), AccountChangeSet { resources: vec![(tag("0x1::a::A"), Op::Create(vec![1]))] }),
            (
                addr(2),
                AccountChangeSet {
                    resources: vec![
                        (tag("0x2::b::B"), Op::Create(vec![2])),
                        (tag("0x2::b::C"), Op::Delete),
                        (tag("0x2::b::D"), Op::Create(vec![3])),
                    ],
                },
            ),
            (addr(3), AccountChangeSet { resources: vec![(tag("0x3::c::C"), Op::Create(vec![4]))] }),
        ],
    };
    assert_eq!(
        s.apply(cs),
        Err(StorageError::MissingKeyOnModifyOrDelete { key: b"0x2::b::C".to_vec() })
    );
    assert_eq!(resource(&s, &addr(1), "0x1::a::A"), (Some(vec![1]), 1));
    assert_eq!(resource(&s, &addr(2), "0x2::b::B"), (Some(vec![2]), 1));
    assert_eq!(resource(&s, &addr(2), "0x2::b::D"), (None, 0));
    assert_eq!(resource(&s, &addr(3), "0x3::c::C"), (None, 0));
}

#[test]
fn effects_apply_in_order() {
    let mut s = InMemoryStorage::new();
    let cs = ChangeSet {
        accounts: vec![(
            addr(4),
            AccountChangeSet {
                resources: vec![
                    (tag("0x4::x::X"), Op::Create(vec![1])),
                    (tag("0x4::x::X"), Op::Modify(vec![2])),
                    (tag("0x4::x::X"), Op::Delete),
                    (tag("0x4::x::X"), Op::Create(vec![3, 4])),
                ],
            },
        )],
    };
    assert_eq!(s.apply(cs), Ok(()));
    assert_eq!(resource(&s, &addr(4), "0x4::x::X"), (Some(vec![3, 4]), 2));
}

#[test]
fn resolve_resource_sizes() {
    let mut s = InMemoryStorage::new();
    s.publish_or_overwrite_resource(addr(5), tag("0x5::r::R"), vec![1, 2, 3, 4, 5]);
    let meta = [Metadata { key: vec![1], value: vec![2] }];
    let layout = 0u32;
    assert_eq!(
        s.get_resource_bytes_with_metadata_and_layout(&addr(5), &tag("0x5::r::R"), &meta, Some(&layout))
            .unwrap(),
        (Some(vec![1, 2, 3, 4, 5]), 5)
    );
    assert_eq!(resource(&s, &addr(5), "0x5::r::Other"), (None, 0));
    assert_eq!(resource(&s, &addr(6), "0x5::r::R"), (None, 0));
    s.publish_or_overwrite_resource(addr(5), tag("0x5::r::R"), vec![]);
    assert_eq!(resource(&s, &addr(5), "0x5::r::R"), (Some(vec![]), 0));
}

#[test]
fn resource_size_of_option() {
    assert_eq!(resource_size(&None), 0);
    assert_eq!(resource_size(&Some(vec![1, 2])), 2);
}

#[test]
fn blank_storage_reports_absence() {
    let b = BlankStorage::new();
    let d = BlankStorage::default();
    for _ in 0..2 {
        for a in [addr(0), addr(1)] {
            assert_eq!(b.fetch_module_bytes(&a, &ident("m")).unwrap(), None);
            assert_eq!(d.fetch_checksum(&a, &ident("zz")).unwrap(), None);
            assert_eq!(
                b.get_resource_bytes_with_metadata_and_layout::<()>(&a, &tag("0x1::m::T"), &[], None)
                    .unwrap(),
                (None, 0)
            );
        }
    }
}

#[test]
fn scenario_checksum_and_decode_error() {
    let mut s = InMemoryStorage::new();
    let c1 = s.add_module_bytes(&addr(1), &ident("m"), vec![1, 2, 3]);
    assert_eq!(s.fetch_checksum(&addr(1), &ident("m")).unwrap(), Some(c1));
    let id = ModuleId::new(addr(1), ident("m"));
    let config = DeserializerConfig::new(7, 255);
    assert_eq!(
        s.view_compiled_module(&id, &config, magic_decoder),
        Err(StorageError::DecodeError { reason: "bad magic".to_string() })
    );
    let missing = ModuleId::new(addr(1), ident("other"));
    assert_eq!(s.view_compiled_module(&missing, &config, magic_decoder), Ok(None));
    s.add_module_bytes(&addr(1), &ident("good"), vec![0xa1, 0x1c, 0xeb, 0x0b, 6]);
    let good = ModuleId::new(addr(1), ident("good"));
    assert_eq!(s.view_compiled_module(&good, &config, magic_decoder), Ok(Some(5)));
    assert_eq!(s.get_module(&good).unwrap(), Some(vec![0xa1, 0x1c, 0xeb, 0x0b, 6]));
}

#[test]
fn finish_view_keeps_absence_and_failure_apart() {
    assert_eq!(finish_view::<u8>(None), Ok(None));
    assert_eq!(finish_view(Some(Ok::<u8, String>(4))), Ok(Some(4)));
    assert_eq!(
        finish_view::<u8>(Some(Err("x".to_string()))),
        Err(StorageError::DecodeError { reason: "x".to_string() })
    );
}

#[test]
fn identifiers_are_validated() {
    assert!(Identifier::new(b"coin".to_vec()).is_some());
    assert!(Identifier::new(b"_x1".to_vec()).is_some());
    assert!(Identifier::new(b"A_b9".to_vec()).is_some());
    assert!(Identifier::new(b"".to_vec()).is_none());
    assert!(Identifier::new(b"_".to_vec()).is_none());
    assert!(Identifier::new(b"9a".to_vec()).is_none());
    assert!(Identifier::new(b"a-b".to_vec()).is_none());
    assert_eq!(ident("abc").as_bytes(), b"abc");
}

#[test]
fn ordered_map_operations() {
    let mut m: OrderedMap<u32> = OrderedMap::new();
    m.insert(b"b".to_vec(), 2);
    m.insert(b"a".to_vec(), 1);
    m.insert(b"ab".to_vec(), 3);
    m.insert(b"b".to_vec(), 4);
    assert_eq!(m.len(), 3);
    assert_eq!(m.get(b"b"), Some(&4));
    assert_eq!(m.get(b"a"), Some(&1));
    assert_eq!(m.get(b"c"), None);
    assert!(m.contains_key(b"ab"));
    assert_eq!(m.remove(b"a"), Some(1));
    assert_eq!(m.remove(b"a"), None);
    assert_eq!(m.len(), 2);
}

#[test]
fn apply_changes_on_a_map() {
    let mut m: OrderedMap<u8> = OrderedMap::new();
    assert_eq!(apply_changes(&mut m, vec![(b"k".to_vec(), Op::Create(1)), (b"j".to_vec(), Op::Create(2))]), Ok(()));
    assert_eq!(
        apply_changes(&mut m, vec![(b"j".to_vec(), Op::Delete), (b"k".to_vec(), Op::Create(9))]),
        Err(StorageError::DuplicateKeyOnCreate { key: b"k".to_vec() })
    );
    assert_eq!(m.get(b"j"), None);
    assert_eq!(m.get(b"k"), Some(&1));
}

#[test]
fn byte_order() {
    assert_eq!(compare_bytes(b"a", b"b"), KeyOrder::Less);
    assert_eq!(compare_bytes(b"ab", b"a"), KeyOrder::Greater);
    assert_eq!(compare_bytes(b"", b""), KeyOrder::Equal);
    assert_eq!(compare_bytes(b"", b"\x00"), KeyOrder::Less);
    assert_eq!(compare_bytes(&[2, 0], &[1, 9, 9]), KeyOrder::Greater);
}

#[test]
fn address_key_is_its_bytes() {
    assert_eq!(addr(9).to_key(), {
        let mut v = vec![0u8; 32];
        v[31] = 9;
        v
    });
    assert_eq!(ident("m").to_key(), b"m".to_vec());
}
