//! Account addresses, identifiers, module ids and struct tags: the keys of the store.

use vstd::prelude::*;

verus! {

/// A 32-byte account address.
#[derive(Debug, Clone, Copy, PartialEq, Eq)]
pub struct AccountAddress(pub [u8; 32]);

impl View for AccountAddress {
    type V = Seq<u8>;

    open spec fn view(&self) -> Seq<u8> {
        self.0@
    }
}

impl AccountAddress {
    /// The address as a map key.
    pub fn to_key(&self) -> (r: Vec<u8>)
        ensures
            r@ == self@,
    {
        let mut r: Vec<u8> = Vec::new();
        let mut i: usize = 0;
        while i < 32
            invariant
                i <= 32,
                r@ == self.0@.subrange(0, i as int),
            decreases 32 - i,
        {
            r.push(self.0[i]);
            i = i + 1;
            assert(r@ =~= self.0@.subrange(0, i as int));
        }
        assert(r@ =~= self.0@);
        r
    }
}

/// May start an identifier: an ASCII letter or `_`.
pub open spec fn is_ident_start(c: u8) -> bool {
    (0x61 <= c <= 0x7a) || (0x41 <= c <= 0x5a) || c == 0x5f
}

/// May continue an identifier: an ASCII letter, digit or `_`.
pub open spec fn is_ident_char(c: u8) -> bool {
    is_ident_start(c) || (0x30 <= c <= 0x39)
}

/// A valid identifier: a letter, or `_` followed by at least one more
/// character, then letters, digits and `_` only.
pub open spec fn is_valid_identifier(s: Seq<u8>) -> bool {
    &&& s.len() > 0
    &&& is_ident_start(s[0])
    &&& (s[0] == 0x5f ==> s.len() > 1)
    &&& forall|i: int| 1 <= i < s.len() ==> is_ident_char(#[trigger] s[i])
}

/// A validated module or member name.
#[derive(Debug, Clone, PartialEq, Eq)]
pub struct Identifier {
    bytes: Vec<u8>,
}

impl View for Identifier {
    type V = Seq<u8>;

    closed spec fn view(&self) -> Seq<u8> {
        self.bytes@
    }
}

impl Identifier {
    /// Makes an identifier of `bytes`, if they form a valid one.
    pub fn new(bytes: Vec<u8>) -> (r: Option<Identifier>)
        ensures
            r is Some <==> is_valid_identifier(bytes@),
            r matches Some(id) ==> id@ == bytes@,
    {
        if bytes.len() == 0 || !(is_start_byte(bytes[0])) || (bytes[0] == 0x5f && bytes.len() == 1) {
            return None;
        }
        let mut i: usize = 1;
        while i < bytes.len()
            invariant
                1 <= i <= bytes@.len(),
                forall|j: int| 1 <= j < i ==> is_ident_char(#[trigger] bytes@[j]),
            decreases bytes@.len() - i,
        {
            if !is_char_byte(bytes[i]) {
                return None;
            }
            i = i + 1;
        }
        Some(Identifier { bytes })
    }

    /// The identifier's bytes.
    pub fn as_bytes(&self) -> (r: &[u8])
        ensures
            r@ == self@,
    {
        self.bytes.as_slice()
    }

    /// The identifier as a map key.
    pub fn to_key(&self) -> (r: Vec<u8>)
        ensures
            r@ == self@,
    {
        let mut r: Vec<u8> = Vec::new();
        let mut i: usize = 0;
        while i < self.bytes.len()
            invariant
                i <= self.bytes@.len(),
                r@ == self.bytes@.subrange(0, i as int),
            decreases self.bytes@.len() - i,
        {
            r.push(self.bytes[i]);
            i = i + 1;
            assert(r@ =~= self.bytes@.subrange(0, i as int));
        }
        assert(r@ =~= self.bytes@);
        r
    }
}

fn is_start_byte(c: u8) -> (r: bool)
    ensures
        r == is_ident_start(c),
{
    (0x61 <= c && c <= 0x7a) || (0x41 <= c && c <= 0x5a) || c == 0x5f
}

fn is_char_byte(c: u8) -> (r: bool)
    ensures
        r == is_ident_char(c),
{
    is_start_byte(c) || (0x30 <= c && c <= 0x39)
}

/// A module's full name: the account that holds it and its name.
#[derive(Debug, Clone, PartialEq, Eq)]
pub struct ModuleId {
    pub address: AccountAddress,
    pub name: Identifier,
}

impl ModuleId {
    /// The id of module `name` of account `address`.
    pub fn new(address: AccountAddress, name: Identifier) -> (r: ModuleId)
        ensures
            r.address == address,
            r.name == name,
    {
        ModuleId { address, name }
    }
}

/// The type of a resource, identified by its canonical rendering
/// (`0x<address>::<module>::<name><type arguments>`); resources are keyed by it.
#[derive(Debug, Clone, PartialEq, Eq)]
pub struct StructTag {
    pub canonical: Vec<u8>,
}

impl View for StructTag {
    type V = Seq<u8>;

    open spec fn view(&self) -> Seq<u8> {
        self.canonical@
    }
}

impl StructTag {
    /// The tag whose canonical rendering is `canonical`.
    pub fn new(canonical: Vec<u8>) -> (r: StructTag)
        ensures
            r.canonical == canonical,
    {
        StructTag { canonical }
    }
}

} // verus!
