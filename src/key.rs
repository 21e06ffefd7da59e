//! Addresses of slots in the global state, and their wire form.

use vstd::prelude::*;

verus! {

/// Permission bits carried by an unforgeable reference.
#[derive(Debug, Clone, Copy, PartialEq, Eq, Structural)]
pub struct AccessRights {
    pub read: bool,
    pub write: bool,
    pub add: bool,
}

impl AccessRights {
    /// Whether these rights grant everything that `required` asks for.
    pub open spec fn includes(self, required: AccessRights) -> bool {
        (required.read ==> self.read) && (required.write ==> self.write) && (required.add
            ==> self.add)
    }

    /// Bit 0 read, bit 1 write, bit 2 add.
    pub open spec fn spec_bits(self) -> u8 {
        ((if self.read {
            1u8
        } else {
            0u8
        }) + (if self.write {
            2u8
        } else {
            0u8
        }) + (if self.add {
            4u8
        } else {
            0u8
        })) as u8
    }

    pub open spec fn spec_from_bits(b: u8) -> Option<AccessRights> {
        if b <= 7 {
            Some(AccessRights { read: b % 2 == 1, write: (b / 2) % 2 == 1, add: b / 4 == 1 })
        } else {
            None
        }
    }

    pub fn read_add_write() -> (r: AccessRights)
        ensures
            r.read && r.write && r.add,
    {
        AccessRights { read: true, write: true, add: true }
    }

    pub fn contains(&self, required: &AccessRights) -> (r: bool)
        ensures
            r == self.includes(*required),
    {
        (!required.read || self.read) && (!required.write || self.write) && (!required.add
            || self.add)
    }

    pub fn bits(&self) -> (r: u8)
        ensures
            r == self.spec_bits(),
    {
        let r: u8 = if self.read {
            1
        } else {
            0
        };
        let w: u8 = if self.write {
            2
        } else {
            0
        };
        let a: u8 = if self.add {
            4
        } else {
            0
        };
        r + w + a
    }

    pub fn from_bits(b: u8) -> (r: Option<AccessRights>)
        ensures
            r == AccessRights::spec_from_bits(b),
    {
        if b <= 7 {
            Some(AccessRights { read: b % 2 == 1, write: (b / 2) % 2 == 1, add: b / 4 == 1 })
        } else {
            None
        }
    }
}

/// A tagged address of a slot in the global state.
#[derive(Debug, Clone, Copy)]
pub enum Key {
    Account([u8; 32]),
    Hash([u8; 32]),
    URef([u8; 32], AccessRights),
}

/// Tag byte, then the 32 address bytes; a reference adds its rights' bit mask.
pub open spec fn key_bytes(k: Key) -> Seq<u8> {
    match k {
        Key::Account(a) => seq![0u8] + a@,
        Key::Hash(a) => seq![1u8] + a@,
        Key::URef(a, r) => seq![2u8] + a@ + seq![r.spec_bits()],
    }
}

/// The key that bytes spell, where they spell one exactly.
pub open spec fn key_from_bytes(b: Seq<u8>) -> Option<Key> {
    if b.len() == 33 && b[0] == 0 {
        Some(Key::Account(addr_from(b)))
    } else if b.len() == 33 && b[0] == 1 {
        Some(Key::Hash(addr_from(b)))
    } else if b.len() == 34 && b[0] == 2 && AccessRights::spec_from_bits(b[33]) is Some {
        Some(Key::URef(addr_from(b), AccessRights::spec_from_bits(b[33])->0))
    } else {
        None
    }
}

/// The 32-byte address that follows the tag byte.
pub open spec fn addr_from(b: Seq<u8>) -> [u8; 32] {
    choose|a: [u8; 32]| a@ == b.subrange(1, 33)
}

proof fn lemma_addr_from(b: Seq<u8>, a: [u8; 32])
    requires
        a@ == b.subrange(1, 33),
    ensures
        addr_from(b) == a,
{
    broadcast use vstd::array::axiom_array_ext_equal;

    let c = addr_from(b);
    assert(c@ == b.subrange(1, 33));
    assert(c =~= a);
}

/// Every key reads back from its wire form as itself.
pub proof fn lemma_key_round_trip(k: Key)
    ensures
        key_from_bytes(key_bytes(k)) == Some(k),
{
    let b = key_bytes(k);
    match k {
        Key::Account(a) => {
            assert(b.subrange(1, 33) =~= a@);
            lemma_addr_from(b, a);
        },
        Key::Hash(a) => {
            assert(b.subrange(1, 33) =~= a@);
            lemma_addr_from(b, a);
        },
        Key::URef(a, r) => {
            assert(b.subrange(1, 33) =~= a@);
            lemma_addr_from(b, a);
            assert(b[33] == r.spec_bits());
            assert(AccessRights::spec_from_bits(r.spec_bits()) == Some(r));
        },
    }
}

fn push_addr(v: &mut Vec<u8>, a: &[u8; 32])
    ensures
        final(v)@ == old(v)@ + a@,
{
    let ghost start = v@;
    let mut i: usize = 0;
    while i < 32
        invariant
            i <= 32,
            v@ == start + a@.take(i as int),
        decreases 32 - i,
    {
        v.push(a[i]);
        i += 1;
        assert(v@ =~= start + a@.take(i as int));
    }
    assert(a@.take(32) =~= a@);
}

fn read_addr(b: &[u8]) -> (r: [u8; 32])
    requires
        b@.len() >= 33,
    ensures
        r@ == b@.subrange(1, 33),
{
    let mut a: [u8; 32] = [0u8; 32];
    let mut i: usize = 0;
    while i < 32
        invariant
            i <= 32,
            b@.len() >= 33,
            forall|j: int| 0 <= j < i ==> a@[j] == b@[j + 1],
        decreases 32 - i,
    {
        a[i] = b[i + 1];
        i += 1;
    }
    assert(a@ =~= b@.subrange(1, 33));
    a
}

impl Key {
    /// The key's wire form.
    pub fn to_bytes(&self) -> (r: Vec<u8>)
        ensures
            r@ == key_bytes(*self),
    {
        let mut v: Vec<u8> = Vec::new();
        match self {
            Key::Account(a) => {
                v.push(0);
                push_addr(&mut v, a);
            },
            Key::Hash(a) => {
                v.push(1);
                push_addr(&mut v, a);
            },
            Key::URef(a, r) => {
                v.push(2);
                push_addr(&mut v, a);
                v.push(r.bits());
            },
        }
        assert(v@ =~= key_bytes(*self));
        v
    }

    /// Reads a key's wire form; `None` where the bytes spell no key.
    pub fn from_bytes(b: &[u8]) -> (r: Option<Key>)
        ensures
            r == key_from_bytes(b@),
    {
        if b.len() == 33 && b[0] == 0 {
            let a = read_addr(b);
            proof {
                lemma_addr_from(b@, a);
            }
            Some(Key::Account(a))
        } else if b.len() == 33 && b[0] == 1 {
            let a = read_addr(b);
            proof {
                lemma_addr_from(b@, a);
            }
            Some(Key::Hash(a))
        } else if b.len() == 34 && b[0] == 2 {
            match AccessRights::from_bits(b[33]) {
                Some(r) => {
                    let a = read_addr(b);
                    proof {
                        lemma_addr_from(b@, a);
                    }
                    Some(Key::URef(a, r))
                },
                None => None,
            }
        } else {
            None
        }
    }
}


pub(crate) fn addr_eq(a: &[u8; 32], b: &[u8; 32]) -> (r: bool)
    ensures
        r == (*a == *b),
{
    broadcast use vstd::array::axiom_array_ext_equal;

    let mut i: usize = 0;
    while i < 32
        invariant
            i <= 32,
            forall|j: int| 0 <= j < i ==> a@[j] == b@[j],
        decreases 32 - i,
    {
        if a[i] != b[i] {
            return false;
        }
        i += 1;
    }
    assert(*a =~= *b);
    true
}

impl PartialEq for Key {
    fn eq(&self, other: &Key) -> (r: bool) {
        match (self, other) {
            (Key::Account(a), Key::Account(b)) => addr_eq(a, b),
            (Key::Hash(a), Key::Hash(b)) => addr_eq(a, b),
            (Key::URef(a, ra), Key::URef(b, rb)) => addr_eq(a, b) && *ra == *rb,
            _ => false,
        }
    }
}

impl vstd::std_specs::cmp::PartialEqSpecImpl for Key {
    open spec fn obeys_eq_spec() -> bool {
        true
    }

    open spec fn eq_spec(&self, other: &Key) -> bool {
        *self == *other
    }
}

} // verus!
