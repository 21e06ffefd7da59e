//! Typed payloads stored at keys, their mathematical model, and their
//! canonical byte form.

use vstd::prelude::*;
use vstd::string::StringSliceAdditionalSpecFns;
use vstd::utf8::encode_utf8;
use crate::key::{key_bytes, Key};
use crate::uint::{dec_digits, U256, U512};
use crate::validator::PublicKey;

verus! {

/// A protocol version: major, minor, patch.
#[derive(Debug, Clone, Copy, PartialEq, Eq, Structural)]
pub struct ProtocolVersion {
    pub major: u32,
    pub minor: u32,
    pub patch: u32,
}

impl ProtocolVersion {
    /// Lexicographic order on (major, minor, patch).
    pub open spec fn spec_lt(self, o: ProtocolVersion) -> bool {
        self.major < o.major || (self.major == o.major && (self.minor < o.minor || (self.minor
            == o.minor && self.patch < o.patch)))
    }

    pub fn new(major: u32, minor: u32, patch: u32) -> (r: ProtocolVersion)
        ensures
            r == (ProtocolVersion { major, minor, patch }),
    {
        ProtocolVersion { major, minor, patch }
    }

    /// Version 1.0.0, taken where none is given.
    pub fn v1_0_0() -> (r: ProtocolVersion)
        ensures
            r == (ProtocolVersion { major: 1, minor: 0, patch: 0 }),
    {
        ProtocolVersion { major: 1, minor: 0, patch: 0 }
    }

    pub fn lt(&self, o: &ProtocolVersion) -> (r: bool)
        ensures
            r == self.spec_lt(*o),
    {
        self.major < o.major || (self.major == o.major && (self.minor < o.minor || (self.minor
            == o.minor && self.patch < o.patch)))
    }
}

/// A name bound to a key.
#[derive(Debug)]
pub struct NamedKey {
    pub name: String,
    pub key: Key,
}

/// Named keys as a list of bindings; a later binding of a name overrides an
/// earlier one.
pub open spec fn named_keys_view(s: Seq<NamedKey>) -> Seq<(Seq<char>, Key)> {
    s.map_values(|nk: NamedKey| (nk.name@, nk.key))
}

/// The mapping that a list of bindings stands for.
pub open spec fn named_keys_map(s: Seq<(Seq<char>, Key)>) -> Map<Seq<char>, Key>
    decreases s.len(),
{
    if s.len() == 0 {
        Map::empty()
    } else {
        named_keys_map(s.drop_last()).insert(s.last().0, s.last().1)
    }
}

/// An account: its key, its named keys and its main purse.
#[derive(Debug)]
pub struct Account {
    pub public_key: PublicKey,
    pub named_keys: Vec<NamedKey>,
    pub main_purse: Key,
}

/// A stored contract: its code, its named keys and the protocol version it
/// was stored under.
#[derive(Debug)]
pub struct Contract {
    pub bytes: Vec<u8>,
    pub named_keys: Vec<NamedKey>,
    pub protocol_version: ProtocolVersion,
}

/// The payload stored at a key.
#[derive(Debug)]
pub enum Value {
    Int32(i32),
    UInt64(u64),
    UInt128(u128),
    UInt256(U256),
    UInt512(U512),
    ByteArray(Vec<u8>),
    Str(String),
    NamedKeys(Vec<NamedKey>),
    Account(Account),
    Contract(Contract),
    Unit,
}

/// What a value stands for.
pub enum ValueView {
    Int32(i32),
    UInt64(u64),
    UInt128(u128),
    UInt256(nat),
    UInt512(nat),
    ByteArray(Seq<u8>),
    Str(Seq<char>),
    NamedKeys(Seq<(Seq<char>, Key)>),
    Account(Seq<u8>, Seq<(Seq<char>, Key)>, Key),
    Contract(Seq<u8>, Seq<(Seq<char>, Key)>, ProtocolVersion),
    Unit,
}

/// The kinds of values, as named in type errors.
#[derive(Debug, Clone, Copy, PartialEq, Eq, Structural)]
pub enum ValueKind {
    Int32,
    UInt64,
    UInt128,
    UInt256,
    UInt512,
    ByteArray,
    Str,
    NamedKeys,
    Account,
    Contract,
    Unit,
}

impl View for Value {
    type V = ValueView;

    open spec fn view(&self) -> ValueView {
        match self {
            Value::Int32(x) => ValueView::Int32(*x),
            Value::UInt64(x) => ValueView::UInt64(*x),
            Value::UInt128(x) => ValueView::UInt128(*x),
            Value::UInt256(x) => ValueView::UInt256(x@),
            Value::UInt512(x) => ValueView::UInt512(x@),
            Value::ByteArray(b) => ValueView::ByteArray(b@),
            Value::Str(s) => ValueView::Str(s@),
            Value::NamedKeys(m) => ValueView::NamedKeys(named_keys_view(m@)),
            Value::Account(a) => ValueView::Account(
                a.public_key@,
                named_keys_view(a.named_keys@),
                a.main_purse,
            ),
            Value::Contract(c) => ValueView::Contract(
                c.bytes@,
                named_keys_view(c.named_keys@),
                c.protocol_version,
            ),
            Value::Unit => ValueView::Unit,
        }
    }
}

pub open spec fn kind_of(v: ValueView) -> ValueKind {
    match v {
        ValueView::Int32(_) => ValueKind::Int32,
        ValueView::UInt64(_) => ValueKind::UInt64,
        ValueView::UInt128(_) => ValueKind::UInt128,
        ValueView::UInt256(_) => ValueKind::UInt256,
        ValueView::UInt512(_) => ValueKind::UInt512,
        ValueView::ByteArray(_) => ValueKind::ByteArray,
        ValueView::Str(_) => ValueKind::Str,
        ValueView::NamedKeys(_) => ValueKind::NamedKeys,
        ValueView::Account(..) => ValueKind::Account,
        ValueView::Contract(..) => ValueKind::Contract,
        ValueView::Unit => ValueKind::Unit,
    }
}

impl Value {
    pub fn kind(&self) -> (r: ValueKind)
        ensures
            r == kind_of(self@),
    {
        match self {
            Value::Int32(_) => ValueKind::Int32,
            Value::UInt64(_) => ValueKind::UInt64,
            Value::UInt128(_) => ValueKind::UInt128,
            Value::UInt256(_) => ValueKind::UInt256,
            Value::UInt512(_) => ValueKind::UInt512,
            Value::ByteArray(_) => ValueKind::ByteArray,
            Value::Str(_) => ValueKind::Str,
            Value::NamedKeys(_) => ValueKind::NamedKeys,
            Value::Account(_) => ValueKind::Account,
            Value::Contract(_) => ValueKind::Contract,
            Value::Unit => ValueKind::Unit,
        }
    }
}

/// `n` in `len` little-endian bytes.
pub open spec fn le_bytes(n: nat, len: nat) -> Seq<u8>
    decreases len,
{
    if len == 0 {
        Seq::empty()
    } else {
        seq![(n % 256) as u8] + le_bytes(n / 256, (len - 1) as nat)
    }
}

/// A length-prefixed byte string.
pub open spec fn framed(b: Seq<u8>) -> Seq<u8> {
    le_bytes(b.len(), 8) + b
}

pub open spec fn named_keys_bytes(s: Seq<(Seq<char>, Key)>) -> Seq<u8>
    decreases s.len(),
{
    if s.len() == 0 {
        Seq::empty()
    } else {
        named_keys_bytes(s.drop_last()) + framed(encode_utf8(s.last().0)) + key_bytes(s.last().1)
    }
}

pub open spec fn named_keys_framed(s: Seq<(Seq<char>, Key)>) -> Seq<u8> {
    le_bytes(s.len(), 8) + named_keys_bytes(s)
}

/// The canonical byte form of a value: a tag byte, then its fields.
pub open spec fn value_bytes(v: ValueView) -> Seq<u8> {
    match v {
        ValueView::Int32(x) => seq![0u8] + le_bytes(x as u32 as nat, 4),
        ValueView::UInt64(x) => seq![1u8] + le_bytes(x as nat, 8),
        ValueView::UInt128(x) => seq![2u8] + le_bytes(x as nat, 16),
        ValueView::UInt256(x) => seq![3u8] + framed(dec_digits(x)),
        ValueView::UInt512(x) => seq![4u8] + framed(dec_digits(x)),
        ValueView::ByteArray(b) => seq![5u8] + framed(b),
        ValueView::Str(s) => seq![6u8] + framed(encode_utf8(s)),
        ValueView::NamedKeys(m) => seq![7u8] + named_keys_framed(m),
        ValueView::Account(pk, m, p) => seq![8u8] + pk + named_keys_framed(m) + key_bytes(p),
        ValueView::Contract(b, m, pv) => seq![9u8] + framed(b) + named_keys_framed(m) + le_bytes(
            pv.major as nat,
            4,
        ) + le_bytes(pv.minor as nat, 4) + le_bytes(pv.patch as nat, 4),
        ValueView::Unit => seq![10u8],
    }
}

/// Appends `n` in `len` little-endian bytes.
pub(crate) fn push_le(v: &mut Vec<u8>, n: u128, len: usize)
    ensures
        final(v)@ == old(v)@ + le_bytes(n as nat, len as nat),
{
    let ghost start = old(v)@;
    let mut x: u128 = n;
    let mut i: usize = 0;
    while i < len
        invariant
            i <= len,
            v@ + le_bytes(x as nat, (len - i) as nat) == start + le_bytes(n as nat, len as nat),
        decreases len - i,
    {
        let ghost before = v@;
        assert(le_bytes(x as nat, (len - i) as nat) == seq![(x % 256) as u8] + le_bytes(
            (x / 256) as nat,
            (len - i - 1) as nat,
        ));
        v.push((x % 256) as u8);
        assert(before + le_bytes(x as nat, (len - i) as nat) =~= v@ + le_bytes(
            (x / 256) as nat,
            (len - i - 1) as nat,
        ));
        x = x / 256;
        i += 1;
    }
    assert(v@ + le_bytes(x as nat, 0) =~= v@);
}

fn push_framed(v: &mut Vec<u8>, b: &[u8])
    ensures
        final(v)@ == old(v)@ + framed(b@),
{
    push_le(v, b.len() as u128, 8);
    let ghost mid = v@;
    let mut i: usize = 0;
    while i < b.len()
        invariant
            i <= b@.len(),
            v@ == mid + b@.take(i as int),
        decreases b@.len() - i,
    {
        v.push(b[i]);
        i += 1;
        assert(v@ =~= mid + b@.take(i as int));
    }
    assert(b@.take(b@.len() as int) =~= b@);
    assert(v@ =~= old(v)@ + framed(b@));
}

fn push_named_keys(v: &mut Vec<u8>, m: &Vec<NamedKey>)
    ensures
        final(v)@ == old(v)@ + named_keys_framed(named_keys_view(m@)),
{
    let ghost nv = named_keys_view(m@);
    push_le(v, m.len() as u128, 8);
    let ghost mid = v@;
    let mut i: usize = 0;
    assert(nv.take(0) =~= Seq::<(Seq<char>, Key)>::empty());
    assert(mid =~= mid + named_keys_bytes(nv.take(0)));
    while i < m.len()
        invariant
            i <= m@.len(),
            nv == named_keys_view(m@),
            v@ == mid + named_keys_bytes(nv.take(i as int)),
        decreases m@.len() - i,
    {
        let nk = &m[i];
        let ghost before = v@;
        push_framed(v, nk.name.as_str().as_bytes());
        let kb = nk.key.to_bytes();
        let mut j: usize = 0;
        let ghost mid2 = v@;
        while j < kb.len()
            invariant
                j <= kb@.len(),
                v@ == mid2 + kb@.take(j as int),
            decreases kb@.len() - j,
        {
            v.push(kb[j]);
            j += 1;
            assert(v@ =~= mid2 + kb@.take(j as int));
        }
        assert(kb@.take(kb@.len() as int) =~= kb@);
        assert(nv.take(i + 1).drop_last() =~= nv.take(i as int));
        assert(nv[i as int] == (nk.name@, nk.key));
        i += 1;
        assert(v@ =~= mid + named_keys_bytes(nv.take(i as int)));
    }
    assert(nv.take(m@.len() as int) =~= nv);
    assert(v@ =~= old(v)@ + named_keys_framed(nv));
}

pub(crate) fn push_all(v: &mut Vec<u8>, b: &[u8])
    ensures
        final(v)@ == old(v)@ + b@,
{
    let ghost mid = v@;
    let mut i: usize = 0;
    while i < b.len()
        invariant
            i <= b@.len(),
            v@ == mid + b@.take(i as int),
        decreases b@.len() - i,
    {
        v.push(b[i]);
        i += 1;
        assert(v@ =~= mid + b@.take(i as int));
    }
    assert(b@.take(b@.len() as int) =~= b@);
}

/// A copy of named keys.
pub fn copy_named_keys(m: &Vec<NamedKey>) -> (r: Vec<NamedKey>)
    ensures
        named_keys_view(r@) == named_keys_view(m@),
{
    let mut r: Vec<NamedKey> = Vec::new();
    let mut i: usize = 0;
    while i < m.len()
        invariant
            i <= m@.len(),
            named_keys_view(r@) == named_keys_view(m@).take(i as int),
        decreases m@.len() - i,
    {
        let nk = &m[i];
        let name = nk.name.clone();
        let ghost before = r@;
        r.push(NamedKey { name, key: nk.key });
        assert(named_keys_view(r@) =~= named_keys_view(before).push((nk.name@, nk.key)));
        i += 1;
        assert(named_keys_view(r@) =~= named_keys_view(m@).take(i as int));
    }
    assert(named_keys_view(m@).take(m@.len() as int) =~= named_keys_view(m@));
    r
}

fn copy_bytes(b: &Vec<u8>) -> (r: Vec<u8>)
    ensures
        r@ == b@,
{
    let mut r: Vec<u8> = Vec::new();
    let mut i: usize = 0;
    while i < b.len()
        invariant
            i <= b@.len(),
            r@ == b@.take(i as int),
        decreases b@.len() - i,
    {
        r.push(b[i]);
        i += 1;
        assert(r@ =~= b@.take(i as int));
    }
    assert(b@.take(b@.len() as int) =~= b@);
    r
}

impl Value {
    /// A copy of the value.
    pub fn duplicate(&self) -> (r: Value)
        ensures
            r@ == self@,
    {
        match self {
            Value::Int32(x) => Value::Int32(*x),
            Value::UInt64(x) => Value::UInt64(*x),
            Value::UInt128(x) => Value::UInt128(*x),
            Value::UInt256(x) => Value::UInt256(x.copied()),
            Value::UInt512(x) => Value::UInt512(x.copied()),
            Value::ByteArray(b) => Value::ByteArray(copy_bytes(b)),
            Value::Str(s) => Value::Str(s.clone()),
            Value::NamedKeys(m) => Value::NamedKeys(copy_named_keys(m)),
            Value::Account(a) => Value::Account(
                Account {
                    public_key: a.public_key,
                    named_keys: copy_named_keys(&a.named_keys),
                    main_purse: a.main_purse,
                },
            ),
            Value::Contract(c) => Value::Contract(
                Contract {
                    bytes: copy_bytes(&c.bytes),
                    named_keys: copy_named_keys(&c.named_keys),
                    protocol_version: c.protocol_version,
                },
            ),
            Value::Unit => Value::Unit,
        }
    }

    /// Appends the value's canonical byte form.
    pub fn encode_into(&self, v: &mut Vec<u8>)
        ensures
            final(v)@ == old(v)@ + value_bytes(self@),
    {
        match self {
            Value::Int32(x) => {
                v.push(0);
                push_le(v, *x as u32 as u128, 4);
            },
            Value::UInt64(x) => {
                v.push(1);
                push_le(v, *x as u128, 8);
            },
            Value::UInt128(x) => {
                v.push(2);
                push_le(v, *x, 16);
            },
            Value::UInt256(x) => {
                v.push(3);
                let d = x.to_dec_bytes();
                push_framed(v, d.as_slice());
            },
            Value::UInt512(x) => {
                v.push(4);
                let d = x.to_dec_bytes();
                push_framed(v, d.as_slice());
            },
            Value::ByteArray(b) => {
                v.push(5);
                push_framed(v, b.as_slice());
            },
            Value::Str(s) => {
                v.push(6);
                push_framed(v, s.as_str().as_bytes());
            },
            Value::NamedKeys(m) => {
                v.push(7);
                push_named_keys(v, m);
            },
            Value::Account(a) => {
                v.push(8);
                let pk = a.public_key.value();
                push_all(v, pk.as_slice());
                push_named_keys(v, &a.named_keys);
                let kb = a.main_purse.to_bytes();
                push_all(v, kb.as_slice());
            },
            Value::Contract(c) => {
                v.push(9);
                push_framed(v, c.bytes.as_slice());
                push_named_keys(v, &c.named_keys);
                push_le(v, c.protocol_version.major as u128, 4);
                push_le(v, c.protocol_version.minor as u128, 4);
                push_le(v, c.protocol_version.patch as u128, 4);
            },
            Value::Unit => {
                v.push(10);
            },
        }
        assert(v@ =~= old(v)@ + value_bytes(self@));
    }
}

} // verus!
