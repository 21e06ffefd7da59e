//! The engine's request/response operations over the global state: commit,
//! query, genesis and upgrade, with requests in their logical message shape.

use vstd::prelude::*;
use crate::global_state::{
    commit_outcome, effects_view, path_view, root_of, roots_valid, store_after, walk_answer,
    CommitError, CommitResult, GlobalState, QueryResult, StoreView,
};
use crate::key::{key_from_bytes, Key};
use crate::message::{transform_of, ParsingError, TransformInstanceView, TransformMessage};
use crate::transform::{Transform, TransformError, TransformView};
use crate::value::{named_keys_view, push_all, Account, Contract, NamedKey, ProtocolVersion, Value, ValueView};
use crate::global_state::{apply_effects, blake2b_256, blake2b_digest, state_digest};
use crate::key::AccessRights;
use crate::uint::U512;
use crate::validator::{pos_validator_to_tuple, validator_bond_parse, PublicKey};
use vstd::utf8::encode_utf8;
use crate::deploy::ExecutionResult;
use crate::global_state::lookup;

verus! {

/// The version a request stands for: `1.0.0` where it names an older one.
pub open spec fn effective_version(v: ProtocolVersion) -> ProtocolVersion {
    if v.spec_lt(ProtocolVersion { major: 1, minor: 0, patch: 0 }) {
        ProtocolVersion { major: 1, minor: 0, patch: 0 }
    } else {
        v
    }
}

pub fn effective_protocol_version(v: ProtocolVersion) -> (r: ProtocolVersion)
    ensures
        r == effective_version(v),
{
    let default = ProtocolVersion::v1_0_0();
    if v.lt(&default) {
        default
    } else {
        v
    }
}

/// A 32-byte digest from bytes of exactly that length.
pub fn digest_from_bytes(b: &Vec<u8>) -> (r: Option<[u8; 32]>)
    ensures
        match r {
            Some(d) => b@.len() == 32 && d@ == b@,
            None => b@.len() != 32,
        },
{
    if b.len() != 32 {
        return None;
    }
    let mut d: [u8; 32] = [0u8; 32];
    let mut i: usize = 0;
    while i < 32
        invariant
            i <= 32,
            b@.len() == 32,
            forall|j: int| 0 <= j < i ==> d@[j] == b@[j],
        decreases 32 - i,
    {
        d[i] = b[i];
        i += 1;
    }
    assert(d@ =~= b@);
    Some(d)
}

fn digest_to_vec(d: &[u8; 32]) -> (r: Vec<u8>)
    ensures
        r@ == d@,
{
    let mut r: Vec<u8> = Vec::new();
    push_all(&mut r, d.as_slice());
    assert(r@ =~= d@);
    r
}

/// One effect as a commit request carries it: the key's wire form and the
/// transform's message.
#[derive(Debug)]
pub struct EffectEntry {
    pub key: Vec<u8>,
    pub transform: TransformMessage,
}

pub struct CommitRequest {
    pub protocol_version: ProtocolVersion,
    pub prestate_hash: Vec<u8>,
    pub effects: Vec<EffectEntry>,
}

/// Why a commit request could not be read.
#[derive(Debug, Clone, Copy, PartialEq, Eq, Structural)]
pub enum CommitParseError {
    InvalidPrestateHash,
    InvalidKey,
    InvalidTransform(ParsingError),
}

#[derive(Debug)]
pub enum CommitResponse {
    Success { post_state_hash: Vec<u8>, bonded_validators: Vec<(PublicKey, U512)> },
    MissingPrestate { hash: Vec<u8> },
    KeyNotFound(Key),
    TypeMismatch(TransformError),
    FailedTransform(CommitParseError),
}

pub open spec fn entries_msg_view(s: Seq<EffectEntry>) -> Seq<(Seq<u8>, Option<TransformInstanceView>)> {
    s.map_values(|e: EffectEntry| (e.key@, e.transform@))
}

/// The effects that entries spell; the first entry that spells none decides
/// the error.
pub open spec fn parse_effects(s: Seq<(Seq<u8>, Option<TransformInstanceView>)>) -> Result<
    Seq<(Key, TransformView)>,
    CommitParseError,
>
    decreases s.len(),
{
    if s.len() == 0 {
        Ok(Seq::empty())
    } else {
        match parse_effects(s.drop_last()) {
            Err(e) => Err(e),
            Ok(prev) => match key_from_bytes(s.last().0) {
                None => Err(CommitParseError::InvalidKey),
                Some(k) => match transform_of(s.last().1) {
                    Err(e) => Err(CommitParseError::InvalidTransform(e)),
                    Ok(t) => Ok(prev.push((k, t))),
                },
            },
        }
    }
}

fn parse_effect_entries(entries: Vec<EffectEntry>) -> (r: Result<Vec<(Key, Transform)>, CommitParseError>)
    ensures
        match parse_effects(entries_msg_view(entries@)) {
            Ok(ev) => r is Ok && effects_view(r->Ok_0@) == ev,
            Err(e) => r == Err::<Vec<(Key, Transform)>, CommitParseError>(e),
        },
{
    let ghost sv = entries_msg_view(entries@);
    let mut out: Vec<(Key, Transform)> = Vec::new();
    let mut rest = entries;
    let ghost n = sv.len();
    let ghost mut i: int = 0;
    assert(sv.take(0) =~= Seq::<(Seq<u8>, Option<TransformInstanceView>)>::empty());
    assert(entries_msg_view(rest@) =~= sv.skip(0));
    assert(effects_view(out@) =~= Seq::<(Key, TransformView)>::empty());
    while rest.len() > 0
        invariant
            0 <= i <= n,
            n == sv.len(),
            sv == entries_msg_view(entries@),
            entries_msg_view(rest@) == sv.skip(i),
            parse_effects(sv.take(i)) == Ok::<Seq<(Key, TransformView)>, CommitParseError>(
                effects_view(out@),
            ),
        decreases rest@.len(),
    {
        let ghost old_rest = rest@;
        let e = rest.remove(0);
        proof {
            assert(entries_msg_view(old_rest).len() == n - i);
            assert(entries_msg_view(old_rest)[0] == (e.key@, e.transform@));
            assert(sv.skip(i)[0] == sv[i]);
            assert(rest@ =~= old_rest.subrange(1, old_rest.len() as int));
            assert(entries_msg_view(rest@) =~= entries_msg_view(old_rest).subrange(
                1,
                old_rest.len() as int,
            ));
            assert(entries_msg_view(rest@) =~= sv.skip(i + 1));
            assert(sv.take(i + 1).drop_last() =~= sv.take(i));
            assert(sv.take(i + 1).last() == sv[i]);
        }
        let k = match Key::from_bytes(e.key.as_slice()) {
            None => {
                proof {
                    lemma_parse_err_prefix(sv, i + 1, CommitParseError::InvalidKey);
                }
                return Err(CommitParseError::InvalidKey);
            },
            Some(k) => k,
        };
        let t = match Transform::try_from_message(e.transform) {
            Err(pe) => {
                proof {
                    lemma_parse_err_prefix(sv, i + 1, CommitParseError::InvalidTransform(pe));
                }
                return Err(CommitParseError::InvalidTransform(pe));
            },
            Ok(t) => t,
        };
        let ghost before = out@;
        out.push((k, t));
        proof {
            assert(effects_view(out@) =~= effects_view(before).push((k, t@)));
            i = i + 1;
        }
    }
    assert(sv.take(i) =~= sv);
    Ok(out)
}

proof fn lemma_parse_err_prefix(
    s: Seq<(Seq<u8>, Option<TransformInstanceView>)>,
    m: int,
    x: CommitParseError,
)
    requires
        0 <= m <= s.len(),
        parse_effects(s.take(m)) == Err::<Seq<(Key, TransformView)>, CommitParseError>(x),
    ensures
        parse_effects(s) == Err::<Seq<(Key, TransformView)>, CommitParseError>(x),
    decreases s.len(),
{
    if m == s.len() {
        assert(s.take(m) =~= s);
    } else {
        assert(s.drop_last().take(m) =~= s.take(m));
        lemma_parse_err_prefix(s.drop_last(), m, x);
    }
}

/// What a commit request answers, given the store it meets.
pub open spec fn commit_response_matches(
    v: StoreView,
    hash: Seq<u8>,
    msgs: Seq<(Seq<u8>, Option<TransformInstanceView>)>,
    r: CommitResponse,
) -> bool {
    if hash.len() != 32 {
        r == CommitResponse::FailedTransform(CommitParseError::InvalidPrestateHash)
    } else {
        match parse_effects(msgs) {
            Err(e) => r == CommitResponse::FailedTransform(e),
            Ok(ev) => match commit_outcome(v, hash, ev) {
                Ok(post) => r matches CommitResponse::Success { post_state_hash, .. }
                    && post_state_hash@ == post,
                Err(None) => r matches CommitResponse::MissingPrestate { hash: h } && h@ == hash,
                Err(Some(CommitError::KeyNotFound(k))) => r == CommitResponse::KeyNotFound(k),
                Err(Some(CommitError::TypeMismatch(e))) => r == CommitResponse::TypeMismatch(e),
            },
        }
    }
}

/// The store after a commit request: changed only by a commit that succeeded.
pub open spec fn store_after_request(
    v: StoreView,
    hash: Seq<u8>,
    msgs: Seq<(Seq<u8>, Option<TransformInstanceView>)>,
) -> StoreView {
    if hash.len() != 32 {
        v
    } else {
        match parse_effects(msgs) {
            Err(_) => v,
            Ok(ev) => store_after(v, hash, ev),
        }
    }
}

pub struct QueryRequest {
    pub state_hash: Vec<u8>,
    pub base_key: Vec<u8>,
    pub path: Vec<String>,
}

/// Why a query found no value.
#[derive(Debug, Clone, Copy, PartialEq, Eq, Structural)]
pub enum QueryFailure {
    InvalidStateHash,
    RootNotFound,
    InvalidKey,
    /// The walk found nothing at this step; step 0 is the base key.
    ValueNotFound(usize),
}

#[derive(Debug)]
pub enum QueryResponse {
    Success(Value),
    Failure(QueryFailure),
}

/// A store fit for the engine: every snapshot under its own digest, the
/// empty snapshot among them.
pub open spec fn engine_valid(v: StoreView) -> bool {
    roots_valid(v) && root_of(v, state_digest(Seq::empty())) == Some(Seq::<(Key, ValueView)>::empty())
}

/// Every byte of the mint contract's address.
pub const MINT_ADDR_BYTE: u8 = 1;

/// Every byte of the proof-of-stake contract's address.
pub const POS_ADDR_BYTE: u8 = 2;

/// An address whose 32 bytes are all `b`.
pub open spec fn uniform_addr(b: u8) -> Seq<u8> {
    Seq::new(32, |_i: int| b)
}

pub fn fill_addr(b: u8) -> (r: [u8; 32])
    ensures
        r@ == uniform_addr(b),
{
    let mut a: [u8; 32] = [0u8; 32];
    let mut i: usize = 0;
    while i < 32
        invariant
            i <= 32,
            forall|j: int| 0 <= j < i ==> a@[j] == b,
        decreases 32 - i,
    {
        a[i] = b;
        i += 1;
    }
    assert(a@ =~= uniform_addr(b));
    a
}

/// Tag byte that the address of an account's main purse is derived with.
pub const PURSE_TAG: u8 = 0x70;

/// Address of the main purse that genesis gives an account.
pub open spec fn purse_addr(pk: Seq<u8>) -> Seq<u8> {
    blake2b_256(seq![PURSE_TAG] + pk)
}

fn main_purse_addr(pk: &PublicKey) -> (r: [u8; 32])
    ensures
        r@ == purse_addr(pk@),
{
    let mut b: Vec<u8> = vec![PURSE_TAG];
    let a = pk.value();
    push_all(&mut b, a.as_slice());
    assert(b@ =~= seq![PURSE_TAG] + pk@);
    blake2b_digest(b.as_slice())
}

pub open spec fn all_writes(e: Seq<(Key, TransformView)>) -> bool {
    forall|i: int| 0 <= i < e.len() ==> (#[trigger] e[i]).1 is Write
}

/// Writes alone never fail to commit.
pub proof fn lemma_writes_commit(s: Seq<(Key, ValueView)>, e: Seq<(Key, TransformView)>)
    requires
        all_writes(e),
    ensures
        apply_effects(s, e) is Ok,
    decreases e.len(),
{
    if e.len() > 0 {
        assert(e.drop_last().len() == e.len() - 1);
        assert forall|i: int| 0 <= i < e.drop_last().len() implies (#[trigger] e.drop_last()[i]).1 is Write by {
            assert(e.drop_last()[i] == e[i]);
        }
        lemma_writes_commit(s, e.drop_last());
        assert(e[e.len() - 1].1 is Write);
    }
}

/// An account that genesis creates, with its opening balance.
pub struct GenesisAccount {
    pub public_key: PublicKey,
    pub balance: U512,
}

pub struct GenesisConfig {
    pub accounts: Vec<GenesisAccount>,
    pub wasm_costs: WasmCosts,
    /// Validators bonded from the start, with their bonds.
    pub initial_bonds: Vec<(PublicKey, U512)>,
    pub mint_code: Vec<u8>,
    pub pos_code: Vec<u8>,
    pub protocol_version: ProtocolVersion,
}

#[derive(Debug)]
pub enum GenesisResponse {
    Success { post_state_hash: Vec<u8>, effects: Vec<(Key, Transform)> },
}

/// The effects genesis writes for one account: the account, then its purse
/// with the opening balance.
pub open spec fn account_effects(pk: Seq<u8>, balance: nat, e: Seq<(Key, TransformView)>) -> bool {
    &&& e.len() == 2
    &&& match e[0].0 {
        Key::Account(a) => a@ == pk,
        _ => false,
    }
    &&& match e[0].1 {
        TransformView::Write(ValueView::Account(p, m, purse)) => {
            &&& p == pk
            &&& m.len() == 0
            &&& purse == e[1].0
        },
        _ => false,
    }
    &&& match e[1].0 {
        Key::URef(addr, rights) => addr@ == purse_addr(pk) && rights.read && rights.write
            && rights.add,
        _ => false,
    }
    &&& e[1].1 == TransformView::Write(ValueView::UInt512(balance))
}

pub(crate) fn copy_effects(e: &Vec<(Key, Transform)>) -> (r: Vec<(Key, Transform)>)
    ensures
        effects_view(r@) == effects_view(e@),
{
    let mut r: Vec<(Key, Transform)> = Vec::new();
    let mut i: usize = 0;
    while i < e.len()
        invariant
            i <= e@.len(),
            effects_view(r@) == effects_view(e@).take(i as int),
        decreases e@.len() - i,
    {
        let t = e[i].1.duplicate();
        let ghost before = r@;
        r.push((e[i].0, t));
        assert(effects_view(r@) =~= effects_view(before).push((e@[i as int].0, e@[i as int].1@)));
        i += 1;
        assert(effects_view(r@) =~= effects_view(e@).take(i as int));
    }
    assert(effects_view(e@).take(e@.len() as int) =~= effects_view(e@));
    r
}

/// The named keys under which the proof-of-stake contract lists bonds: each
/// validator's label, bound to the validator's account.
pub open spec fn bond_keys(b: Seq<(PublicKey, U512)>) -> Seq<(Seq<char>, Key)> {
    b.map_values(
        |p: (PublicKey, U512)|
            (
                crate::text::ascii_text(crate::validator::validator_key_bytes(p.0@, p.1@)),
                Key::Account(p.0.spec_value()),
            ),
    )
}

/// The bonds listed at genesis read back, in order, as the bonded validators.
pub proof fn lemma_bond_keys_round_trip(b: Seq<(PublicKey, U512)>)
    ensures
        bonds_of(bond_keys(b)) == bonds_view(b),
    decreases b.len(),
{
    if b.len() > 0 {
        let last = b.last();
        lemma_bond_keys_round_trip(b.drop_last());
        assert(bond_keys(b).drop_last() =~= bond_keys(b.drop_last()));
        assert(bonds_view(b).drop_last() =~= bonds_view(b.drop_last()));
        last.0.lemma_len();
        last.1.lemma_bound();
        crate::validator::lemma_validator_label_round_trip(last.0@, last.1@);
        assert(bond_keys(b).last().0 == crate::text::ascii_text(
            crate::validator::validator_key_bytes(last.0@, last.1@),
        ));
        assert(bonds_view(b) =~= bonds_view(b.drop_last()).push((last.0@, last.1@)));
    } else {
        assert(bonds_view(b) =~= Seq::<(Seq<u8>, nat)>::empty());
    }
}

fn bond_named_keys(b: &Vec<(PublicKey, U512)>) -> (r: Vec<NamedKey>)
    ensures
        named_keys_view(r@) == bond_keys(b@),
{
    let mut r: Vec<NamedKey> = Vec::new();
    let mut i: usize = 0;
    while i < b.len()
        invariant
            i <= b@.len(),
            named_keys_view(r@) == bond_keys(b@).take(i as int),
        decreases b@.len() - i,
    {
        let (pk, bond) = &b[i];
        let name = crate::validator::pos_validator_key(*pk, bond.copied());
        let ghost before = r@;
        r.push(NamedKey { name, key: Key::Account(pk.value()) });
        assert(named_keys_view(r@) =~= named_keys_view(before).push(bond_keys(b@)[i as int]));
        i += 1;
        assert(named_keys_view(r@) =~= bond_keys(b@).take(i as int));
    }
    assert(bond_keys(b@).take(b@.len() as int) =~= bond_keys(b@));
    r
}

/// The bonds that validator labels among named keys spell, in order; names
/// that are no validator label are skipped.
pub open spec fn bonds_of(m: Seq<(Seq<char>, Key)>) -> Seq<(Seq<u8>, nat)>
    decreases m.len(),
{
    if m.len() == 0 {
        Seq::empty()
    } else {
        match validator_bond_parse(encode_utf8(m.last().0)) {
            Some(p) => bonds_of(m.drop_last()).push(p),
            None => bonds_of(m.drop_last()),
        }
    }
}

pub open spec fn bonds_view(b: Seq<(PublicKey, U512)>) -> Seq<(Seq<u8>, nat)> {
    b.map_values(|p: (PublicKey, U512)| (p.0@, p.1@))
}

/// The key of the proof-of-stake contract.
pub open spec fn pos_key() -> Key {
    Key::Hash(choose|a: [u8; 32]| (#[trigger] a@) == uniform_addr(POS_ADDR_BYTE))
}

/// The validators bonded in the snapshot under `d`: those that the
/// proof-of-stake contract's named keys list.
pub open spec fn validators_at(v: StoreView, d: Seq<u8>) -> Seq<(Seq<u8>, nat)> {
    match root_of(v, d) {
        Some(s) => match lookup(s, pos_key()) {
            Some(ValueView::Contract(_, m, _)) => bonds_of(m),
            _ => Seq::empty(),
        },
        None => Seq::empty(),
    }
}

fn pos_contract_key() -> (r: Key)
    ensures
        r == pos_key(),
{
    let a = fill_addr(POS_ADDR_BYTE);
    proof {
        broadcast use vstd::array::axiom_array_ext_equal;

        let c = choose|x: [u8; 32]| (#[trigger] x@) == uniform_addr(POS_ADDR_BYTE);
        assert(c@ == uniform_addr(POS_ADDR_BYTE));
        assert(c =~= a);
    }
    Key::Hash(a)
}

/// The bonds that validator labels among named keys spell.
pub fn bonds_in(m: &Vec<NamedKey>) -> (r: Vec<(PublicKey, U512)>)
    ensures
        bonds_view(r@) == bonds_of(named_keys_view(m@)),
{
    let ghost nv = named_keys_view(m@);
    let mut r: Vec<(PublicKey, U512)> = Vec::new();
    let mut i: usize = 0;
    assert(nv.take(0) =~= Seq::<(Seq<char>, Key)>::empty());
    assert(bonds_view(r@) =~= Seq::<(Seq<u8>, nat)>::empty());
    while i < m.len()
        invariant
            i <= m@.len(),
            nv == named_keys_view(m@),
            bonds_view(r@) == bonds_of(nv.take(i as int)),
        decreases m@.len() - i,
    {
        let name = m[i].name.as_str();
        assert(nv.take(i + 1).drop_last() =~= nv.take(i as int));
        assert(nv.take(i + 1).last().0 == name@);
        match pos_validator_to_tuple(name) {
            Some(p) => {
                let ghost before = r@;
                r.push(p);
                assert(bonds_view(r@) =~= bonds_view(before).push((p.0@, p.1@)));
            },
            None => {},
        }
        i += 1;
    }
    assert(nv.take(m@.len() as int) =~= nv);
    r
}

/// The engine: a global state and the operations the service offers on it.
pub struct EngineState {
    state: GlobalState,
    costs: Vec<(ProtocolVersion, WasmCosts)>,
}

/// Gas prices of guest operations under one protocol version, handed to the
/// preprocessor that instruments guest modules.
#[derive(Debug, Clone, Copy, PartialEq, Eq, Structural)]
pub struct WasmCosts {
    pub regular: u32,
    pub div: u32,
    pub mul: u32,
    pub mem: u32,
    pub initial_mem: u32,
    pub grow_mem: u32,
    pub memcpy: u32,
    pub max_stack_height: u32,
    pub opcodes_mul: u32,
    pub opcodes_div: u32,
}

/// The costs registered last for a protocol version.
pub open spec fn costs_for(c: Seq<(ProtocolVersion, WasmCosts)>, v: ProtocolVersion) -> Option<WasmCosts>
    decreases c.len(),
{
    if c.len() == 0 {
        None
    } else if c.last().0 == v {
        Some(c.last().1)
    } else {
        costs_for(c.drop_last(), v)
    }
}

impl View for EngineState {
    type V = StoreView;

    closed spec fn view(&self) -> StoreView {
        self.state@
    }
}

impl EngineState {
    /// The wasm costs registered so far, by protocol version, oldest first.
    pub closed spec fn costs(&self) -> Seq<(ProtocolVersion, WasmCosts)> {
        self.costs@
    }

    /// The wasm costs that deploys under a protocol version are charged by.
    pub fn wasm_costs(&self, v: ProtocolVersion) -> (r: Option<WasmCosts>)
        ensures
            r == costs_for(self.costs(), v),
    {
        let mut i: usize = self.costs.len();
        assert(self.costs@.take(i as int) =~= self.costs@);
        while i > 0
            invariant
                i <= self.costs@.len(),
                costs_for(self.costs@, v) == costs_for(self.costs@.take(i as int), v),
            decreases i,
        {
            assert(self.costs@.take(i as int).drop_last() =~= self.costs@.take(i - 1));
            if self.costs[i - 1].0 == v {
                return Some(self.costs[i - 1].1);
            }
            i -= 1;
        }
        None
    }

    /// An engine over a store that holds the empty snapshot alone.
    pub fn new() -> (r: EngineState)
        ensures
            engine_valid(r@),
            r.costs().len() == 0,
    {
        let state = GlobalState::new();
        proof {
            let v = state@;
            assert(crate::global_state::has_digest(crate::global_state::state_digest(Seq::empty()))(v[0]));
        }
        let costs: Vec<(ProtocolVersion, WasmCosts)> = Vec::new();
        EngineState { state, costs }
    }

    /// The validators bonded in the snapshot under `d`.
    #[verifier::rlimit(40)]
    pub fn bonded_validators(&self, d: &[u8; 32]) -> (r: Vec<(PublicKey, U512)>)
        ensures
            bonds_view(r@) == validators_at(self@, d@),
    {
        let k = pos_contract_key();
        match self.state.read(d, &k) {
            Some(Value::Contract(c)) => bonds_in(&c.named_keys),
            _ => {
                let r: Vec<(PublicKey, U512)> = Vec::new();
                assert(bonds_view(r@) =~= Seq::<(Seq<u8>, nat)>::empty());
                r
            },
        }
    }

    /// Applies the request's effects to the snapshot it names.
    pub fn commit(&mut self, request: CommitRequest) -> (r: CommitResponse)
        requires
            engine_valid(old(self)@),
        ensures
            engine_valid(final(self)@),
            commit_response_matches(
                old(self)@,
                request.prestate_hash@,
                entries_msg_view(request.effects@),
                r,
            ),
            final(self)@ == store_after_request(
                old(self)@,
                request.prestate_hash@,
                entries_msg_view(request.effects@),
            ),
            final(self).costs() == old(self).costs(),
            r matches CommitResponse::Success { post_state_hash, bonded_validators } ==> bonds_view(
                bonded_validators@,
            ) == validators_at(final(self)@, post_state_hash@),
    {
        let pre = match digest_from_bytes(&request.prestate_hash) {
            None => {
                return CommitResponse::FailedTransform(CommitParseError::InvalidPrestateHash);
            },
            Some(d) => d,
        };
        let effects = match parse_effect_entries(request.effects) {
            Err(e) => {
                return CommitResponse::FailedTransform(e);
            },
            Ok(effects) => effects,
        };
        let ghost v0 = self@;
        let ghost ev = effects_view(effects@);
        let r = self.state.commit(&pre, effects);
        proof {
            lemma_store_after_valid(v0, pre@, ev);
        }
        match r {
            CommitResult::Success { post_state_hash } => {
                let bonded_validators = self.bonded_validators(&post_state_hash);
                CommitResponse::Success {
                    post_state_hash: digest_to_vec(&post_state_hash),
                    bonded_validators,
                }
            },
            CommitResult::RootNotFound => CommitResponse::MissingPrestate {
                hash: digest_to_vec(&pre),
            },
            CommitResult::KeyNotFound(k) => CommitResponse::KeyNotFound(k),
            CommitResult::TypeMismatch(e) => CommitResponse::TypeMismatch(e),
        }
    }

    /// Resolves the request's path from its base key in the snapshot it names.
    pub fn query(&self, request: &QueryRequest) -> (r: QueryResponse)
        ensures
            request.state_hash@.len() != 32 ==> r == QueryResponse::Failure(
                QueryFailure::InvalidStateHash,
            ),
            request.state_hash@.len() == 32 ==> match root_of(self@, request.state_hash@) {
                None => r == QueryResponse::Failure(QueryFailure::RootNotFound),
                Some(s) => match key_from_bytes(request.base_key@) {
                    None => r == QueryResponse::Failure(QueryFailure::InvalidKey),
                    Some(k) => match r {
                        QueryResponse::Success(v) => walk_answer(
                            s,
                            k,
                            path_view(request.path@),
                            QueryResult::Success(v),
                        ),
                        QueryResponse::Failure(QueryFailure::ValueNotFound(i)) => walk_answer(
                            s,
                            k,
                            path_view(request.path@),
                            QueryResult::ValueNotFound(i),
                        ),
                        _ => false,
                    },
                },
            },
    {
        let d = match digest_from_bytes(&request.state_hash) {
            None => {
                return QueryResponse::Failure(QueryFailure::InvalidStateHash);
            },
            Some(d) => d,
        };
        if !self.state.has_root(&d) {
            return QueryResponse::Failure(QueryFailure::RootNotFound);
        }
        let key = match Key::from_bytes(request.base_key.as_slice()) {
            None => {
                return QueryResponse::Failure(QueryFailure::InvalidKey);
            },
            Some(k) => k,
        };
        match self.state.query(&d, &key, &request.path) {
            QueryResult::Success(v) => QueryResponse::Success(v),
            QueryResult::ValueNotFound(i) => QueryResponse::Failure(QueryFailure::ValueNotFound(i)),
            QueryResult::RootNotFound => QueryResponse::Failure(QueryFailure::RootNotFound),
        }
    }
}


proof fn lemma_store_after_valid(v: StoreView, d: Seq<u8>, e: Seq<(Key, TransformView)>)
    requires
        engine_valid(v),
        roots_valid(store_after(v, d, e)),
    ensures
        engine_valid(store_after(v, d, e)),
{
    match root_of(v, d) {
        None => {},
        Some(s) => match apply_effects(s, e) {
            Ok(post) => {
                if !crate::global_state::any_match(v, crate::global_state::has_digest(state_digest(post))) {
                    crate::global_state::lemma_root_persists(
                        v,
                        (state_digest(post), post),
                        state_digest(Seq::empty()),
                    );
                }
            },
            Err(_) => {},
        },
    }
}

/// What genesis writes, in order, for a configuration.
pub open spec fn genesis_effects_ok(config: &GenesisConfig, ev: Seq<(Key, TransformView)>) -> bool {
    &&& all_writes(ev)
    &&& ev.len() == 2 + 2 * config.accounts@.len()
    &&& system_effects_ok(config, ev)
    &&& forall|i: int|
        0 <= i < config.accounts@.len() ==> account_effects(
            #[trigger] config.accounts@[i].public_key@,
            config.accounts@[i].balance@,
            ev.subrange(2 + 2 * i, 4 + 2 * i),
        )
}

/// The mint and proof-of-stake contracts come first.
pub open spec fn system_effects_ok(config: &GenesisConfig, ev: Seq<(Key, TransformView)>) -> bool {
    &&& ev.len() >= 2
    &&& ev[0].0 matches Key::Hash(a) && a@ == uniform_addr(MINT_ADDR_BYTE)
    &&& ev[0].1 == TransformView::Write(
        ValueView::Contract(config.mint_code@, Seq::empty(), config.protocol_version),
    )
    &&& ev[1].0 matches Key::Hash(a) && a@ == uniform_addr(POS_ADDR_BYTE)
    &&& ev[1].1 == TransformView::Write(
        ValueView::Contract(config.pos_code@, bond_keys(config.initial_bonds@), config.protocol_version),
    )
}

fn push_account_effects(effects: &mut Vec<(Key, Transform)>, a: GenesisAccount)
    ensures
        ({
            let before = effects_view(old(effects)@);
            let ev = effects_view(final(effects)@);
            &&& ev.len() == before.len() + 2
            &&& ev.subrange(0, before.len() as int) == before
            &&& account_effects(a.public_key@, a.balance@, ev.subrange(before.len() as int, ev.len() as int))
            &&& ev[before.len() as int].1 is Write
            &&& ev[before.len() as int + 1].1 is Write
        }),
{
    let ghost before = effects_view(effects@);
    let ghost pkv = a.public_key@;
    let ghost bal = a.balance@;
    let purse = main_purse_addr(&a.public_key);
    let pk = a.public_key.value();
    let purse_key = Key::URef(purse, AccessRights::read_add_write());
    effects.push(
        (
            Key::Account(pk),
            Transform::Write(
                Value::Account(
                    Account { public_key: a.public_key, named_keys: Vec::new(), main_purse: purse_key },
                ),
            ),
        ),
    );
    effects.push((purse_key, Transform::Write(Value::UInt512(a.balance))));
    proof {
        let ev = effects_view(effects@);
        assert(ev.subrange(0, before.len() as int) =~= before);
        let sub = ev.subrange(before.len() as int, ev.len() as int);
        assert(sub[0] == ev[before.len() as int]);
        assert(sub[1] == ev[before.len() as int + 1]);
    }
}

fn genesis_effects(config: GenesisConfig) -> (r: Vec<(Key, Transform)>)
    ensures
        genesis_effects_ok(&config, effects_view(r@)),
{
    let mut effects: Vec<(Key, Transform)> = Vec::new();
    let pv = config.protocol_version;
    let ghost cfg = config;
    let mint_addr = fill_addr(MINT_ADDR_BYTE);
    let pos_addr = fill_addr(POS_ADDR_BYTE);
    let mint_keys: Vec<NamedKey> = Vec::new();
    let pos_keys: Vec<NamedKey> = bond_named_keys(&config.initial_bonds);
    assert(named_keys_view(mint_keys@) =~= Seq::<(Seq<char>, Key)>::empty());
    effects.push(
        (
            Key::Hash(mint_addr),
            Transform::Write(
                Value::Contract(
                    Contract { bytes: config.mint_code, named_keys: mint_keys, protocol_version: pv },
                ),
            ),
        ),
    );
    effects.push(
        (
            Key::Hash(pos_addr),
            Transform::Write(
                Value::Contract(
                    Contract { bytes: config.pos_code, named_keys: pos_keys, protocol_version: pv },
                ),
            ),
        ),
    );
    let ghost head = effects_view(effects@);
    let ghost accts = config.accounts@;
    let mut accounts = config.accounts;
    let total = accounts.len();
    let mut i: usize = 0;
    assert(accounts@ =~= accts.skip(0));
    assert(system_effects_ok(&cfg, effects_view(effects@)));
    while accounts.len() > 0
        invariant
            accts.len() == total,
            i + accounts@.len() == accts.len(),
            accounts@ == accts.skip(i as int),
            effects_view(effects@).len() == 2 + 2 * i,
            system_effects_ok(&cfg, effects_view(effects@)),
            all_writes(effects_view(effects@)),
            forall|j: int|
                0 <= j < i ==> account_effects(
                    #[trigger] accts[j].public_key@,
                    accts[j].balance@,
                    effects_view(effects@).subrange(2 + 2 * j, 4 + 2 * j),
                ),
        decreases accounts@.len(),
    {
        let ghost old_acc = accounts@;
        let ghost before = effects_view(effects@);
        let a = accounts.remove(0);
        assert(old_acc[0] == accts[i as int]);
        assert(accounts@ =~= accts.skip(i + 1));
        push_account_effects(&mut effects, a);
        proof {
            let ev = effects_view(effects@);
            assert(ev[0] == ev.subrange(0, before.len() as int)[0]);
            assert(ev[1] == ev.subrange(0, before.len() as int)[1]);
            assert forall|j: int| 0 <= j < i + 1 implies account_effects(
                #[trigger] accts[j].public_key@,
                accts[j].balance@,
                ev.subrange(2 + 2 * j, 4 + 2 * j),
            ) by {
                if j < i {
                    assert(ev.subrange(2 + 2 * j, 4 + 2 * j) =~= before.subrange(2 + 2 * j, 4 + 2 * j));
                }
            }
            assert forall|k: int| 0 <= k < ev.len() implies (#[trigger] ev[k]).1 is Write by {
                if k < before.len() {
                    assert(ev[k] == ev.subrange(0, before.len() as int)[k]);
                }
            }
        }
        i += 1;
    }
    assert(accts == cfg.accounts@);
    effects
}

impl EngineState {
    /// Builds the first state: the mint and proof-of-stake contracts at their
    /// known addresses, then each account with a main purse that holds its
    /// opening balance; commits it against the empty snapshot.
    pub fn run_genesis(&mut self, config: GenesisConfig) -> (r: GenesisResponse)
        requires
            engine_valid(old(self)@),
        ensures
            engine_valid(final(self)@),
            final(self).costs() == old(self).costs().push((config.protocol_version, config.wasm_costs)),
            match r {
                GenesisResponse::Success { post_state_hash, effects } => {
                    let ev = effects_view(effects@);
                    &&& genesis_effects_ok(&config, ev)
                    &&& apply_effects(Seq::empty(), ev) is Ok
                    &&& post_state_hash@ == state_digest(apply_effects(Seq::empty(), ev)->Ok_0)
                    &&& final(self)@ == store_after(old(self)@, state_digest(Seq::empty()), ev)
                },
            },
    {
        let ghost cfg = config;
        self.costs.push((config.protocol_version, config.wasm_costs));
        let effects = genesis_effects(config);
        let ghost ev = effects_view(effects@);
        proof {
            lemma_writes_commit(Seq::empty(), ev);
        }
        let result = copy_effects(&effects);
        let empty = GlobalState::empty_state_hash();
        let ghost v0 = self@;
        let r = self.state.commit(&empty, effects);
        proof {
            lemma_store_after_valid(v0, empty@, ev);
        }
        let post = match r {
            CommitResult::Success { post_state_hash } => post_state_hash,
            _ => {
                proof {
                    assert(false);
                }
                empty
            },
        };
        GenesisResponse::Success { post_state_hash: digest_to_vec(&post), effects: result }
    }
}

/// New code for the contract stored at a key.
pub struct CodeReplacement {
    pub key: Key,
    pub bytes: Vec<u8>,
}

pub struct UpgradeConfig {
    pub pre_state_hash: Vec<u8>,
    pub current_protocol_version: ProtocolVersion,
    pub new_protocol_version: ProtocolVersion,
    pub new_wasm_costs: WasmCosts,
    pub code_replacements: Vec<CodeReplacement>,
}

#[derive(Debug, Clone, Copy)]
pub enum UpgradeFailure {
    InvalidStateHash,
    /// The new version is older than the current one.
    InvalidProtocolVersion,
    RootNotFound,
    /// The key holds no contract to replace.
    NotAContract(Key),
}

#[derive(Debug)]
pub enum UpgradeResponse {
    Success { post_state_hash: Vec<u8>, effects: Vec<(Key, Transform)> },
    Failure(UpgradeFailure),
}

pub open spec fn replacements_view(s: Seq<CodeReplacement>) -> Seq<(Key, Seq<u8>)> {
    s.map_values(|c: CodeReplacement| (c.key, c.bytes@))
}

/// The writes an upgrade makes: each named contract with its new code and the
/// new version, its named keys kept; the first key that holds no contract
/// decides the failure.
pub open spec fn upgrade_effects(
    s: Seq<(Key, ValueView)>,
    reps: Seq<(Key, Seq<u8>)>,
    pv: ProtocolVersion,
) -> Result<Seq<(Key, TransformView)>, Key>
    decreases reps.len(),
{
    if reps.len() == 0 {
        Ok(Seq::empty())
    } else {
        match upgrade_effects(s, reps.drop_last(), pv) {
            Err(k) => Err(k),
            Ok(prev) => {
                let (k, code) = reps.last();
                match lookup(s, k) {
                    Some(ValueView::Contract(_, m, _)) => Ok(
                        prev.push((k, TransformView::Write(ValueView::Contract(code, m, pv)))),
                    ),
                    _ => Err(k),
                }
            },
        }
    }
}

proof fn lemma_upgrade_err_prefix(
    s: Seq<(Key, ValueView)>,
    reps: Seq<(Key, Seq<u8>)>,
    pv: ProtocolVersion,
    m: int,
    k: Key,
)
    requires
        0 <= m <= reps.len(),
        upgrade_effects(s, reps.take(m), pv) == Err::<Seq<(Key, TransformView)>, Key>(k),
    ensures
        upgrade_effects(s, reps, pv) == Err::<Seq<(Key, TransformView)>, Key>(k),
    decreases reps.len(),
{
    if m == reps.len() {
        assert(reps.take(m) =~= reps);
    } else {
        assert(reps.drop_last().take(m) =~= reps.take(m));
        lemma_upgrade_err_prefix(s, reps.drop_last(), pv, m, k);
    }
}

proof fn lemma_upgrade_writes(s: Seq<(Key, ValueView)>, reps: Seq<(Key, Seq<u8>)>, pv: ProtocolVersion)
    requires
        upgrade_effects(s, reps, pv) is Ok,
    ensures
        all_writes(upgrade_effects(s, reps, pv)->Ok_0),
    decreases reps.len(),
{
    if reps.len() > 0 {
        lemma_upgrade_writes(s, reps.drop_last(), pv);
    }
}

#[derive(Debug)]
pub enum ExecuteResponse {
    MissingParent { hash: Vec<u8> },
    Success { deploy_results: Vec<ExecutionResult> },
}

impl EngineState {
    fn replacement_effect(&self, d: &[u8; 32], c: CodeReplacement, pv: ProtocolVersion) -> (r: Result<(Key, Transform), Key>)
        requires
            root_of(self@, d@) is Some,
        ensures
            match lookup(root_of(self@, d@)->0, c.key) {
                Some(ValueView::Contract(_, m, _)) => r is Ok && r->Ok_0.0 == c.key && r->Ok_0.1@
                    == TransformView::Write(ValueView::Contract(c.bytes@, m, pv)),
                _ => r == Err::<(Key, Transform), Key>(c.key),
            },
    {
        match self.state.read(d, &c.key) {
            Some(Value::Contract(old)) => {
                let w = Value::Contract(
                    Contract { bytes: c.bytes, named_keys: old.named_keys, protocol_version: pv },
                );
                Ok((c.key, Transform::Write(w)))
            },
            _ => Err(c.key),
        }
    }

    fn build_upgrade_effects(&self, d: &[u8; 32], reps: Vec<CodeReplacement>, pv: ProtocolVersion) -> (r: Result<Vec<(Key, Transform)>, Key>)
        requires
            root_of(self@, d@) is Some,
        ensures
            match upgrade_effects(root_of(self@, d@)->0, replacements_view(reps@), pv) {
                Ok(ev) => r is Ok && effects_view(r->Ok_0@) == ev,
                Err(k) => r == Err::<Vec<(Key, Transform)>, Key>(k),
            },
    {
        let ghost s = root_of(self@, d@)->0;
        let ghost rv = replacements_view(reps@);
        let mut out: Vec<(Key, Transform)> = Vec::new();
        let mut rest = reps;
        let ghost n = rv.len();
        let ghost mut i: int = 0;
        assert(rv.take(0) =~= Seq::<(Key, Seq<u8>)>::empty());
        assert(replacements_view(rest@) =~= rv.skip(0));
        assert(effects_view(out@) =~= Seq::<(Key, TransformView)>::empty());
        while rest.len() > 0
            invariant
                0 <= i <= n,
                n == rv.len(),
                root_of(self@, d@) == Some(s),
                rv == replacements_view(reps@),
                replacements_view(rest@) == rv.skip(i),
                upgrade_effects(s, rv.take(i), pv) == Ok::<Seq<(Key, TransformView)>, Key>(
                    effects_view(out@),
                ),
            decreases rest@.len(),
        {
            let ghost old_rest = rest@;
            let c = rest.remove(0);
            proof {
                assert(replacements_view(old_rest).len() == n - i);
                assert(replacements_view(old_rest)[0] == (c.key, c.bytes@));
                assert(rv.skip(i)[0] == rv[i]);
                assert(rest@ =~= old_rest.subrange(1, old_rest.len() as int));
                assert(replacements_view(rest@) =~= replacements_view(old_rest).subrange(
                    1,
                    old_rest.len() as int,
                ));
                assert(replacements_view(rest@) =~= rv.skip(i + 1));
                assert(rv.take(i + 1).drop_last() =~= rv.take(i));
                assert(rv.take(i + 1).last() == rv[i]);
            }
            let ghost ck = c.key;
            match self.replacement_effect(d, c, pv) {
                Ok(e) => {
                    let ghost before = effects_view(out@);
                    let ghost ev1 = (e.0, e.1@);
                    out.push(e);
                    proof {
                        assert(effects_view(out@) =~= before.push(ev1));
                        i = i + 1;
                    }
                },
                Err(k) => {
                    proof {
                        lemma_upgrade_err_prefix(s, rv, pv, i + 1, k);
                    }
                    return Err(k);
                },
            }
        }
        assert(rv.take(i) =~= rv);
        Ok(out)
    }

    /// Replaces the code of the named contracts, keeping their named keys, and
    /// stamps them with the new protocol version; commits the result against
    /// the pre-state. A new version older than the current one is refused.
    pub fn upgrade(&mut self, config: UpgradeConfig) -> (r: UpgradeResponse)
        requires
            engine_valid(old(self)@),
        ensures
            engine_valid(final(self)@),
            !(r is Success) ==> final(self)@ == old(self)@ && final(self).costs() == old(self).costs(),
            r is Success ==> final(self).costs() == old(self).costs().push(
                (config.new_protocol_version, config.new_wasm_costs),
            ),
            config.pre_state_hash@.len() != 32 ==> r matches UpgradeResponse::Failure(
                UpgradeFailure::InvalidStateHash,
            ),
            config.pre_state_hash@.len() == 32 && config.new_protocol_version.spec_lt(
                config.current_protocol_version,
            ) ==> r matches UpgradeResponse::Failure(UpgradeFailure::InvalidProtocolVersion),
            config.pre_state_hash@.len() == 32 && !config.new_protocol_version.spec_lt(
                config.current_protocol_version,
            ) ==> match root_of(old(self)@, config.pre_state_hash@) {
                None => r matches UpgradeResponse::Failure(UpgradeFailure::RootNotFound),
                Some(s) => match upgrade_effects(
                    s,
                    replacements_view(config.code_replacements@),
                    config.new_protocol_version,
                ) {
                    Err(k) => r matches UpgradeResponse::Failure(UpgradeFailure::NotAContract(kk))
                        && kk == k,
                    Ok(ev) => match r {
                        UpgradeResponse::Success { post_state_hash, effects } => {
                            &&& effects_view(effects@) == ev
                            &&& apply_effects(s, ev) is Ok
                            &&& post_state_hash@ == state_digest(apply_effects(s, ev)->Ok_0)
                            &&& final(self)@ == store_after(old(self)@, config.pre_state_hash@, ev)
                        },
                        _ => false,
                    },
                },
            },
    {
        let d = match digest_from_bytes(&config.pre_state_hash) {
            None => {
                return UpgradeResponse::Failure(UpgradeFailure::InvalidStateHash);
            },
            Some(d) => d,
        };
        if config.new_protocol_version.lt(&config.current_protocol_version) {
            return UpgradeResponse::Failure(UpgradeFailure::InvalidProtocolVersion);
        }
        if !self.state.has_root(&d) {
            return UpgradeResponse::Failure(UpgradeFailure::RootNotFound);
        }
        let ghost s = root_of(self@, d@)->0;
        let effects = match self.build_upgrade_effects(&d, config.code_replacements, config.new_protocol_version) {
            Err(k) => {
                return UpgradeResponse::Failure(UpgradeFailure::NotAContract(k));
            },
            Ok(e) => e,
        };
        let ghost ev = effects_view(effects@);
        proof {
            lemma_upgrade_writes(s, replacements_view(config.code_replacements@), config.new_protocol_version);
            lemma_writes_commit(s, ev);
        }
        let result = copy_effects(&effects);
        let ghost v0 = self@;
        let r = self.state.commit(&d, effects);
        proof {
            lemma_store_after_valid(v0, d@, ev);
        }
        let post = match r {
            CommitResult::Success { post_state_hash } => post_state_hash,
            _ => {
                proof {
                    assert(false);
                }
                d
            },
        };
        self.costs.push((config.new_protocol_version, config.new_wasm_costs));
        UpgradeResponse::Success { post_state_hash: digest_to_vec(&post), effects: result }
    }

    /// The answer to an execute request whose parent snapshot is not stored,
    /// given before any deploy runs; `None` where the parent is stored.
    pub fn missing_parent(&self, parent_state_hash: &Vec<u8>) -> (r: Option<ExecuteResponse>)
        ensures
            match r {
                None => parent_state_hash@.len() == 32 && root_of(self@, parent_state_hash@) is Some,
                Some(ExecuteResponse::MissingParent { hash }) => hash@ == parent_state_hash@ && !(
                parent_state_hash@.len() == 32 && root_of(self@, parent_state_hash@) is Some),
                Some(_) => false,
            },
    {
        let found = match digest_from_bytes(parent_state_hash) {
            None => false,
            Some(d) => self.state.has_root(&d),
        };
        if found {
            None
        } else {
            let mut hash: Vec<u8> = Vec::new();
            push_all(&mut hash, parent_state_hash.as_slice());
            assert(hash@ =~= parent_state_hash@);
            Some(ExecuteResponse::MissingParent { hash })
        }
    }

    /// The answer to an execute request: the results of its deploys, in order.
    pub fn execute_response(deploy_results: Vec<ExecutionResult>) -> (r: ExecuteResponse)
        ensures
            r matches ExecuteResponse::Success { deploy_results: d } && d@ == deploy_results@,
    {
        ExecuteResponse::Success { deploy_results }
    }
}

} // verus!
