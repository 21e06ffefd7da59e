//! The global state: content-addressed snapshots, each named by the digest of
//! its canonical byte form, and the commit of ordered effects against one.

use vstd::prelude::*;
use blake2::Digest;
use crate::key::{addr_eq, key_bytes, Key};
use crate::transform::{apply_view, Transform, TransformError, TransformView};
use crate::uint::u512_bound;
use crate::value::{
    le_bytes, named_keys_map, named_keys_view, push_all, push_le, value_bytes, NamedKey, Value,
    ValueView,
};

verus! {

/// The 32-byte Blake2b digest of some bytes.
pub uninterp spec fn blake2b_256(b: Seq<u8>) -> Seq<u8>;

/// Relies on `blake2::Blake2b<U32>::digest`: the Blake2b digest of the bytes,
/// with a 32-byte output.
#[verifier::external_body]
pub(crate) fn blake2b_digest(b: &[u8]) -> (r: [u8; 32])
    ensures
        r@ == blake2b_256(b@),
{
    blake2::Blake2b::<blake2::digest::consts::U32>::digest(b).into()
}

/// The index of the first element that satisfies `p`.
pub open spec fn first_match<A>(s: Seq<A>, p: spec_fn(A) -> bool) -> int {
    choose|i: int| 0 <= i < s.len() && p(s[i]) && forall|j: int| 0 <= j < i ==> !p(s[j])
}

pub open spec fn any_match<A>(s: Seq<A>, p: spec_fn(A) -> bool) -> bool {
    exists|i: int| 0 <= i < s.len() && p(s[i])
}

proof fn lemma_min_exists<A>(s: Seq<A>, p: spec_fn(A) -> bool, i: int)
    requires
        0 <= i < s.len(),
        p(s[i]),
    ensures
        exists|m: int| 0 <= m < s.len() && p(s[m]) && forall|j: int| 0 <= j < m ==> !p(s[j]),
    decreases i,
{
    if exists|j: int| 0 <= j < i && p(s[j]) {
        let j = choose|j: int| 0 <= j < i && p(s[j]);
        lemma_min_exists(s, p, j);
    } else {
        assert(0 <= i < s.len() && p(s[i]) && forall|j: int| 0 <= j < i ==> !p(s[j]));
    }
}

/// The first match is a match, and nothing before it is.
pub proof fn lemma_first_match_props<A>(s: Seq<A>, p: spec_fn(A) -> bool)
    requires
        any_match(s, p),
    ensures
        0 <= first_match(s, p) < s.len(),
        p(s[first_match(s, p)]),
        forall|j: int| 0 <= j < first_match(s, p) ==> !p(s[j]),
{
    let i = choose|i: int| 0 <= i < s.len() && p(s[i]);
    lemma_min_exists(s, p, i);
}

proof fn lemma_first_match<A>(s: Seq<A>, p: spec_fn(A) -> bool, i: int)
    requires
        0 <= i < s.len(),
        p(s[i]),
        forall|j: int| 0 <= j < i ==> !p(s[j]),
    ensures
        first_match(s, p) == i,
        any_match(s, p),
{
    lemma_first_match_props(s, p);
    let c = first_match(s, p);
    if c < i {
        assert(!p(s[c]));
    }
    if c > i {
        assert(!p(s[i]));
    }
}

/// A key bound to a value in a snapshot.
#[derive(Debug)]
pub struct Entry {
    pub key: Key,
    pub value: Value,
}

pub open spec fn entries_view(s: Seq<Entry>) -> Seq<(Key, ValueView)> {
    s.map_values(|e: Entry| (e.key, e.value@))
}

pub open spec fn is_key(k: Key) -> spec_fn((Key, ValueView)) -> bool {
    |e: (Key, ValueView)| e.0 == k
}

/// The value bound to `k` in a snapshot, if any.
pub open spec fn lookup(s: Seq<(Key, ValueView)>, k: Key) -> Option<ValueView> {
    if any_match(s, is_key(k)) {
        Some(s[first_match(s, is_key(k))].1)
    } else {
        None
    }
}

pub open spec fn state_body(s: Seq<(Key, ValueView)>) -> Seq<u8>
    decreases s.len(),
{
    if s.len() == 0 {
        Seq::empty()
    } else {
        state_body(s.drop_last()) + key_bytes(s.last().0) + value_bytes(s.last().1)
    }
}

/// The canonical byte form of a snapshot.
pub open spec fn state_bytes(s: Seq<(Key, ValueView)>) -> Seq<u8> {
    le_bytes(s.len(), 8) + state_body(s)
}

/// The digest that names a snapshot.
pub open spec fn state_digest(s: Seq<(Key, ValueView)>) -> Seq<u8> {
    blake2b_256(state_bytes(s))
}

/// Why a commit was refused.
#[derive(Debug, Clone, Copy)]
pub enum CommitError {
    /// A transform other than a write met a key that holds nothing.
    KeyNotFound(Key),
    /// A transform could not be applied to the value it met.
    TypeMismatch(TransformError),
}

/// One effect applied to a snapshot: an edit of the value present, or a
/// write of a new key.
pub open spec fn apply_effect(s: Seq<(Key, ValueView)>, k: Key, t: TransformView) -> Result<
    Seq<(Key, ValueView)>,
    CommitError,
> {
    match lookup(s, k) {
        Some(v) => match apply_view(t, v) {
            Ok(w) => Ok(s.update(first_match(s, is_key(k)), (k, w))),
            Err(e) => Err(CommitError::TypeMismatch(e)),
        },
        None => match t {
            TransformView::Write(w) => Ok(s.push((k, w))),
            _ => Err(CommitError::KeyNotFound(k)),
        },
    }
}

/// Effects applied in order; the first refusal ends the whole.
pub open spec fn apply_effects(s: Seq<(Key, ValueView)>, e: Seq<(Key, TransformView)>) -> Result<
    Seq<(Key, ValueView)>,
    CommitError,
>
    decreases e.len(),
{
    if e.len() == 0 {
        Ok(s)
    } else {
        match apply_effects(s, e.drop_last()) {
            Ok(s2) => apply_effect(s2, e.last().0, e.last().1),
            Err(x) => Err(x),
        }
    }
}

pub open spec fn effects_view(e: Seq<(Key, Transform)>) -> Seq<(Key, TransformView)> {
    e.map_values(|p: (Key, Transform)| (p.0, p.1@))
}

/// A snapshot and the digest it is stored under.
pub struct StateRoot {
    pub digest: [u8; 32],
    pub entries: Vec<Entry>,
}

/// The snapshots that the store holds, as (digest, entries).
pub type StoreView = Seq<(Seq<u8>, Seq<(Key, ValueView)>)>;

pub open spec fn has_digest(d: Seq<u8>) -> spec_fn((Seq<u8>, Seq<(Key, ValueView)>)) -> bool {
    |r: (Seq<u8>, Seq<(Key, ValueView)>)| r.0 == d
}

/// The snapshot stored under a digest, if any.
pub open spec fn root_of(v: StoreView, d: Seq<u8>) -> Option<Seq<(Key, ValueView)>> {
    if any_match(v, has_digest(d)) {
        Some(v[first_match(v, has_digest(d))].1)
    } else {
        None
    }
}

/// Every snapshot is stored under its own digest.
pub open spec fn roots_valid(v: StoreView) -> bool {
    forall|i: int| 0 <= i < v.len() ==> (#[trigger] v[i]).0 == state_digest(v[i].1)
}

/// The store after a snapshot is added: unchanged where its digest is known.
pub open spec fn store_with(v: StoreView, s: Seq<(Key, ValueView)>) -> StoreView {
    if any_match(v, has_digest(state_digest(s))) {
        v
    } else {
        v.push((state_digest(s), s))
    }
}

/// What a commit answers.
#[derive(Debug)]
pub enum CommitResult {
    Success { post_state_hash: [u8; 32] },
    RootNotFound,
    KeyNotFound(Key),
    TypeMismatch(TransformError),
}

/// What committing `e` against the snapshot under `d` answers: the digest of
/// the resulting snapshot, or why it was refused.
pub open spec fn commit_outcome(v: StoreView, d: Seq<u8>, e: Seq<(Key, TransformView)>) -> Result<
    Seq<u8>,
    Option<CommitError>,
> {
    match root_of(v, d) {
        None => Err(None),
        Some(s) => match apply_effects(s, e) {
            Ok(post) => Ok(state_digest(post)),
            Err(x) => Err(Some(x)),
        },
    }
}

/// The store after committing `e` against the snapshot under `d`.
pub open spec fn store_after(v: StoreView, d: Seq<u8>, e: Seq<(Key, TransformView)>) -> StoreView {
    match root_of(v, d) {
        None => v,
        Some(s) => match apply_effects(s, e) {
            Ok(post) => store_with(v, post),
            Err(_) => v,
        },
    }
}

pub open spec fn result_matches(r: CommitResult, o: Result<Seq<u8>, Option<CommitError>>) -> bool {
    match o {
        Ok(d) => r matches CommitResult::Success { post_state_hash } && post_state_hash@ == d,
        Err(None) => r is RootNotFound,
        Err(Some(CommitError::KeyNotFound(k))) => r == CommitResult::KeyNotFound(k),
        Err(Some(CommitError::TypeMismatch(e))) => r == CommitResult::TypeMismatch(e),
    }
}

/// The in-memory global state: every snapshot ever committed, each under the
/// digest of its content, so that earlier digests stay valid.
pub struct GlobalState {
    roots: Vec<StateRoot>,
}

pub open spec fn root_view(r: StateRoot) -> (Seq<u8>, Seq<(Key, ValueView)>) {
    (r.digest@, entries_view(r.entries@))
}

impl View for GlobalState {
    type V = StoreView;

    closed spec fn view(&self) -> StoreView {
        self.roots@.map_values(|r: StateRoot| root_view(r))
    }
}

fn find_entry(entries: &Vec<Entry>, k: &Key) -> (r: Option<usize>)
    ensures
        match r {
            Some(i) => any_match(entries_view(entries@), is_key(*k)) && i as int == first_match(
                entries_view(entries@),
                is_key(*k),
            ) && i < entries@.len(),
            None => !any_match(entries_view(entries@), is_key(*k)),
        },
{
    let ghost s = entries_view(entries@);
    let mut i: usize = 0;
    while i < entries.len()
        invariant
            i <= entries@.len(),
            s == entries_view(entries@),
            forall|j: int| 0 <= j < i ==> !is_key(*k)(s[j]),
        decreases entries@.len() - i,
    {
        if entries[i].key == *k {
            proof {
                assert(is_key(*k)(s[i as int]));
                lemma_first_match(s, is_key(*k), i as int);
            }
            return Some(i);
        }
        i += 1;
    }
    None
}

fn copy_entries(entries: &Vec<Entry>) -> (r: Vec<Entry>)
    ensures
        entries_view(r@) == entries_view(entries@),
{
    let mut r: Vec<Entry> = Vec::new();
    let mut i: usize = 0;
    while i < entries.len()
        invariant
            i <= entries@.len(),
            entries_view(r@) == entries_view(entries@).take(i as int),
        decreases entries@.len() - i,
    {
        let e = &entries[i];
        let v = e.value.duplicate();
        let ghost before = r@;
        r.push(Entry { key: e.key, value: v });
        assert(entries_view(r@) =~= entries_view(before).push((e.key, e.value@)));
        i += 1;
        assert(entries_view(r@) =~= entries_view(entries@).take(i as int));
    }
    assert(entries_view(entries@).take(entries@.len() as int) =~= entries_view(entries@));
    r
}

/// The canonical byte form of a snapshot.
fn encode_entries(entries: &Vec<Entry>) -> (r: Vec<u8>)
    ensures
        r@ == state_bytes(entries_view(entries@)),
{
    let ghost s = entries_view(entries@);
    let mut r: Vec<u8> = Vec::new();
    push_le(&mut r, entries.len() as u128, 8);
    let ghost head = r@;
    let mut i: usize = 0;
    assert(s.take(0) =~= Seq::<(Key, ValueView)>::empty());
    assert(r@ =~= head + state_body(s.take(0)));
    while i < entries.len()
        invariant
            i <= entries@.len(),
            s == entries_view(entries@),
            r@ == head + state_body(s.take(i as int)),
        decreases entries@.len() - i,
    {
        let e = &entries[i];
        let kb = e.key.to_bytes();
        push_all(&mut r, kb.as_slice());
        e.value.encode_into(&mut r);
        assert(s.take(i + 1).drop_last() =~= s.take(i as int));
        i += 1;
        assert(r@ =~= head + state_body(s.take(i as int)));
    }
    assert(s.take(entries@.len() as int) =~= s);
    r
}

fn find_root(roots: &Vec<StateRoot>, d: &[u8; 32]) -> (r: Option<usize>)
    ensures
        match r {
            Some(i) => {
                let v = roots@.map_values(|r: StateRoot| root_view(r));
                any_match(v, has_digest(d@)) && i as int == first_match(v, has_digest(d@)) && i
                    < roots@.len()
            },
            None => !any_match(roots@.map_values(|r: StateRoot| root_view(r)), has_digest(d@)),
        },
{
    let ghost v = roots@.map_values(|r: StateRoot| root_view(r));
    let mut i: usize = 0;
    while i < roots.len()
        invariant
            i <= roots@.len(),
            v == roots@.map_values(|r: StateRoot| root_view(r)),
            forall|j: int| 0 <= j < i ==> !has_digest(d@)(v[j]),
        decreases roots@.len() - i,
    {
        if addr_eq(&roots[i].digest, d) {
            proof {
                assert(has_digest(d@)(v[i as int]));
                lemma_first_match(v, has_digest(d@), i as int);
            }
            return Some(i);
        }
        proof {
            if has_digest(d@)(v[i as int]) {
                broadcast use vstd::array::axiom_array_ext_equal;

                assert(roots@[i as int].digest =~= *d);
            }
        }
        i += 1;
    }
    None
}


proof fn lemma_effects_err_prefix(
    s: Seq<(Key, ValueView)>,
    e: Seq<(Key, TransformView)>,
    m: int,
    x: CommitError,
)
    requires
        0 <= m <= e.len(),
        apply_effects(s, e.take(m)) == Err::<Seq<(Key, ValueView)>, CommitError>(x),
    ensures
        apply_effects(s, e) == Err::<Seq<(Key, ValueView)>, CommitError>(x),
    decreases e.len(),
{
    if m == e.len() {
        assert(e.take(m) =~= e);
    } else {
        assert(e.drop_last().take(m) =~= e.take(m));
        lemma_effects_err_prefix(s, e.drop_last(), m, x);
    }
}

proof fn lemma_effects_step(s: Seq<(Key, ValueView)>, e: Seq<(Key, TransformView)>, i: int)
    requires
        0 <= i < e.len(),
    ensures
        apply_effects(s, e.take(i + 1)) == match apply_effects(s, e.take(i)) {
            Ok(s2) => apply_effect(s2, e[i].0, e[i].1),
            Err(x) => Err(x),
        },
{
    assert(e.take(i + 1).drop_last() =~= e.take(i));
    assert(e.take(i + 1).last() == e[i]);
}

/// Applies one effect to a snapshot in place.
fn apply_one(entries: &mut Vec<Entry>, k: Key, t: Transform) -> (r: Result<(), CommitError>)
    ensures
        match apply_effect(entries_view(old(entries)@), k, t@) {
            Ok(s2) => r is Ok && entries_view(final(entries)@) == s2,
            Err(x) => r == Err::<(), CommitError>(x),
        },
{
    let ghost cur = entries_view(entries@);
    match find_entry(entries, &k) {
        Some(j) => {
            proof {
                lemma_first_match_props(cur, is_key(k));
            }
            let e = entries.remove(j);
            match t.apply(e.value) {
                Ok(w) => {
                    entries.insert(j, Entry { key: k, value: w });
                    assert(entries_view(entries@) =~= cur.update(j as int, (k, w@)));
                    Ok(())
                },
                Err(err) => Err(CommitError::TypeMismatch(err)),
            }
        },
        None => match t {
            Transform::Write(w) => {
                entries.push(Entry { key: k, value: w });
                assert(entries_view(entries@) =~= cur.push((k, w@)));
                Ok(())
            },
            _ => Err(CommitError::KeyNotFound(k)),
        },
    }
}

/// Applies effects in order to a snapshot in place, up to the first refusal.
pub fn apply_all(entries: &mut Vec<Entry>, effects: Vec<(Key, Transform)>) -> (r: Result<(), CommitError>)
    ensures
        match apply_effects(entries_view(old(entries)@), effects_view(effects@)) {
            Ok(s2) => r is Ok && entries_view(final(entries)@) == s2,
            Err(x) => r == Err::<(), CommitError>(x),
        },
{
    let ghost ev = effects_view(effects@);
    let ghost s0 = entries_view(entries@);
    let mut rest = effects;
    let ghost n = ev.len();
    let ghost mut i: int = 0;
    assert(ev.take(0) =~= Seq::<(Key, TransformView)>::empty());
    assert(effects_view(rest@) =~= ev.skip(0));
    while rest.len() > 0
        invariant
            0 <= i <= n,
            n == ev.len(),
            effects_view(rest@) == ev.skip(i),
            ev == effects_view(effects@),
            s0 == entries_view(old(entries)@),
            apply_effects(s0, ev.take(i)) == Ok::<Seq<(Key, ValueView)>, CommitError>(
                entries_view(entries@),
            ),
        decreases rest@.len(),
    {
        let ghost old_eff = rest@;
        let (k, t) = rest.remove(0);
        proof {
            assert(effects_view(old_eff).len() == n - i);
            assert(effects_view(old_eff)[0] == (k, t@));
            assert(ev.skip(i)[0] == ev[i]);
            assert(rest@ =~= old_eff.subrange(1, old_eff.len() as int));
            assert(effects_view(rest@) =~= effects_view(old_eff).subrange(1, old_eff.len() as int));
            assert(effects_view(rest@) =~= ev.skip(i + 1));
            lemma_effects_step(s0, ev, i);
        }
        match apply_one(entries, k, t) {
            Ok(()) => {},
            Err(x) => {
                proof {
                    lemma_effects_err_prefix(s0, ev, i + 1, x);
                }
                return Err(x);
            },
        }
        proof {
            i = i + 1;
        }
    }
    assert(ev.take(i) =~= ev);
    Ok(())
}

/// A copy of the value bound to a key in a snapshot.
pub fn find_value(entries: &Vec<Entry>, k: &Key) -> (r: Option<Value>)
    ensures
        match lookup(entries_view(entries@), *k) {
            None => r is None,
            Some(v) => r is Some && r->0@ == v,
        },
{
    match find_entry(entries, k) {
        None => None,
        Some(j) => Some(entries[j].value.duplicate()),
    }
}

impl GlobalState {
    /// A copy of the snapshot stored under a digest.
    pub fn snapshot(&self, d: &[u8; 32]) -> (r: Option<Vec<Entry>>)
        ensures
            match root_of(self@, d@) {
                None => r is None,
                Some(s) => r is Some && entries_view(r->0@) == s,
            },
    {
        match find_root(&self.roots, d) {
            None => None,
            Some(i) => Some(copy_entries(&self.roots[i].entries)),
        }
    }

    /// A store that holds the empty snapshot alone.
    pub fn new() -> (r: GlobalState)
        ensures
            r@ == seq![(state_digest(Seq::empty()), Seq::<(Key, ValueView)>::empty())],
            roots_valid(r@),
    {
        let entries: Vec<Entry> = Vec::new();
        let enc = encode_entries(&entries);
        let digest = blake2b_digest(enc.as_slice());
        let mut roots: Vec<StateRoot> = Vec::new();
        roots.push(StateRoot { digest, entries });
        assert(entries_view(entries@) =~= Seq::<(Key, ValueView)>::empty());
        let r = GlobalState { roots };
        assert(r@ =~= seq![(state_digest(Seq::empty()), Seq::<(Key, ValueView)>::empty())]);
        r
    }

    /// The digest of the empty snapshot.
    pub fn empty_state_hash() -> (r: [u8; 32])
        ensures
            r@ == state_digest(Seq::empty()),
    {
        let entries: Vec<Entry> = Vec::new();
        assert(entries_view(entries@) =~= Seq::<(Key, ValueView)>::empty());
        let enc = encode_entries(&entries);
        blake2b_digest(enc.as_slice())
    }

    /// Whether a snapshot is stored under the digest.
    pub fn has_root(&self, d: &[u8; 32]) -> (r: bool)
        ensures
            r == (root_of(self@, d@) is Some),
    {
        find_root(&self.roots, d).is_some()
    }

    /// The value bound to a key in the snapshot under a digest; `None` where
    /// the digest or the key is unknown.
    pub fn read(&self, d: &[u8; 32], k: &Key) -> (r: Option<Value>)
        ensures
            match root_of(self@, d@) {
                None => r is None,
                Some(s) => match lookup(s, *k) {
                    None => r is None,
                    Some(v) => r is Some && r->0@ == v,
                },
            },
    {
        match find_root(&self.roots, d) {
            None => None,
            Some(i) => {
                let entries = &self.roots[i].entries;
                match find_entry(entries, k) {
                    None => None,
                    Some(j) => Some(entries[j].value.duplicate()),
                }
            },
        }
    }

    /// Applies the effects, in order, to the snapshot under `pre`, and stores
    /// the result under its digest. Any refusal leaves the store as it was.
    pub fn commit(&mut self, pre: &[u8; 32], effects: Vec<(Key, Transform)>) -> (r: CommitResult)
        requires
            roots_valid(old(self)@),
        ensures
            result_matches(r, commit_outcome(old(self)@, pre@, effects_view(effects@))),
            final(self)@ == store_after(old(self)@, pre@, effects_view(effects@)),
            roots_valid(final(self)@),
    {
        let ghost v0 = self@;
        let ghost ev = effects_view(effects@);
        let idx = match find_root(&self.roots, pre) {
            None => {
                return CommitResult::RootNotFound;
            },
            Some(i) => i,
        };
        let mut entries = copy_entries(&self.roots[idx].entries);
        let ghost s0 = entries_view(entries@);
        assert(root_of(v0, pre@) == Some(s0));
        match apply_all(&mut entries, effects) {
            Ok(()) => {},
            Err(x) => {
                return match x {
                    CommitError::KeyNotFound(k) => CommitResult::KeyNotFound(k),
                    CommitError::TypeMismatch(e) => CommitResult::TypeMismatch(e),
                };
            },
        }
        let ghost post = entries_view(entries@);
        let enc = encode_entries(&entries);
        let digest = blake2b_digest(enc.as_slice());
        match find_root(&self.roots, &digest) {
            Some(_) => {},
            None => {
                let ghost old_roots = self.roots@;
                self.roots.push(StateRoot { digest, entries });
                proof {
                    assert(self.roots@.map_values(|r: StateRoot| root_view(r)) =~= old_roots.map_values(
                        |r: StateRoot| root_view(r),
                    ).push((digest@, post)));
                }
            },
        }
        CommitResult::Success { post_state_hash: digest }
    }
}

/// Earlier snapshots stay where they were when the store grows.
pub proof fn lemma_root_persists(v: StoreView, x: (Seq<u8>, Seq<(Key, ValueView)>), d: Seq<u8>)
    requires
        root_of(v, d) is Some,
    ensures
        root_of(v.push(x), d) == root_of(v, d),
{
    lemma_first_match_props(v, has_digest(d));
    let i = first_match(v, has_digest(d));
    let w = v.push(x);
    assert(w[i] == v[i]);
    assert forall|j: int| 0 <= j < i implies !has_digest(d)(w[j]) by {
        assert(w[j] == v[j]);
    }
    lemma_first_match(w, has_digest(d), i);
}

/// Committing the same effects against the same digest twice answers the same
/// both times: a commit leaves every snapshot it found where it was.
pub proof fn lemma_commit_deterministic(v: StoreView, d: Seq<u8>, e: Seq<(Key, TransformView)>)
    ensures
        commit_outcome(store_after(v, d, e), d, e) == commit_outcome(v, d, e),
{
    match root_of(v, d) {
        None => {},
        Some(s) => match apply_effects(s, e) {
            Ok(post) => {
                if !any_match(v, has_digest(state_digest(post))) {
                    lemma_root_persists(v, (state_digest(post), post), d);
                }
            },
            Err(_) => {},
        },
    }
}

/// Snapshots with the same content give the same answer to the same commit,
/// in any store.
pub proof fn lemma_commit_depends_on_content(
    v1: StoreView,
    v2: StoreView,
    d: Seq<u8>,
    e: Seq<(Key, TransformView)>,
)
    requires
        root_of(v1, d) == root_of(v2, d),
    ensures
        commit_outcome(v1, d, e) == commit_outcome(v2, d, e),
{
}

/// Committing no effects answers the digest committed against.
pub proof fn lemma_commit_empty(v: StoreView, d: Seq<u8>)
    requires
        roots_valid(v),
        root_of(v, d) is Some,
    ensures
        commit_outcome(v, d, Seq::empty()) == Ok::<Seq<u8>, Option<CommitError>>(d),
{
    lemma_first_match_props(v, has_digest(d));
    let i = first_match(v, has_digest(d));
    assert(v[i].0 == state_digest(v[i].1));
    let s = v[i].1;
    assert(apply_effects(s, Seq::empty()) == Ok::<Seq<(Key, ValueView)>, CommitError>(s));
}


/// The named keys that a value holds: an account's or a contract's.
pub open spec fn named_keys_of(v: ValueView) -> Option<Seq<(Seq<char>, Key)>> {
    match v {
        ValueView::Account(_, m, _) => Some(m),
        ValueView::Contract(_, m, _) => Some(m),
        _ => None,
    }
}

/// The value reached from `base` by following the first `n` names of `path`
/// through named keys; `None` where a step finds nothing.
pub open spec fn walk(s: Seq<(Key, ValueView)>, base: Key, path: Seq<Seq<char>>, n: nat) -> Option<
    ValueView,
>
    decreases n,
{
    if n == 0 {
        lookup(s, base)
    } else {
        match walk(s, base, path, (n - 1) as nat) {
            Some(v) => match named_keys_of(v) {
                Some(m) => if named_keys_map(m).contains_key(path[n - 1]) {
                    lookup(s, named_keys_map(m)[path[n - 1]])
                } else {
                    None
                },
                None => None,
            },
            None => None,
        }
    }
}

pub open spec fn path_view(path: Seq<String>) -> Seq<Seq<char>> {
    path.map_values(|p: String| p@)
}

/// What a query answers.
#[derive(Debug)]
pub enum QueryResult {
    Success(Value),
    /// The walk found nothing at this step; step 0 is the base key.
    ValueNotFound(usize),
    RootNotFound,
}

proof fn lemma_named_keys_last(m: Seq<(Seq<char>, Key)>, n: Seq<char>, j: int)
    requires
        0 <= j < m.len(),
        m[j].0 == n,
        forall|l: int| j < l < m.len() ==> m[l].0 != n,
    ensures
        named_keys_map(m).contains_key(n),
        named_keys_map(m)[n] == m[j].1,
    decreases m.len(),
{
    if j < m.len() - 1 {
        lemma_named_keys_last(m.drop_last(), n, j);
    }
}

proof fn lemma_named_keys_absent(m: Seq<(Seq<char>, Key)>, n: Seq<char>)
    requires
        forall|l: int| 0 <= l < m.len() ==> m[l].0 != n,
    ensures
        !named_keys_map(m).contains_key(n),
    decreases m.len(),
{
    if m.len() > 0 {
        lemma_named_keys_absent(m.drop_last(), n);
    }
}

/// The key bound to a name; the last binding wins.
pub fn find_name(m: &Vec<NamedKey>, name: &String) -> (r: Option<Key>)
    ensures
        match r {
            Some(k) => named_keys_map(named_keys_view(m@)).contains_key(name@) && named_keys_map(
                named_keys_view(m@),
            )[name@] == k,
            None => !named_keys_map(named_keys_view(m@)).contains_key(name@),
        },
{
    let ghost v = named_keys_view(m@);
    let mut i: usize = m.len();
    while i > 0
        invariant
            i <= m@.len(),
            v == named_keys_view(m@),
            forall|l: int| i <= l < m@.len() ==> v[l].0 != name@,
        decreases i,
    {
        if m[i - 1].name == *name {
            proof {
                lemma_named_keys_last(v, name@, i - 1);
            }
            return Some(m[i - 1].key);
        }
        i -= 1;
    }
    proof {
        lemma_named_keys_absent(v, name@);
    }
    None
}

/// What a walk from `base` along `path` answers in a snapshot.
pub open spec fn walk_answer(s: Seq<(Key, ValueView)>, base: Key, path: Seq<Seq<char>>, r: QueryResult) -> bool {
    match r {
        QueryResult::Success(v) => walk(s, base, path, path.len()) == Some(v@),
        QueryResult::ValueNotFound(i) => i <= path.len() && walk(s, base, path, i as nat) is None && (i
            == 0 || walk(s, base, path, (i - 1) as nat) is Some),
        QueryResult::RootNotFound => false,
    }
}

/// One step of a walk: from the entry at `cur` through the name to the entry
/// it leads to.
fn step(entries: &Vec<Entry>, cur: usize, name: &String) -> (r: Option<usize>)
    requires
        cur < entries@.len(),
    ensures
        ({
            let s = entries_view(entries@);
            let next = match named_keys_of(s[cur as int].1) {
                Some(m) => if named_keys_map(m).contains_key(name@) {
                    lookup(s, named_keys_map(m)[name@])
                } else {
                    None
                },
                None => None,
            };
            match r {
                Some(j) => j < entries@.len() && next == Some(s[j as int].1),
                None => next is None,
            }
        }),
{
    let ghost s = entries_view(entries@);
    let nk = match &entries[cur].value {
        Value::Account(a) => &a.named_keys,
        Value::Contract(c) => &c.named_keys,
        _ => {
            return None;
        },
    };
    let k = match find_name(nk, name) {
        None => {
            return None;
        },
        Some(k) => k,
    };
    match find_entry(entries, &k) {
        None => None,
        Some(j) => {
            proof {
                lemma_first_match_props(s, is_key(k));
            }
            Some(j)
        },
    }
}

/// Walks from `base` along `path` in a snapshot.
fn walk_entries(entries: &Vec<Entry>, base: &Key, path: &Vec<String>) -> (r: QueryResult)
    ensures
        walk_answer(entries_view(entries@), *base, path_view(path@), r),
{
    let ghost s = entries_view(entries@);
    let ghost pv = path_view(path@);
    let mut cur: usize = match find_entry(entries, base) {
        None => {
            return QueryResult::ValueNotFound(0);
        },
        Some(j) => j,
    };
    proof {
        lemma_first_match_props(s, is_key(*base));
    }
    let mut i: usize = 0;
    while i < path.len()
        invariant
            i <= path@.len(),
            s == entries_view(entries@),
            pv == path_view(path@),
            cur < entries@.len(),
            walk(s, *base, pv, i as nat) == Some(s[cur as int].1),
        decreases path@.len() - i,
    {
        assert(pv[i as int] == path@[i as int]@);
        cur = match step(entries, cur, &path[i]) {
            None => {
                return QueryResult::ValueNotFound(i + 1);
            },
            Some(j) => j,
        };
        i += 1;
    }
    QueryResult::Success(entries[cur].value.duplicate())
}

impl GlobalState {
    /// Resolves a path of names from a base key through named keys, in the
    /// snapshot under `d`.
    pub fn query(&self, d: &[u8; 32], base: &Key, path: &Vec<String>) -> (r: QueryResult)
        ensures
            match root_of(self@, d@) {
                None => r is RootNotFound,
                Some(s) => walk_answer(s, *base, path_view(path@), r),
            },
    {
        match find_root(&self.roots, d) {
            None => QueryResult::RootNotFound,
            Some(idx) => walk_entries(&self.roots[idx].entries, base, path),
        }
    }
}


/// Committing an add of the largest 512-bit number to a key that holds the
/// largest 512-bit number succeeds and leaves that number there.
pub proof fn lemma_commit_add_u512_saturates(s: Seq<(Key, ValueView)>, k: Key)
    requires
        lookup(s, k) == Some(ValueView::UInt512((u512_bound() - 1) as nat)),
    ensures
        apply_effects(s, seq![(k, TransformView::AddUInt512((u512_bound() - 1) as nat))]) is Ok,
        lookup(
            apply_effects(s, seq![(k, TransformView::AddUInt512((u512_bound() - 1) as nat))])->Ok_0,
            k,
        ) == Some(ValueView::UInt512((u512_bound() - 1) as nat)),
{
    let max = (u512_bound() - 1) as nat;
    let e = seq![(k, TransformView::AddUInt512(max))];
    assert(e.drop_last() =~= Seq::<(Key, TransformView)>::empty());
    assert(apply_effects(s, e.drop_last()) == Ok::<Seq<(Key, ValueView)>, CommitError>(s));
    crate::transform::lemma_add_u512_saturates();
    lemma_first_match_props(s, is_key(k));
    let i = first_match(s, is_key(k));
    let post = s.update(i, (k, ValueView::UInt512(max)));
    assert(apply_effects(s, e) == Ok::<Seq<(Key, ValueView)>, CommitError>(post));
    assert forall|j: int| 0 <= j < i implies !is_key(k)(post[j]) by {
        assert(post[j] == s[j]);
    }
    lemma_first_match(post, is_key(k), i);
}

/// A path of one name from a contract or an account reaches the value stored
/// at the key that the name is bound to.
pub proof fn lemma_query_one_step(
    s: Seq<(Key, ValueView)>,
    base: Key,
    name: Seq<char>,
    target: Key,
    v: ValueView,
)
    requires
        lookup(s, base) matches Some(b) && named_keys_of(b) matches Some(m) && named_keys_map(
            m,
        ).contains_key(name) && named_keys_map(m)[name] == target,
        lookup(s, target) == Some(v),
    ensures
        walk(s, base, seq![name], 1) == Some(v),
{
    assert(walk(s, base, seq![name], 0) == lookup(s, base));
}

} // verus!
