//! A tracking copy: one deploy's view of a snapshot. Reads go through a cache
//! and are recorded as `Identity` transforms; writes and adds update the cache
//! and append to an ordered log of effects.

use vstd::prelude::*;
use crate::global_state::{
    apply_all, apply_effects, effects_view, entries_view, lookup, root_of, CommitError, Entry,
    GlobalState,
};
use crate::key::Key;
use crate::transform::{apply_view, Transform, TransformError, TransformView};
use crate::value::{Value, ValueView};

verus! {

/// The value that the latest binding of `k` holds; later bindings override
/// earlier ones.
pub open spec fn latest(s: Seq<(Key, ValueView)>, k: Key) -> Option<ValueView>
    decreases s.len(),
{
    if s.len() == 0 {
        None
    } else if s.last().0 == k {
        Some(s.last().1)
    } else {
        latest(s.drop_last(), k)
    }
}

/// Why an add was refused.
#[derive(Debug, Clone, Copy)]
pub enum AddError {
    KeyNotFound(Key),
    TypeMismatch(TransformError),
}

/// One deploy's journal over a snapshot.
pub struct TrackingCopy {
    base: Vec<Entry>,
    cache: Vec<Entry>,
    ops: Vec<(Key, Transform)>,
}

pub struct TrackingCopyView {
    pub base: Seq<(Key, ValueView)>,
    pub cache: Seq<(Key, ValueView)>,
    pub ops: Seq<(Key, TransformView)>,
}

impl View for TrackingCopy {
    type V = TrackingCopyView;

    closed spec fn view(&self) -> TrackingCopyView {
        TrackingCopyView {
            base: entries_view(self.base@),
            cache: entries_view(self.cache@),
            ops: effects_view(self.ops@),
        }
    }
}

impl TrackingCopyView {
    /// What the deploy sees at a key: its own latest write or add, else the
    /// snapshot's value.
    pub open spec fn current(self, k: Key) -> Option<ValueView> {
        match latest(self.cache, k) {
            Some(v) => Some(v),
            None => lookup(self.base, k),
        }
    }
}

fn find_latest(s: &Vec<Entry>, k: &Key) -> (r: Option<usize>)
    ensures
        match r {
            Some(i) => i < s@.len() && latest(entries_view(s@), *k) == Some(entries_view(s@)[i as int].1),
            None => latest(entries_view(s@), *k) is None,
        },
{
    let ghost v = entries_view(s@);
    let mut i: usize = s.len();
    assert(v.take(i as int) =~= v);
    while i > 0
        invariant
            i <= s@.len(),
            v == entries_view(s@),
            latest(v, *k) == latest(v.take(i as int), *k),
        decreases i,
    {
        assert(v.take(i as int).drop_last() =~= v.take(i - 1));
        if s[i - 1].key == *k {
            return Some(i - 1);
        }
        i -= 1;
    }
    None
}

impl GlobalState {
    /// A tracking copy over the snapshot under a digest; `None` where the
    /// digest is unknown.
    pub fn tracking_copy(&self, d: &[u8; 32]) -> (r: Option<TrackingCopy>)
        ensures
            match root_of(self@, d@) {
                None => r is None,
                Some(s) => r is Some && r->0@.base == s && r->0@.cache.len() == 0 && r->0@.ops.len() == 0,
            },
    {
        match self.snapshot(d) {
            None => None,
            Some(base) => Some(TrackingCopy::new(base)),
        }
    }

    /// A tracking copy over the snapshot under a digest with `prior` effects
    /// applied first: what a deploy sees after the deploys before it in its
    /// batch. `None` where the digest is unknown; the refusal where the prior
    /// effects do not apply.
    pub fn tracking_copy_after(&self, d: &[u8; 32], prior: Vec<(Key, Transform)>) -> (r: Option<
        Result<TrackingCopy, CommitError>,
    >)
        ensures
            match root_of(self@, d@) {
                None => r is None,
                Some(s) => match apply_effects(s, effects_view(prior@)) {
                    Ok(s2) => r matches Some(Ok(tc)) && tc@.base == s2 && tc@.cache.len() == 0
                        && tc@.ops.len() == 0,
                    Err(x) => r matches Some(Err(y)) && y == x,
                },
            },
    {
        match self.snapshot(d) {
            None => None,
            Some(base) => {
                let mut base = base;
                match apply_all(&mut base, prior) {
                    Ok(()) => Some(Ok(TrackingCopy::new(base))),
                    Err(x) => Some(Err(x)),
                }
            },
        }
    }
}

impl TrackingCopy {
    /// A tracking copy over a snapshot, with nothing read or logged yet.
    pub fn new(base: Vec<Entry>) -> (r: TrackingCopy)
        ensures
            r@.base == entries_view(base@),
            r@.cache.len() == 0,
            r@.ops.len() == 0,
    {
        let cache: Vec<Entry> = Vec::new();
        let ops: Vec<(Key, Transform)> = Vec::new();
        TrackingCopy { base, cache, ops }
    }

    /// The value at a key. A read that reaches the snapshot records an
    /// `Identity` transform and caches the value.
    pub fn read(&mut self, k: &Key) -> (r: Option<Value>)
        ensures
            match old(self)@.current(*k) {
                None => r is None && final(self)@ == old(self)@,
                Some(v) => r is Some && r->0@ == v && final(self)@.current(*k) == Some(v)
                    && final(self)@.base == old(self)@.base,
            },
            latest(old(self)@.cache, *k) is Some ==> final(self)@ == old(self)@,
            latest(old(self)@.cache, *k) is None && old(self)@.current(*k) is Some ==> final(self)@.ops
                == old(self)@.ops.push((*k, TransformView::Identity)),
            forall|k2: Key| k2 != *k ==> final(self)@.current(k2) == old(self)@.current(k2),
    {
        match find_latest(&self.cache, k) {
            Some(i) => Some(self.cache[i].value.duplicate()),
            None => {
                let found = crate::global_state::find_value(&self.base, k);
                match found {
                    None => None,
                    Some(v) => {
                        let ghost c0 = entries_view(self.cache@);
                        let ghost o0 = effects_view(self.ops@);
                        let copy = v.duplicate();
                        self.cache.push(Entry { key: *k, value: copy });
                        self.ops.push((*k, Transform::Identity));
                        assert(entries_view(self.cache@) =~= c0.push((*k, v@)));
                        assert(entries_view(self.cache@).drop_last() =~= c0);
                        assert(effects_view(self.ops@) =~= o0.push((*k, TransformView::Identity)));
                        Some(v)
                    },
                }
            },
        }
    }

    /// Replaces the value at a key and logs the write.
    pub fn write(&mut self, k: Key, v: Value)
        ensures
            final(self)@.current(k) == Some(v@),
            final(self)@.ops == old(self)@.ops.push((k, TransformView::Write(v@))),
            final(self)@.base == old(self)@.base,
            forall|k2: Key| k2 != k ==> final(self)@.current(k2) == old(self)@.current(k2),
    {
        let ghost c0 = entries_view(self.cache@);
        let ghost o0 = effects_view(self.ops@);
        let copy = v.duplicate();
        self.cache.push(Entry { key: k, value: copy });
        self.ops.push((k, Transform::Write(v)));
        assert(entries_view(self.cache@) =~= c0.push((k, v@)));
        assert(entries_view(self.cache@).drop_last() =~= c0);
        assert(effects_view(self.ops@) =~= o0.push((k, TransformView::Write(v@))));
    }

    /// Applies an add to the value at a key, caches the result and logs the
    /// add; refused, with nothing changed, where the key holds nothing or a
    /// value of another kind.
    pub fn add(&mut self, k: Key, t: Transform) -> (r: Result<(), AddError>)
        ensures
            match old(self)@.current(k) {
                None => r == Err::<(), AddError>(AddError::KeyNotFound(k)) && final(self)@ == old(self)@,
                Some(v) => match apply_view(t@, v) {
                    Err(e) => r == Err::<(), AddError>(AddError::TypeMismatch(e)) && final(self)@
                        == old(self)@,
                    Ok(w) => {
                        &&& r is Ok
                        &&& final(self)@.current(k) == Some(w)
                        &&& final(self)@.ops == old(self)@.ops.push((k, t@))
                        &&& final(self)@.base == old(self)@.base
                        &&& forall|k2: Key| k2 != k ==> final(self)@.current(k2) == old(self)@.current(k2)
                    },
                },
            },
    {
        let cur = match find_latest(&self.cache, &k) {
            Some(i) => self.cache[i].value.duplicate(),
            None => match crate::global_state::find_value(&self.base, &k) {
                None => {
                    return Err(AddError::KeyNotFound(k));
                },
                Some(v) => v,
            },
        };
        let logged = t.duplicate();
        match t.apply(cur) {
            Err(e) => Err(AddError::TypeMismatch(e)),
            Ok(w) => {
                let ghost c0 = entries_view(self.cache@);
                let ghost o0 = effects_view(self.ops@);
                let ghost wv = w@;
                self.cache.push(Entry { key: k, value: w });
                self.ops.push((k, logged));
                assert(entries_view(self.cache@) =~= c0.push((k, wv)));
                assert(entries_view(self.cache@).drop_last() =~= c0);
                assert(effects_view(self.ops@) =~= o0.push((k, logged@)));
                Ok(())
            },
        }
    }

    /// The logged effects, in order, with nothing merged.
    pub fn effects(&self) -> (r: Vec<(Key, Transform)>)
        ensures
            effects_view(r@) == self@.ops,
    {
        crate::engine::copy_effects(&self.ops)
    }
}

} // verus!
