//! Transforms: pure typed edits of the value at a key, how they apply, and
//! how two of them on one key merge.

use vstd::prelude::*;
use crate::key::Key;
use crate::uint::{saturating_sum, u256_bound, u512_bound, U256, U512};
use crate::value::{kind_of, named_keys_map, named_keys_view, NamedKey, Value, ValueKind, ValueView};

verus! {

/// Why a transform could not be applied.
#[derive(Debug, Clone, Copy, PartialEq, Eq, Structural)]
pub enum TransformError {
    TypeMismatch { expected: ValueKind, found: ValueKind },
}

/// A typed edit of the value at a key.
#[derive(Debug)]
pub enum Transform {
    Identity,
    Write(Value),
    AddInt32(i32),
    AddUInt64(u64),
    AddUInt128(u128),
    AddUInt256(U256),
    AddUInt512(U512),
    AddKeys(Vec<NamedKey>),
    Failure(TransformError),
}

/// What a transform stands for.
pub enum TransformView {
    Identity,
    Write(ValueView),
    AddInt32(i32),
    AddUInt64(u64),
    AddUInt128(u128),
    AddUInt256(nat),
    AddUInt512(nat),
    AddKeys(Seq<(Seq<char>, Key)>),
    Failure(TransformError),
}

impl View for Transform {
    type V = TransformView;

    open spec fn view(&self) -> TransformView {
        match self {
            Transform::Identity => TransformView::Identity,
            Transform::Write(v) => TransformView::Write(v@),
            Transform::AddInt32(i) => TransformView::AddInt32(*i),
            Transform::AddUInt64(i) => TransformView::AddUInt64(*i),
            Transform::AddUInt128(i) => TransformView::AddUInt128(*i),
            Transform::AddUInt256(i) => TransformView::AddUInt256(i@),
            Transform::AddUInt512(i) => TransformView::AddUInt512(i@),
            Transform::AddKeys(m) => TransformView::AddKeys(named_keys_view(m@)),
            Transform::Failure(e) => TransformView::Failure(*e),
        }
    }
}

pub open spec fn mismatch(expected: ValueKind, found: ValueView) -> TransformError {
    TransformError::TypeMismatch { expected, found: kind_of(found) }
}

/// `a + b` held within the range of `i32`.
pub open spec fn saturating_i32(a: i32, b: i32) -> i32 {
    if a + b > i32::MAX {
        i32::MAX
    } else if a + b < i32::MIN {
        i32::MIN
    } else {
        (a + b) as i32
    }
}

/// What applying a transform to a value gives. Numeric adds saturate at the
/// type's bounds; an add of another width, or named keys added to a value that
/// holds none, is a type mismatch.
pub open spec fn apply_view(t: TransformView, v: ValueView) -> Result<ValueView, TransformError> {
    match t {
        TransformView::Identity => Ok(v),
        TransformView::Write(w) => Ok(w),
        TransformView::AddInt32(i) => match v {
            ValueView::Int32(x) => Ok(ValueView::Int32(saturating_i32(x, i))),
            _ => Err(mismatch(ValueKind::Int32, v)),
        },
        TransformView::AddUInt64(i) => match v {
            ValueView::UInt64(x) => Ok(
                ValueView::UInt64(saturating_sum(x as nat, i as nat, (u64::MAX + 1) as nat) as u64),
            ),
            _ => Err(mismatch(ValueKind::UInt64, v)),
        },
        TransformView::AddUInt128(i) => match v {
            ValueView::UInt128(x) => Ok(
                ValueView::UInt128(saturating_sum(x as nat, i as nat, (u128::MAX + 1) as nat) as u128),
            ),
            _ => Err(mismatch(ValueKind::UInt128, v)),
        },
        TransformView::AddUInt256(i) => match v {
            ValueView::UInt256(x) => Ok(ValueView::UInt256(saturating_sum(x, i, u256_bound()))),
            _ => Err(mismatch(ValueKind::UInt256, v)),
        },
        TransformView::AddUInt512(i) => match v {
            ValueView::UInt512(x) => Ok(ValueView::UInt512(saturating_sum(x, i, u512_bound()))),
            _ => Err(mismatch(ValueKind::UInt512, v)),
        },
        TransformView::AddKeys(m) => match v {
            ValueView::NamedKeys(n) => Ok(ValueView::NamedKeys(n + m)),
            ValueView::Account(pk, n, p) => Ok(ValueView::Account(pk, n + m, p)),
            ValueView::Contract(b, n, pv) => Ok(ValueView::Contract(b, n + m, pv)),
            _ => Err(mismatch(ValueKind::NamedKeys, v)),
        },
        TransformView::Failure(e) => Err(e),
    }
}

/// The kind of value a numeric add or a named-keys add accepts.
pub open spec fn add_kind(t: TransformView) -> ValueKind {
    match t {
        TransformView::AddInt32(_) => ValueKind::Int32,
        TransformView::AddUInt64(_) => ValueKind::UInt64,
        TransformView::AddUInt128(_) => ValueKind::UInt128,
        TransformView::AddUInt256(_) => ValueKind::UInt256,
        TransformView::AddUInt512(_) => ValueKind::UInt512,
        _ => ValueKind::NamedKeys,
    }
}

/// The single transform that does what `t1` then `t2` do. Failure absorbs,
/// identity is neutral, a later write replaces, a write followed by an edit
/// becomes the write of the edited value, adds of one width sum (saturating),
/// named-keys adds concatenate (the later binding wins), and adds of different
/// kinds fail.
pub open spec fn merge_view(t1: TransformView, t2: TransformView) -> TransformView {
    match (t1, t2) {
        (TransformView::Failure(e), _) => TransformView::Failure(e),
        (_, TransformView::Failure(e)) => TransformView::Failure(e),
        (TransformView::Identity, _) => t2,
        (_, TransformView::Identity) => t1,
        (_, TransformView::Write(w)) => TransformView::Write(w),
        (TransformView::Write(v), _) => match apply_view(t2, v) {
            Ok(w) => TransformView::Write(w),
            Err(e) => TransformView::Failure(e),
        },
        (TransformView::AddInt32(a), TransformView::AddInt32(b)) => TransformView::AddInt32(
            saturating_i32(a, b),
        ),
        (TransformView::AddUInt64(a), TransformView::AddUInt64(b)) => TransformView::AddUInt64(
            saturating_sum(a as nat, b as nat, (u64::MAX + 1) as nat) as u64,
        ),
        (TransformView::AddUInt128(a), TransformView::AddUInt128(b)) => TransformView::AddUInt128(
            saturating_sum(a as nat, b as nat, (u128::MAX + 1) as nat) as u128,
        ),
        (TransformView::AddUInt256(a), TransformView::AddUInt256(b)) => TransformView::AddUInt256(
            saturating_sum(a, b, u256_bound()),
        ),
        (TransformView::AddUInt512(a), TransformView::AddUInt512(b)) => TransformView::AddUInt512(
            saturating_sum(a, b, u512_bound()),
        ),
        (TransformView::AddKeys(a), TransformView::AddKeys(b)) => TransformView::AddKeys(a + b),
        _ => TransformView::Failure(
            TransformError::TypeMismatch { expected: add_kind(t1), found: add_kind(t2) },
        ),
    }
}

fn i32_saturating(a: i32, b: i32) -> (r: i32)
    ensures
        r == saturating_i32(a, b),
{
    let s: i64 = a as i64 + b as i64;
    if s > i32::MAX as i64 {
        i32::MAX
    } else if s < i32::MIN as i64 {
        i32::MIN
    } else {
        s as i32
    }
}

fn append_keys(n: &mut Vec<NamedKey>, m: Vec<NamedKey>)
    ensures
        named_keys_view(final(n)@) == named_keys_view(old(n)@) + named_keys_view(m@),
{
    let ghost m0 = m@;
    let mut m = m;
    n.append(&mut m);
    assert(n@ == old(n)@ + m0);
    assert(named_keys_view(n@) =~= named_keys_view(old(n)@) + named_keys_view(m0));
}

impl Transform {
    /// Applies the transform to a value.
    pub fn apply(self, v: Value) -> (r: Result<Value, TransformError>)
        ensures
            match apply_view(self@, v@) {
                Ok(w) => r is Ok && r->Ok_0@ == w,
                Err(e) => r == Err::<Value, TransformError>(e),
            },
    {
        match self {
            Transform::Identity => Ok(v),
            Transform::Write(w) => Ok(w),
            Transform::AddInt32(i) => match v {
                Value::Int32(x) => Ok(Value::Int32(i32_saturating(x, i))),
                _ => Err(TransformError::TypeMismatch { expected: ValueKind::Int32, found: v.kind() }),
            },
            Transform::AddUInt64(i) => match v {
                Value::UInt64(x) => Ok(Value::UInt64(x.saturating_add(i))),
                _ => Err(TransformError::TypeMismatch { expected: ValueKind::UInt64, found: v.kind() }),
            },
            Transform::AddUInt128(i) => match v {
                Value::UInt128(x) => Ok(Value::UInt128(x.saturating_add(i))),
                _ => Err(
                    TransformError::TypeMismatch { expected: ValueKind::UInt128, found: v.kind() },
                ),
            },
            Transform::AddUInt256(i) => match v {
                Value::UInt256(x) => Ok(Value::UInt256(x.saturating_add(&i))),
                _ => Err(
                    TransformError::TypeMismatch { expected: ValueKind::UInt256, found: v.kind() },
                ),
            },
            Transform::AddUInt512(i) => match v {
                Value::UInt512(x) => Ok(Value::UInt512(x.saturating_add(&i))),
                _ => Err(
                    TransformError::TypeMismatch { expected: ValueKind::UInt512, found: v.kind() },
                ),
            },
            Transform::AddKeys(m) => match v {
                Value::NamedKeys(n) => {
                    let mut n = n;
                    append_keys(&mut n, m);
                    Ok(Value::NamedKeys(n))
                },
                Value::Account(a) => {
                    let mut a = a;
                    append_keys(&mut a.named_keys, m);
                    Ok(Value::Account(a))
                },
                Value::Contract(c) => {
                    let mut c = c;
                    append_keys(&mut c.named_keys, m);
                    Ok(Value::Contract(c))
                },
                _ => Err(
                    TransformError::TypeMismatch { expected: ValueKind::NamedKeys, found: v.kind() },
                ),
            },
            Transform::Failure(e) => Err(e),
        }
    }

    /// A copy of the transform.
    pub fn duplicate(&self) -> (r: Transform)
        ensures
            r@ == self@,
    {
        match self {
            Transform::Identity => Transform::Identity,
            Transform::Write(v) => Transform::Write(v.duplicate()),
            Transform::AddInt32(i) => Transform::AddInt32(*i),
            Transform::AddUInt64(i) => Transform::AddUInt64(*i),
            Transform::AddUInt128(i) => Transform::AddUInt128(*i),
            Transform::AddUInt256(i) => Transform::AddUInt256(i.copied()),
            Transform::AddUInt512(i) => Transform::AddUInt512(i.copied()),
            Transform::AddKeys(m) => Transform::AddKeys(crate::value::copy_named_keys(m)),
            Transform::Failure(e) => Transform::Failure(*e),
        }
    }

    fn add_kind(&self) -> (r: ValueKind)
        ensures
            r == add_kind(self@),
    {
        match self {
            Transform::AddInt32(_) => ValueKind::Int32,
            Transform::AddUInt64(_) => ValueKind::UInt64,
            Transform::AddUInt128(_) => ValueKind::UInt128,
            Transform::AddUInt256(_) => ValueKind::UInt256,
            Transform::AddUInt512(_) => ValueKind::UInt512,
            _ => ValueKind::NamedKeys,
        }
    }

    /// The single transform that does what `self` then `next` do.
    pub fn merge(self, next: Transform) -> (r: Transform)
        ensures
            r@ == merge_view(self@, next@),
    {
        match (self, next) {
            (Transform::Failure(e), _) => Transform::Failure(e),
            (_, Transform::Failure(e)) => Transform::Failure(e),
            (Transform::Identity, t2) => t2,
            (t1, Transform::Identity) => t1,
            (_, Transform::Write(w)) => Transform::Write(w),
            (Transform::Write(v), t2) => match t2.apply(v) {
                Ok(w) => Transform::Write(w),
                Err(e) => Transform::Failure(e),
            },
            (Transform::AddInt32(a), Transform::AddInt32(b)) => Transform::AddInt32(
                i32_saturating(a, b),
            ),
            (Transform::AddUInt64(a), Transform::AddUInt64(b)) => Transform::AddUInt64(
                a.saturating_add(b),
            ),
            (Transform::AddUInt128(a), Transform::AddUInt128(b)) => Transform::AddUInt128(
                a.saturating_add(b),
            ),
            (Transform::AddUInt256(a), Transform::AddUInt256(b)) => Transform::AddUInt256(
                a.saturating_add(&b),
            ),
            (Transform::AddUInt512(a), Transform::AddUInt512(b)) => Transform::AddUInt512(
                a.saturating_add(&b),
            ),
            (Transform::AddKeys(a), Transform::AddKeys(b)) => {
                let mut a = a;
                append_keys(&mut a, b);
                Transform::AddKeys(a)
            },
            (t1, t2) => {
                let expected = t1.add_kind();
                let found = t2.add_kind();
                Transform::Failure(TransformError::TypeMismatch { expected, found })
            },
        }
    }
}


/// Applying `t1` and then `t2`.
pub open spec fn apply_both(t1: TransformView, t2: TransformView, v: ValueView) -> Result<
    ValueView,
    TransformError,
> {
    match apply_view(t1, v) {
        Ok(w) => apply_view(t2, w),
        Err(e) => Err(e),
    }
}

/// Two outcomes agree: both give the same value, or both fail.
pub open spec fn same_outcome(
    r1: Result<ValueView, TransformError>,
    r2: Result<ValueView, TransformError>,
) -> bool {
    match (r1, r2) {
        (Ok(a), Ok(b)) => a == b,
        (Err(_), Err(_)) => true,
        _ => false,
    }
}

proof fn lemma_saturating_assoc(x: nat, a: nat, b: nat, bound: nat)
    requires
        bound > 0,
    ensures
        saturating_sum(saturating_sum(x, a, bound), b, bound) == saturating_sum(
            x,
            saturating_sum(a, b, bound),
            bound,
        ),
{
}

/// Merging two transforms preserves what applying them in order does: the
/// merged transform gives the same value, or fails where the pair fails. Two
/// signed adds are left out: saturation in between is not associative there
/// (`i32::MAX`, then `+1`, then `-1`). So is an edit that fails on the value
/// followed by a write: the later write wins the merge.
pub proof fn lemma_merge_preserves_apply(t1: TransformView, t2: TransformView, v: ValueView)
    requires
        !(t1 is AddInt32 && t2 is AddInt32),
        t2 is Write ==> apply_view(t1, v) is Ok,
    ensures
        same_outcome(apply_both(t1, t2, v), apply_view(merge_view(t1, t2), v)),
{
    match (t1, t2) {
        (TransformView::AddUInt64(a), TransformView::AddUInt64(b)) => {
            if let ValueView::UInt64(x) = v {
                lemma_saturating_assoc(x as nat, a as nat, b as nat, (u64::MAX + 1) as nat);
            }
        },
        (TransformView::AddUInt128(a), TransformView::AddUInt128(b)) => {
            if let ValueView::UInt128(x) = v {
                lemma_saturating_assoc(x as nat, a as nat, b as nat, (u128::MAX + 1) as nat);
            }
        },
        (TransformView::AddUInt256(a), TransformView::AddUInt256(b)) => {
            if let ValueView::UInt256(x) = v {
                crate::uint::lemma_base_pow_positive(4);
                lemma_saturating_assoc(x, a, b, u256_bound());
            }
        },
        (TransformView::AddUInt512(a), TransformView::AddUInt512(b)) => {
            if let ValueView::UInt512(x) = v {
                crate::uint::lemma_base_pow_positive(8);
                lemma_saturating_assoc(x, a, b, u512_bound());
            }
        },
        (TransformView::AddKeys(a), TransformView::AddKeys(b)) => {
            match v {
                ValueView::NamedKeys(n) => {
                    assert(n + a + b =~= n + (a + b));
                },
                ValueView::Account(pk, n, p) => {
                    assert(n + a + b =~= n + (a + b));
                },
                ValueView::Contract(c, n, pv) => {
                    assert(n + a + b =~= n + (a + b));
                },
                _ => {},
            }
        },
        _ => {},
    }
}

/// Identity is neutral on both sides of a merge.
pub proof fn lemma_merge_identity(t: TransformView)
    ensures
        merge_view(TransformView::Identity, t) == t,
        merge_view(t, TransformView::Identity) == t,
{
}

/// A failure absorbs whatever it is merged with, on either side.
pub proof fn lemma_merge_failure(e: TransformError, t: TransformView)
    ensures
        merge_view(TransformView::Failure(e), t) == TransformView::Failure(e),
        t is Failure || merge_view(t, TransformView::Failure(e)) == TransformView::Failure(e),
{
}

/// Adding the largest 512-bit number to a stored largest 512-bit number keeps
/// it there: no overflow, no wraparound.
pub proof fn lemma_add_u512_saturates()
    ensures
        apply_view(
            TransformView::AddUInt512((u512_bound() - 1) as nat),
            ValueView::UInt512((u512_bound() - 1) as nat),
        ) == Ok::<ValueView, TransformError>(ValueView::UInt512((u512_bound() - 1) as nat)),
{
}

/// Adding named keys merges mappings, the added bindings overriding the
/// present ones.
pub proof fn lemma_add_keys_overrides(n: Seq<(Seq<char>, Key)>, m: Seq<(Seq<char>, Key)>)
    ensures
        named_keys_map(n + m) == named_keys_map(n).union_prefer_right(named_keys_map(m)),
    decreases m.len(),
{
    if m.len() == 0 {
        assert(n + m =~= n);
        assert(named_keys_map(n).union_prefer_right(Map::empty()) =~= named_keys_map(n));
    } else {
        lemma_add_keys_overrides(n, m.drop_last());
        assert((n + m).drop_last() =~= n + m.drop_last());
        assert((n + m).last() == m.last());
        assert(named_keys_map(n + m) =~= named_keys_map(n).union_prefer_right(named_keys_map(m)));
    }
}

} // verus!
