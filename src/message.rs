//! Transforms in the shape the service's messages carry them: one case for
//! each message field, all wide unsigned adds sharing one big-integer case.

use vstd::prelude::*;
use crate::key::Key;
use crate::transform::{Transform, TransformError, TransformView};
use crate::value::{kind_of, named_keys_view, NamedKey, Value, ValueKind, ValueView};

verus! {

/// The case that a transform message holds.
#[derive(Debug)]
pub enum TransformInstance {
    Identity,
    AddKeys(Vec<NamedKey>),
    AddI32(i32),
    AddU64(u64),
    AddBigInt(Value),
    Write(Value),
    Failure(TransformError),
}

/// A transform as a message carries it; a message may hold no case at all.
#[derive(Debug)]
pub struct TransformMessage {
    pub transform_instance: Option<TransformInstance>,
}

pub enum TransformInstanceView {
    Identity,
    AddKeys(Seq<(Seq<char>, Key)>),
    AddI32(i32),
    AddU64(u64),
    AddBigInt(ValueView),
    Write(ValueView),
    Failure(TransformError),
}

impl View for TransformMessage {
    type V = Option<TransformInstanceView>;

    open spec fn view(&self) -> Option<TransformInstanceView> {
        match &self.transform_instance {
            None => None,
            Some(i) => Some(
                match i {
                    TransformInstance::Identity => TransformInstanceView::Identity,
                    TransformInstance::AddKeys(m) => TransformInstanceView::AddKeys(
                        named_keys_view(m@),
                    ),
                    TransformInstance::AddI32(x) => TransformInstanceView::AddI32(*x),
                    TransformInstance::AddU64(x) => TransformInstanceView::AddU64(*x),
                    TransformInstance::AddBigInt(v) => TransformInstanceView::AddBigInt(v@),
                    TransformInstance::Write(v) => TransformInstanceView::Write(v@),
                    TransformInstance::Failure(e) => TransformInstanceView::Failure(*e),
                },
            ),
        }
    }
}

/// Why a message does not spell a transform.
#[derive(Debug, Clone, Copy, PartialEq, Eq, Structural)]
pub enum ParsingError {
    /// The message holds no case.
    MissingTransform,
    /// A big-integer add holds a value that is no wide unsigned integer.
    NonUintBigInt(ValueKind),
}

/// The message for a transform.
pub open spec fn message_of(t: TransformView) -> Option<TransformInstanceView> {
    Some(
        match t {
            TransformView::Identity => TransformInstanceView::Identity,
            TransformView::AddInt32(i) => TransformInstanceView::AddI32(i),
            TransformView::AddUInt64(u) => TransformInstanceView::AddU64(u),
            TransformView::Write(v) => TransformInstanceView::Write(v),
            TransformView::AddKeys(m) => TransformInstanceView::AddKeys(m),
            TransformView::Failure(e) => TransformInstanceView::Failure(e),
            TransformView::AddUInt128(x) => TransformInstanceView::AddBigInt(ValueView::UInt128(x)),
            TransformView::AddUInt256(x) => TransformInstanceView::AddBigInt(ValueView::UInt256(x)),
            TransformView::AddUInt512(x) => TransformInstanceView::AddBigInt(ValueView::UInt512(x)),
        },
    )
}

/// The transform that a message spells.
pub open spec fn transform_of(m: Option<TransformInstanceView>) -> Result<TransformView, ParsingError> {
    match m {
        None => Err(ParsingError::MissingTransform),
        Some(i) => match i {
            TransformInstanceView::Identity => Ok(TransformView::Identity),
            TransformInstanceView::AddKeys(m) => Ok(TransformView::AddKeys(m)),
            TransformInstanceView::AddI32(x) => Ok(TransformView::AddInt32(x)),
            TransformInstanceView::AddU64(x) => Ok(TransformView::AddUInt64(x)),
            TransformInstanceView::AddBigInt(v) => match v {
                ValueView::UInt128(x) => Ok(TransformView::AddUInt128(x)),
                ValueView::UInt256(x) => Ok(TransformView::AddUInt256(x)),
                ValueView::UInt512(x) => Ok(TransformView::AddUInt512(x)),
                _ => Err(ParsingError::NonUintBigInt(kind_of(v))),
            },
            TransformInstanceView::Write(v) => Ok(TransformView::Write(v)),
            TransformInstanceView::Failure(e) => Ok(TransformView::Failure(e)),
        },
    }
}

impl TransformMessage {
    /// The message for a transform.
    pub fn from_transform(transform: Transform) -> (r: TransformMessage)
        ensures
            r@ == message_of(transform@),
    {
        let instance = match transform {
            Transform::Identity => TransformInstance::Identity,
            Transform::AddInt32(i) => TransformInstance::AddI32(i),
            Transform::AddUInt64(u) => TransformInstance::AddU64(u),
            Transform::Write(v) => TransformInstance::Write(v),
            Transform::AddKeys(m) => TransformInstance::AddKeys(m),
            Transform::Failure(e) => TransformInstance::Failure(e),
            Transform::AddUInt128(x) => TransformInstance::AddBigInt(Value::UInt128(x)),
            Transform::AddUInt256(x) => TransformInstance::AddBigInt(Value::UInt256(x)),
            Transform::AddUInt512(x) => TransformInstance::AddBigInt(Value::UInt512(x)),
        };
        TransformMessage { transform_instance: Some(instance) }
    }
}

impl Transform {
    /// The transform that a message spells.
    pub fn try_from_message(message: TransformMessage) -> (r: Result<Transform, ParsingError>)
        ensures
            match transform_of(message@) {
                Ok(t) => r is Ok && r->Ok_0@ == t,
                Err(e) => r == Err::<Transform, ParsingError>(e),
            },
    {
        let instance = match message.transform_instance {
            None => {
                return Err(ParsingError::MissingTransform);
            },
            Some(i) => i,
        };
        let transform = match instance {
            TransformInstance::Identity => Transform::Identity,
            TransformInstance::AddKeys(m) => Transform::AddKeys(m),
            TransformInstance::AddI32(x) => Transform::AddInt32(x),
            TransformInstance::AddU64(x) => Transform::AddUInt64(x),
            TransformInstance::AddBigInt(v) => match v {
                Value::UInt128(x) => Transform::AddUInt128(x),
                Value::UInt256(x) => Transform::AddUInt256(x),
                Value::UInt512(x) => Transform::AddUInt512(x),
                other => {
                    return Err(ParsingError::NonUintBigInt(other.kind()));
                },
            },
            TransformInstance::Write(v) => Transform::Write(v),
            TransformInstance::Failure(e) => Transform::Failure(e),
        };
        Ok(transform)
    }
}

/// Every transform reads back from its message as itself.
pub proof fn lemma_transform_message_round_trip(t: TransformView)
    ensures
        transform_of(message_of(t)) == Ok::<TransformView, ParsingError>(t),
{
}

} // verus!
