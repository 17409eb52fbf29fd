//! The stable on-disk type-tag table: each value variant has a single tag
//! byte that never changes across schema versions.
use vstd::prelude::*;

use crate::models::BxesValueView;

verus! {

/// The full tag table. Tags up to `StandardLifecycle` belong to the core
/// schema this crate implements; the remaining tags are reserved for the
/// extended schema and are rejected by the reader.
#[derive(Clone, Copy, Debug, PartialEq, Eq, Structural)]
pub enum TypeIds {
    I32,
    I64,
    U32,
    U64,
    F32,
    F64,
    String,
    Bool,
    Timestamp,
    BrafLifecycle,
    StandardLifecycle,
    Artifact,
    Drivers,
    Guid,
    SoftwareEventType,
}

pub open spec fn spec_type_id_byte(t: TypeIds) -> u8 {
    match t {
        TypeIds::I32 => 0,
        TypeIds::I64 => 1,
        TypeIds::U32 => 2,
        TypeIds::U64 => 3,
        TypeIds::F32 => 4,
        TypeIds::F64 => 5,
        TypeIds::String => 6,
        TypeIds::Bool => 7,
        TypeIds::Timestamp => 8,
        TypeIds::BrafLifecycle => 9,
        TypeIds::StandardLifecycle => 10,
        TypeIds::Artifact => 11,
        TypeIds::Drivers => 12,
        TypeIds::Guid => 13,
        TypeIds::SoftwareEventType => 14,
    }
}

/// The tag byte written before a value of the given variant.
pub fn get_type_id_byte(t: TypeIds) -> (r: u8)
    ensures
        r == spec_type_id_byte(t),
{
    match t {
        TypeIds::I32 => 0,
        TypeIds::I64 => 1,
        TypeIds::U32 => 2,
        TypeIds::U64 => 3,
        TypeIds::F32 => 4,
        TypeIds::F64 => 5,
        TypeIds::String => 6,
        TypeIds::Bool => 7,
        TypeIds::Timestamp => 8,
        TypeIds::BrafLifecycle => 9,
        TypeIds::StandardLifecycle => 10,
        TypeIds::Artifact => 11,
        TypeIds::Drivers => 12,
        TypeIds::Guid => 13,
        TypeIds::SoftwareEventType => 14,
    }
}

/// The tag byte of a value, per the table above.
pub open spec fn tag_of(v: BxesValueView) -> u8 {
    match v {
        BxesValueView::Int32(_) => 0,
        BxesValueView::Int64(_) => 1,
        BxesValueView::Uint32(_) => 2,
        BxesValueView::Uint64(_) => 3,
        BxesValueView::Float32(_) => 4,
        BxesValueView::Float64(_) => 5,
        BxesValueView::Str(_) => 6,
        BxesValueView::Bool(_) => 7,
        BxesValueView::Timestamp(_) => 8,
        BxesValueView::BrafLifecycle(_) => 9,
        BxesValueView::StandardLifecycle(_) => 10,
    }
}

} // verus!
