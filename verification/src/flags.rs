//! Validated enums and bitfields of the property descriptor header: the
//! array dimension, the lifetime replication condition, and the 64-bit
//! property flags.
//!
//! A serialized value outside the defined set fails with an
//! invalid-enum-value error; it is never defaulted or retried.

use vstd::prelude::*;

use crate::error::{Error, ErrorCode};

verus! {

/// How many array slots a declared property spans.
#[derive(Debug, Clone, Copy, PartialEq, Eq, Structural)]
pub enum EArrayDim {
    NotAnArray,
    TArray,
    CArrayDimension,
}

/// The wire code of an array dimension.
pub open spec fn array_dim_code(d: EArrayDim) -> int {
    match d {
        EArrayDim::NotAnArray => 0,
        EArrayDim::TArray => 1,
        EArrayDim::CArrayDimension => 2,
    }
}

/// Decodes an array dimension; values outside the defined set fail with an
/// invalid-enum-value error.
pub fn array_dim_from_i32(v: i32) -> (r: Result<EArrayDim, Error>)
    ensures
        0 <= v <= 2 ==> (r matches Ok(d) && array_dim_code(d) == v),
        !(0 <= v <= 2) ==> (r matches Err(e) && e.is_invalid_enum_value()),
{
    match v {
        0 => Ok(EArrayDim::NotAnArray),
        1 => Ok(EArrayDim::TArray),
        2 => Ok(EArrayDim::CArrayDimension),
        _ => Err(Error::invalid_enum_value("the array dimension code is undefined".to_owned())),
    }
}

/// Encodes an array dimension.
pub fn array_dim_to_i32(d: EArrayDim) -> (r: i32)
    ensures
        r as int == array_dim_code(d),
{
    match d {
        EArrayDim::NotAnArray => 0,
        EArrayDim::TArray => 1,
        EArrayDim::CArrayDimension => 2,
    }
}

/// Under which condition a replicated property is sent to clients.
#[derive(Debug, Clone, Copy, PartialEq, Eq, Structural)]
pub enum ELifetimeCondition {
    CondNone,
    CondInitialOnly,
    CondOwnerOnly,
    CondSkipOwner,
    CondSimulatedOnly,
    CondAutonomousOnly,
    CondSimulatedOrPhysics,
    CondInitialOrOwner,
    CondCustom,
    CondReplayOrOwner,
    CondReplayOnly,
    CondSimulatedOnlyNoReplay,
    CondSimulatedOrPhysicsNoReplay,
    CondSkipReplay,
    CondNever,
}

/// The wire code of a lifetime condition; the never-replicate condition
/// sits one past a hole in the numbering.
pub open spec fn lifetime_condition_code(c: ELifetimeCondition) -> int {
    match c {
        ELifetimeCondition::CondNone => 0,
        ELifetimeCondition::CondInitialOnly => 1,
        ELifetimeCondition::CondOwnerOnly => 2,
        ELifetimeCondition::CondSkipOwner => 3,
        ELifetimeCondition::CondSimulatedOnly => 4,
        ELifetimeCondition::CondAutonomousOnly => 5,
        ELifetimeCondition::CondSimulatedOrPhysics => 6,
        ELifetimeCondition::CondInitialOrOwner => 7,
        ELifetimeCondition::CondCustom => 8,
        ELifetimeCondition::CondReplayOrOwner => 9,
        ELifetimeCondition::CondReplayOnly => 10,
        ELifetimeCondition::CondSimulatedOnlyNoReplay => 11,
        ELifetimeCondition::CondSimulatedOrPhysicsNoReplay => 12,
        ELifetimeCondition::CondSkipReplay => 13,
        ELifetimeCondition::CondNever => 15,
    }
}

/// True of byte values that encode a defined lifetime condition.
pub open spec fn valid_lifetime_condition_byte(v: int) -> bool {
    0 <= v <= 13 || v == 15
}

/// Decodes a lifetime condition byte; undefined codes fail with an
/// invalid-enum-value error.
pub fn lifetime_condition_from_u8(v: u8) -> (r: Result<ELifetimeCondition, Error>)
    ensures
        valid_lifetime_condition_byte(v as int)
            ==> (r matches Ok(c) && lifetime_condition_code(c) == v),
        !valid_lifetime_condition_byte(v as int)
            ==> (r matches Err(e) && e.is_invalid_enum_value()),
{
    match v {
        0 => Ok(ELifetimeCondition::CondNone),
        1 => Ok(ELifetimeCondition::CondInitialOnly),
        2 => Ok(ELifetimeCondition::CondOwnerOnly),
        3 => Ok(ELifetimeCondition::CondSkipOwner),
        4 => Ok(ELifetimeCondition::CondSimulatedOnly),
        5 => Ok(ELifetimeCondition::CondAutonomousOnly),
        6 => Ok(ELifetimeCondition::CondSimulatedOrPhysics),
        7 => Ok(ELifetimeCondition::CondInitialOrOwner),
        8 => Ok(ELifetimeCondition::CondCustom),
        9 => Ok(ELifetimeCondition::CondReplayOrOwner),
        10 => Ok(ELifetimeCondition::CondReplayOnly),
        11 => Ok(ELifetimeCondition::CondSimulatedOnlyNoReplay),
        12 => Ok(ELifetimeCondition::CondSimulatedOrPhysicsNoReplay),
        13 => Ok(ELifetimeCondition::CondSkipReplay),
        15 => Ok(ELifetimeCondition::CondNever),
        _ => Err(Error::invalid_enum_value("the lifetime condition code is undefined".to_owned())),
    }
}

/// Encodes a lifetime condition.
pub fn lifetime_condition_to_u8(c: ELifetimeCondition) -> (r: u8)
    ensures
        r as int == lifetime_condition_code(c),
{
    match c {
        ELifetimeCondition::CondNone => 0,
        ELifetimeCondition::CondInitialOnly => 1,
        ELifetimeCondition::CondOwnerOnly => 2,
        ELifetimeCondition::CondSkipOwner => 3,
        ELifetimeCondition::CondSimulatedOnly => 4,
        ELifetimeCondition::CondAutonomousOnly => 5,
        ELifetimeCondition::CondSimulatedOrPhysics => 6,
        ELifetimeCondition::CondInitialOrOwner => 7,
        ELifetimeCondition::CondCustom => 8,
        ELifetimeCondition::CondReplayOrOwner => 9,
        ELifetimeCondition::CondReplayOnly => 10,
        ELifetimeCondition::CondSimulatedOnlyNoReplay => 11,
        ELifetimeCondition::CondSimulatedOrPhysicsNoReplay => 12,
        ELifetimeCondition::CondSkipReplay => 13,
        ELifetimeCondition::CondNever => 15,
    }
}

/// The bit positions that carry a defined property flag.
pub const PROPERTY_FLAGS_MASK: u64 = 0x00FF_FFFF_FFFF_FFFF;

/// The bit positions no property flag is defined for.
pub const PROPERTY_FLAGS_UNDEFINED: u64 = 0xFF00_0000_0000_0000;

/// A validated 64-bit property-flags bitfield.
#[derive(Debug, Clone, Copy, PartialEq, Eq, Structural)]
pub struct EPropertyFlags {
    pub bits: u64,
}

/// True of bitfields that only set defined flag bits.
pub open spec fn valid_property_flags(v: u64) -> bool {
    v & PROPERTY_FLAGS_UNDEFINED == 0
}

impl EPropertyFlags {
    /// Validates a serialized flags bitfield; a set bit outside the defined
    /// mask fails with an invalid-enum-value error.
    pub fn from_u64(v: u64) -> (r: Result<EPropertyFlags, Error>)
        ensures
            valid_property_flags(v) ==> (r matches Ok(f) && f.bits == v),
            !valid_property_flags(v) ==> (r matches Err(e) && e.is_invalid_enum_value()),
    {
        if v & PROPERTY_FLAGS_UNDEFINED == 0 {
            Ok(EPropertyFlags { bits: v })
        } else {
            Err(Error::invalid_enum_value("the property flags set an undefined bit".to_owned()))
        }
    }
}

} // verus!
