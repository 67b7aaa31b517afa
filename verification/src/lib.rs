//! Property serialization engine for Unreal Engine binary asset files.
//!
//! The crate models the property-value system of `.uasset`/`.uexp` packages:
//! a polymorphic family of serializable records dispatched by a runtime
//! type-name string, read from and written to a little-endian byte stream,
//! with engine-custom-version-gated field presence and struct-type override
//! resolution for the map and array elements whose wire form carries no type
//! tag of its own.
//!
//! Round-trip fidelity is the central contract. Every type's wire form is
//! written down once, as a specification function over byte sequences; each
//! reader guarantees that the bytes it consumed are exactly that form of
//! the value it returned, and each writer guarantees that it appends
//! exactly that form. Composing the two yields byte-exact round trips for
//! whole property trees. The one guarded case is the map container, whose
//! decoding collapses duplicate keys: its reader reports the raw entry
//! pairs it saw alongside the collapsed result, and
//! [`property::lemma_map_round_trip`] closes the loop for streams whose
//! keys were distinct.

pub mod asset;
pub mod codec;
pub mod error;
pub mod flags;
pub mod property;
pub mod types;
pub mod uproperty;
