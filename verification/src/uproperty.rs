//! The type-descriptor family: class-definition-time records describing a
//! property's declared type, dispatched by a serialized type-name string.
//!
//! Every variant opens with the shared generic header (version-gated next
//! field, validated array dimension, validated flags bitfield, replication
//! notify name, version-gated replication condition) and appends up to two
//! package indexes. An unrecognized type name falls back to the generic
//! descriptor, never to an error.

use vstd::prelude::*;

use crate::asset::{fname_bytes, fname_parse_ok, wf_fname, Asset};
use crate::codec::{
    dec_i32, dec_u64, le_i32, le_u64, lemma_subrange_concat, ByteReader,
};
use crate::error::{Error, ErrorCode};
use crate::flags::{
    array_dim_code, array_dim_from_i32, lifetime_condition_code, lifetime_condition_from_u8,
    valid_lifetime_condition_byte, valid_property_flags, EArrayDim, ELifetimeCondition,
    EPropertyFlags,
};
use crate::types::{FName, PackageIndex};

verus! {

/// The shared field header: a transient next-field index that only old
/// framework revisions serialize.
#[derive(Debug)]
pub struct UField {
    pub next: Option<PackageIndex>,
}

/// The wire form of the shared field header.
pub open spec fn ufield_bytes(a: Asset, f: UField) -> Seq<u8> {
    match f.next {
        None => Seq::<u8>::empty(),
        Some(p) => le_i32(p.index),
    }
}

/// The next field is present exactly when the asset's framework revision
/// still serializes it.
pub open spec fn wf_ufield(a: Asset, f: UField) -> bool {
    f.next is Some <==> a.has_ufield_next()
}

/// How many bytes the shared field header occupies for this asset.
pub open spec fn ufield_len(a: Asset) -> int {
    if a.has_ufield_next() {
        4
    } else {
        0
    }
}

impl UField {
    /// Reads the shared field header, honoring the framework version gate.
    pub fn new(asset: &Asset, reader: &mut ByteReader) -> (r: Result<UField, Error>)
        requires
            asset.wf(),
            old(reader).wf(),
        ensures
            ByteReader::advanced(*old(reader), *final(reader)),
            r is Ok <==> (!asset.has_ufield_next() || old(reader).remaining() >= 4),
            match r {
                Ok(f) => {
                    &&& wf_ufield(*asset, f)
                    &&& ByteReader::taken(*old(reader), *final(reader)) == ufield_bytes(*asset, f)
                    &&& final(reader).pos == old(reader).pos + ufield_len(*asset)
                },
                Err(e) => e.is_io() && *final(reader) == *old(reader),
            },
    {
        if asset.reads_ufield_next() {
            match reader.read_i32() {
                Ok(x) => Ok(UField { next: Some(PackageIndex::new(x)) }),
                Err(e) => Err(e),
            }
        } else {
            proof {
                assert(ByteReader::taken(*old(reader), *reader) =~= Seq::<u8>::empty());
            }
            Ok(UField { next: None })
        }
    }
}

/// The generic property descriptor: the shared header every variant opens
/// with, and the whole descriptor of an unrecognized type name.
#[derive(Debug)]
pub struct UGenericProperty {
    pub u_field: UField,
    pub array_dim: EArrayDim,
    pub property_flags: EPropertyFlags,
    pub rep_notify_func: FName,
    pub blueprint_replication_condition: Option<ELifetimeCondition>,
}

/// The wire form of the generic descriptor header.
pub open spec fn generic_bytes(a: Asset, g: UGenericProperty) -> Seq<u8> {
    ufield_bytes(a, g.u_field) + le_i32(array_dim_code(g.array_dim) as i32)
        + le_u64(g.property_flags.bits) + fname_bytes(a, g.rep_notify_func)
        + (match g.blueprint_replication_condition {
        None => Seq::<u8>::empty(),
        Some(c) => seq![lifetime_condition_code(c) as u8],
    })
}

/// Validity of a decoded generic descriptor against its asset: both gated
/// fields track their version thresholds, the notify name resolves, and the
/// flags are defined.
pub open spec fn wf_generic(a: Asset, g: UGenericProperty) -> bool {
    &&& wf_ufield(a, g.u_field)
    &&& (g.blueprint_replication_condition is Some <==> a.has_rep_condition())
    &&& wf_fname(a, g.rep_notify_func)
    &&& valid_property_flags(g.property_flags.bits)
}

/// How many bytes a generic descriptor header occupies for this asset.
pub open spec fn generic_parse_len(a: Asset) -> int {
    ufield_len(a) + 20 + if a.has_rep_condition() {
        1int
    } else {
        0int
    }
}

/// True of byte streams whose head is a readable generic descriptor header
/// for this asset: the gated fields present per version, a defined array
/// dimension and flags bitfield, and a resolvable notify name.
pub open spec fn generic_parse_ok(a: Asset, b: Seq<u8>) -> bool {
    let o = ufield_len(a);
    &&& b.len() >= o + 12
    &&& 0 <= dec_i32(b.subrange(o, o + 4)) <= 2
    &&& valid_property_flags(dec_u64(b.subrange(o + 4, o + 12)))
    &&& fname_parse_ok(a, b.skip(o + 12))
    &&& (a.has_rep_condition() ==> b.len() >= o + 21 && valid_lifetime_condition_byte(
        b[o + 20] as int,
    ))
}

/// The wire form of a descriptor with one trailing package index.
pub open spec fn desc1_bytes(a: Asset, g: UGenericProperty, p1: PackageIndex) -> Seq<u8> {
    generic_bytes(a, g) + le_i32(p1.index)
}

/// The wire form of a descriptor with two trailing package indexes.
pub open spec fn desc2_bytes(
    a: Asset,
    g: UGenericProperty,
    p1: PackageIndex,
    p2: PackageIndex,
) -> Seq<u8> {
    generic_bytes(a, g) + le_i32(p1.index) + le_i32(p2.index)
}

/// Version gating of the replication condition byte: a well-formed
/// generic descriptor carries the condition exactly when the release
/// stream revision lies below the rep-condition threshold, and its wire
/// form is then one byte longer than the ungated header.
pub proof fn lemma_rep_condition_gating(a: Asset, g: UGenericProperty)
    requires
        wf_generic(a, g),
    ensures
        g.blueprint_replication_condition is Some <==> a.effective_version(
            crate::asset::CustomVersionKey::ReleaseObjectVersion,
        ) < crate::asset::RELEASE_PROPERTIES_SERIALIZE_REP_CONDITION,
        generic_bytes(a, g).len() == ufield_len(a) + 20 + (
        match g.blueprint_replication_condition {
            Some(_) => 1int,
            None => 0int,
        }),
{
    crate::property::lemma_le_lens();
    assert(fname_bytes(a, g.rep_notify_func).len() == 8);
    assert(ufield_bytes(a, g.u_field).len() == ufield_len(a));
}

impl UGenericProperty {
    /// Reads a generic descriptor header: the version-gated next field, the
    /// validated array dimension, the validated 64-bit flags bitfield, the
    /// replication notify name, and the version-gated replication
    /// condition byte.
    pub fn new(asset: &Asset, reader: &mut ByteReader) -> (r: Result<UGenericProperty, Error>)
        requires
            asset.wf(),
            old(reader).wf(),
        ensures
            ByteReader::advanced(*old(reader), *final(reader)),
            r is Ok <==> generic_parse_ok(*asset, old(reader).rest()),
            match r {
                Ok(g) => {
                    &&& wf_generic(*asset, g)
                    &&& ByteReader::taken(*old(reader), *final(reader)) == generic_bytes(*asset, g)
                    &&& final(reader).pos == old(reader).pos + generic_parse_len(*asset)
                },
                Err(e) => e.is_io() || e.is_invalid_file() || e.is_invalid_enum_value(),
            },
            old(reader).remaining() >= ufield_len(*asset) + 4 && !(0 <= dec_i32(
                old(reader).rest().subrange(ufield_len(*asset), ufield_len(*asset) + 4),
            ) <= 2) ==> (r matches Err(e) && e.is_invalid_enum_value()),
            old(reader).remaining() >= ufield_len(*asset) + 12 && 0 <= dec_i32(
                old(reader).rest().subrange(ufield_len(*asset), ufield_len(*asset) + 4),
            ) <= 2 && !valid_property_flags(dec_u64(
                old(reader).rest().subrange(ufield_len(*asset) + 4, ufield_len(*asset) + 12),
            )) ==> (r matches Err(e) && e.is_invalid_enum_value()),
    {
        let ghost b = old(reader).rest();
        let ghost p0 = reader.pos as int;
        let ghost o = ufield_len(*asset);

        let u_field = match UField::new(asset, reader) {
            Ok(f) => f,
            Err(e) => {
                return Err(e);
            },
        };
        proof {
            assert(reader.pos as int == p0 + o);
        }

        let ghost p1 = reader.pos as int;
        let dim_raw = match reader.read_i32() {
            Ok(x) => x,
            Err(e) => {
                return Err(e);
            },
        };
        proof {
            assert(b.subrange(o, o + 4) =~= old(reader).data@.subrange(p1, p1 + 4));
            assert(dec_i32(b.subrange(o, o + 4)) == dim_raw);
        }
        let array_dim = match array_dim_from_i32(dim_raw) {
            Ok(d) => d,
            Err(e) => {
                return Err(e);
            },
        };

        let ghost p2 = reader.pos as int;
        let flags_raw = match reader.read_u64() {
            Ok(x) => x,
            Err(e) => {
                return Err(e);
            },
        };
        proof {
            assert(b.subrange(o + 4, o + 12) =~= old(reader).data@.subrange(p2, p2 + 8));
            assert(dec_u64(b.subrange(o + 4, o + 12)) == flags_raw);
        }
        let property_flags = match EPropertyFlags::from_u64(flags_raw) {
            Ok(f) => f,
            Err(e) => {
                return Err(e);
            },
        };

        let ghost p3 = reader.pos as int;
        proof {
            assert(reader.rest() =~= b.skip(o + 12));
        }
        let rep_notify_func = match asset.read_fname(reader) {
            Ok(f) => f,
            Err(e) => {
                return Err(e);
            },
        };

        let ghost p4 = reader.pos as int;
        let blueprint_replication_condition: Option<ELifetimeCondition> = if asset
            .reads_rep_condition() {
            let v = match reader.read_u8() {
                Ok(x) => x,
                Err(e) => {
                    return Err(e);
                },
            };
            proof {
                assert(b[o + 20] == v);
            }
            match lifetime_condition_from_u8(v) {
                Ok(c) => Some(c),
                Err(e) => {
                    return Err(e);
                },
            }
        } else {
            None
        };

        let g = UGenericProperty {
            u_field,
            array_dim,
            property_flags,
            rep_notify_func,
            blueprint_replication_condition,
        };
        proof {
            let d = old(reader).data@;
            let plen = generic_parse_len(*asset);
            lemma_subrange_concat(d, p0, p0 + o, reader.pos as int);
            lemma_subrange_concat(d, p0 + o, p1 + 4, reader.pos as int);
            lemma_subrange_concat(d, p2, p2 + 8, reader.pos as int);
            lemma_subrange_concat(d, p3, p4, reader.pos as int);
            assert(ByteReader::taken(*old(reader), *reader) =~= generic_bytes(*asset, g));
            assert(generic_parse_ok(*asset, b));
        }
        Ok(g)
    }
}


/// Reads one raw package index.
fn read_index(reader: &mut ByteReader) -> (r: Result<PackageIndex, Error>)
    requires
        old(reader).wf(),
    ensures
        ByteReader::advanced(*old(reader), *final(reader)),
        r is Ok <==> old(reader).remaining() >= 4,
        match r {
            Ok(p) => ByteReader::taken(*old(reader), *final(reader)) == le_i32(p.index)
                && final(reader).pos == old(reader).pos + 4,
            Err(e) => e.is_io() && *final(reader) == *old(reader),
        },
{
    match reader.read_i32() {
        Ok(x) => Ok(PackageIndex::new(x)),
        Err(e) => Err(e),
    }
}


/// Descriptor of a declared property carrying two extra type references.
#[derive(Debug)]
pub struct UEnumProperty {
    pub generic_property: UGenericProperty,
    pub value: PackageIndex,
    pub underlying_prop: PackageIndex,
}

impl UEnumProperty {
    /// Reads the generic header, then the two trailing indexes.
    pub fn new(asset: &Asset, reader: &mut ByteReader) -> (r: Result<Self, Error>)
        requires
            asset.wf(),
            old(reader).wf(),
        ensures
            ByteReader::advanced(*old(reader), *final(reader)),
            r is Ok <==> generic_parse_ok(*asset, old(reader).rest())
                && old(reader).remaining() >= generic_parse_len(*asset) + 8,
            match r {
                Ok(d) => {
                    &&& wf_generic(*asset, d.generic_property)
                    &&& ByteReader::taken(*old(reader), *final(reader)) == desc2_bytes(
                        *asset,
                        d.generic_property,
                        d.value,
                        d.underlying_prop,
                    )
                    &&& final(reader).pos == old(reader).pos + generic_parse_len(*asset) + 8
                },
                Err(e) => e.is_io() || e.is_invalid_file() || e.is_invalid_enum_value(),
            },
            old(reader).remaining() >= ufield_len(*asset) + 4 && !(0 <= dec_i32(
                old(reader).rest().subrange(ufield_len(*asset), ufield_len(*asset) + 4),
            ) <= 2) ==> (r matches Err(e) && e.is_invalid_enum_value()),
            old(reader).remaining() >= ufield_len(*asset) + 12 && 0 <= dec_i32(
                old(reader).rest().subrange(ufield_len(*asset), ufield_len(*asset) + 4),
            ) <= 2 && !valid_property_flags(dec_u64(
                old(reader).rest().subrange(ufield_len(*asset) + 4, ufield_len(*asset) + 12),
            )) ==> (r matches Err(e) && e.is_invalid_enum_value()),
    {
        let generic_property = match UGenericProperty::new(asset, reader) {
            Ok(g) => g,
            Err(e) => {
                return Err(e);
            },
        };
        let ghost m1 = *reader;
        let value = match read_index(reader) {
            Ok(p) => p,
            Err(e) => {
                return Err(e);
            },
        };
        let ghost m2 = *reader;
        let underlying_prop = match read_index(reader) {
            Ok(p) => p,
            Err(e) => {
                return Err(e);
            },
        };
        proof {
            let d = old(reader).data@;
            lemma_subrange_concat(d, old(reader).pos as int, m1.pos as int, m2.pos as int);
            lemma_subrange_concat(d, old(reader).pos as int, m2.pos as int, reader.pos as int);
        }
        Ok(UEnumProperty { generic_property, value, underlying_prop })
    }
}


/// Descriptor of a declared property carrying two extra type references.
#[derive(Debug)]
pub struct UClassProperty {
    pub generic_property: UGenericProperty,
    pub property_class: PackageIndex,
    pub meta_class: PackageIndex,
}

impl UClassProperty {
    /// Reads the generic header, then the two trailing indexes.
    pub fn new(asset: &Asset, reader: &mut ByteReader) -> (r: Result<Self, Error>)
        requires
            asset.wf(),
            old(reader).wf(),
        ensures
            ByteReader::advanced(*old(reader), *final(reader)),
            r is Ok <==> generic_parse_ok(*asset, old(reader).rest())
                && old(reader).remaining() >= generic_parse_len(*asset) + 8,
            match r {
                Ok(d) => {
                    &&& wf_generic(*asset, d.generic_property)
                    &&& ByteReader::taken(*old(reader), *final(reader)) == desc2_bytes(
                        *asset,
                        d.generic_property,
                        d.property_class,
                        d.meta_class,
                    )
                    &&& final(reader).pos == old(reader).pos + generic_parse_len(*asset) + 8
                },
                Err(e) => e.is_io() || e.is_invalid_file() || e.is_invalid_enum_value(),
            },
            old(reader).remaining() >= ufield_len(*asset) + 4 && !(0 <= dec_i32(
                old(reader).rest().subrange(ufield_len(*asset), ufield_len(*asset) + 4),
            ) <= 2) ==> (r matches Err(e) && e.is_invalid_enum_value()),
            old(reader).remaining() >= ufield_len(*asset) + 12 && 0 <= dec_i32(
                old(reader).rest().subrange(ufield_len(*asset), ufield_len(*asset) + 4),
            ) <= 2 && !valid_property_flags(dec_u64(
                old(reader).rest().subrange(ufield_len(*asset) + 4, ufield_len(*asset) + 12),
            )) ==> (r matches Err(e) && e.is_invalid_enum_value()),
    {
        let generic_property = match UGenericProperty::new(asset, reader) {
            Ok(g) => g,
            Err(e) => {
                return Err(e);
            },
        };
        let ghost m1 = *reader;
        let property_class = match read_index(reader) {
            Ok(p) => p,
            Err(e) => {
                return Err(e);
            },
        };
        let ghost m2 = *reader;
        let meta_class = match read_index(reader) {
            Ok(p) => p,
            Err(e) => {
                return Err(e);
            },
        };
        proof {
            let d = old(reader).data@;
            lemma_subrange_concat(d, old(reader).pos as int, m1.pos as int, m2.pos as int);
            lemma_subrange_concat(d, old(reader).pos as int, m2.pos as int, reader.pos as int);
        }
        Ok(UClassProperty { generic_property, property_class, meta_class })
    }
}


/// Descriptor of a declared property carrying two extra type references.
#[derive(Debug)]
pub struct USoftClassProperty {
    pub generic_property: UGenericProperty,
    pub property_class: PackageIndex,
    pub meta_class: PackageIndex,
}

impl USoftClassProperty {
    /// Reads the generic header, then the two trailing indexes.
    pub fn new(asset: &Asset, reader: &mut ByteReader) -> (r: Result<Self, Error>)
        requires
            asset.wf(),
            old(reader).wf(),
        ensures
            ByteReader::advanced(*old(reader), *final(reader)),
            r is Ok <==> generic_parse_ok(*asset, old(reader).rest())
                && old(reader).remaining() >= generic_parse_len(*asset) + 8,
            match r {
                Ok(d) => {
                    &&& wf_generic(*asset, d.generic_property)
                    &&& ByteReader::taken(*old(reader), *final(reader)) == desc2_bytes(
                        *asset,
                        d.generic_property,
                        d.property_class,
                        d.meta_class,
                    )
                    &&& final(reader).pos == old(reader).pos + generic_parse_len(*asset) + 8
                },
                Err(e) => e.is_io() || e.is_invalid_file() || e.is_invalid_enum_value(),
            },
            old(reader).remaining() >= ufield_len(*asset) + 4 && !(0 <= dec_i32(
                old(reader).rest().subrange(ufield_len(*asset), ufield_len(*asset) + 4),
            ) <= 2) ==> (r matches Err(e) && e.is_invalid_enum_value()),
            old(reader).remaining() >= ufield_len(*asset) + 12 && 0 <= dec_i32(
                old(reader).rest().subrange(ufield_len(*asset), ufield_len(*asset) + 4),
            ) <= 2 && !valid_property_flags(dec_u64(
                old(reader).rest().subrange(ufield_len(*asset) + 4, ufield_len(*asset) + 12),
            )) ==> (r matches Err(e) && e.is_invalid_enum_value()),
    {
        let generic_property = match UGenericProperty::new(asset, reader) {
            Ok(g) => g,
            Err(e) => {
                return Err(e);
            },
        };
        let ghost m1 = *reader;
        let property_class = match read_index(reader) {
            Ok(p) => p,
            Err(e) => {
                return Err(e);
            },
        };
        let ghost m2 = *reader;
        let meta_class = match read_index(reader) {
            Ok(p) => p,
            Err(e) => {
                return Err(e);
            },
        };
        proof {
            let d = old(reader).data@;
            lemma_subrange_concat(d, old(reader).pos as int, m1.pos as int, m2.pos as int);
            lemma_subrange_concat(d, old(reader).pos as int, m2.pos as int, reader.pos as int);
        }
        Ok(USoftClassProperty { generic_property, property_class, meta_class })
    }
}


/// Descriptor of a declared property carrying two extra type references.
#[derive(Debug)]
pub struct UMapProperty {
    pub generic_property: UGenericProperty,
    pub key_prop: PackageIndex,
    pub value_prop: PackageIndex,
}

impl UMapProperty {
    /// Reads the generic header, then the two trailing indexes.
    pub fn new(asset: &Asset, reader: &mut ByteReader) -> (r: Result<Self, Error>)
        requires
            asset.wf(),
            old(reader).wf(),
        ensures
            ByteReader::advanced(*old(reader), *final(reader)),
            r is Ok <==> generic_parse_ok(*asset, old(reader).rest())
                && old(reader).remaining() >= generic_parse_len(*asset) + 8,
            match r {
                Ok(d) => {
                    &&& wf_generic(*asset, d.generic_property)
                    &&& ByteReader::taken(*old(reader), *final(reader)) == desc2_bytes(
                        *asset,
                        d.generic_property,
                        d.key_prop,
                        d.value_prop,
                    )
                    &&& final(reader).pos == old(reader).pos + generic_parse_len(*asset) + 8
                },
                Err(e) => e.is_io() || e.is_invalid_file() || e.is_invalid_enum_value(),
            },
            old(reader).remaining() >= ufield_len(*asset) + 4 && !(0 <= dec_i32(
                old(reader).rest().subrange(ufield_len(*asset), ufield_len(*asset) + 4),
            ) <= 2) ==> (r matches Err(e) && e.is_invalid_enum_value()),
            old(reader).remaining() >= ufield_len(*asset) + 12 && 0 <= dec_i32(
                old(reader).rest().subrange(ufield_len(*asset), ufield_len(*asset) + 4),
            ) <= 2 && !valid_property_flags(dec_u64(
                old(reader).rest().subrange(ufield_len(*asset) + 4, ufield_len(*asset) + 12),
            )) ==> (r matches Err(e) && e.is_invalid_enum_value()),
    {
        let generic_property = match UGenericProperty::new(asset, reader) {
            Ok(g) => g,
            Err(e) => {
                return Err(e);
            },
        };
        let ghost m1 = *reader;
        let key_prop = match read_index(reader) {
            Ok(p) => p,
            Err(e) => {
                return Err(e);
            },
        };
        let ghost m2 = *reader;
        let value_prop = match read_index(reader) {
            Ok(p) => p,
            Err(e) => {
                return Err(e);
            },
        };
        proof {
            let d = old(reader).data@;
            lemma_subrange_concat(d, old(reader).pos as int, m1.pos as int, m2.pos as int);
            lemma_subrange_concat(d, old(reader).pos as int, m2.pos as int, reader.pos as int);
        }
        Ok(UMapProperty { generic_property, key_prop, value_prop })
    }
}


/// Descriptor of a declared property carrying one extra type reference.
#[derive(Debug)]
pub struct UArrayProperty {
    pub generic_property: UGenericProperty,
    pub inner: PackageIndex,
}

impl UArrayProperty {
    /// Reads the generic header, then the trailing index.
    pub fn new(asset: &Asset, reader: &mut ByteReader) -> (r: Result<Self, Error>)
        requires
            asset.wf(),
            old(reader).wf(),
        ensures
            ByteReader::advanced(*old(reader), *final(reader)),
            r is Ok <==> generic_parse_ok(*asset, old(reader).rest())
                && old(reader).remaining() >= generic_parse_len(*asset) + 4,
            match r {
                Ok(d) => {
                    &&& wf_generic(*asset, d.generic_property)
                    &&& ByteReader::taken(*old(reader), *final(reader)) == desc1_bytes(
                        *asset,
                        d.generic_property,
                        d.inner,
                    )
                    &&& final(reader).pos == old(reader).pos + generic_parse_len(*asset) + 4
                },
                Err(e) => e.is_io() || e.is_invalid_file() || e.is_invalid_enum_value(),
            },
            old(reader).remaining() >= ufield_len(*asset) + 4 && !(0 <= dec_i32(
                old(reader).rest().subrange(ufield_len(*asset), ufield_len(*asset) + 4),
            ) <= 2) ==> (r matches Err(e) && e.is_invalid_enum_value()),
            old(reader).remaining() >= ufield_len(*asset) + 12 && 0 <= dec_i32(
                old(reader).rest().subrange(ufield_len(*asset), ufield_len(*asset) + 4),
            ) <= 2 && !valid_property_flags(dec_u64(
                old(reader).rest().subrange(ufield_len(*asset) + 4, ufield_len(*asset) + 12),
            )) ==> (r matches Err(e) && e.is_invalid_enum_value()),
    {
        let generic_property = match UGenericProperty::new(asset, reader) {
            Ok(g) => g,
            Err(e) => {
                return Err(e);
            },
        };
        let ghost m1 = *reader;
        let inner = match read_index(reader) {
            Ok(p) => p,
            Err(e) => {
                return Err(e);
            },
        };
        proof {
            let d = old(reader).data@;
            lemma_subrange_concat(d, old(reader).pos as int, m1.pos as int, reader.pos as int);
        }
        Ok(UArrayProperty { generic_property, inner })
    }
}


/// Descriptor of a declared property carrying one extra type reference.
#[derive(Debug)]
pub struct USetProperty {
    pub generic_property: UGenericProperty,
    pub element_prop: PackageIndex,
}

impl USetProperty {
    /// Reads the generic header, then the trailing index.
    pub fn new(asset: &Asset, reader: &mut ByteReader) -> (r: Result<Self, Error>)
        requires
            asset.wf(),
            old(reader).wf(),
        ensures
            ByteReader::advanced(*old(reader), *final(reader)),
            r is Ok <==> generic_parse_ok(*asset, old(reader).rest())
                && old(reader).remaining() >= generic_parse_len(*asset) + 4,
            match r {
                Ok(d) => {
                    &&& wf_generic(*asset, d.generic_property)
                    &&& ByteReader::taken(*old(reader), *final(reader)) == desc1_bytes(
                        *asset,
                        d.generic_property,
                        d.element_prop,
                    )
                    &&& final(reader).pos == old(reader).pos + generic_parse_len(*asset) + 4
                },
                Err(e) => e.is_io() || e.is_invalid_file() || e.is_invalid_enum_value(),
            },
            old(reader).remaining() >= ufield_len(*asset) + 4 && !(0 <= dec_i32(
                old(reader).rest().subrange(ufield_len(*asset), ufield_len(*asset) + 4),
            ) <= 2) ==> (r matches Err(e) && e.is_invalid_enum_value()),
            old(reader).remaining() >= ufield_len(*asset) + 12 && 0 <= dec_i32(
                old(reader).rest().subrange(ufield_len(*asset), ufield_len(*asset) + 4),
            ) <= 2 && !valid_property_flags(dec_u64(
                old(reader).rest().subrange(ufield_len(*asset) + 4, ufield_len(*asset) + 12),
            )) ==> (r matches Err(e) && e.is_invalid_enum_value()),
    {
        let generic_property = match UGenericProperty::new(asset, reader) {
            Ok(g) => g,
            Err(e) => {
                return Err(e);
            },
        };
        let ghost m1 = *reader;
        let element_prop = match read_index(reader) {
            Ok(p) => p,
            Err(e) => {
                return Err(e);
            },
        };
        proof {
            let d = old(reader).data@;
            lemma_subrange_concat(d, old(reader).pos as int, m1.pos as int, reader.pos as int);
        }
        Ok(USetProperty { generic_property, element_prop })
    }
}


/// Descriptor of a declared property carrying one extra type reference.
#[derive(Debug)]
pub struct UObjectProperty {
    pub generic_property: UGenericProperty,
    pub property_class: PackageIndex,
}

impl UObjectProperty {
    /// Reads the generic header, then the trailing index.
    pub fn new(asset: &Asset, reader: &mut ByteReader) -> (r: Result<Self, Error>)
        requires
            asset.wf(),
            old(reader).wf(),
        ensures
            ByteReader::advanced(*old(reader), *final(reader)),
            r is Ok <==> generic_parse_ok(*asset, old(reader).rest())
                && old(reader).remaining() >= generic_parse_len(*asset) + 4,
            match r {
                Ok(d) => {
                    &&& wf_generic(*asset, d.generic_property)
                    &&& ByteReader::taken(*old(reader), *final(reader)) == desc1_bytes(
                        *asset,
                        d.generic_property,
                        d.property_class,
                    )
                    &&& final(reader).pos == old(reader).pos + generic_parse_len(*asset) + 4
                },
                Err(e) => e.is_io() || e.is_invalid_file() || e.is_invalid_enum_value(),
            },
            old(reader).remaining() >= ufield_len(*asset) + 4 && !(0 <= dec_i32(
                old(reader).rest().subrange(ufield_len(*asset), ufield_len(*asset) + 4),
            ) <= 2) ==> (r matches Err(e) && e.is_invalid_enum_value()),
            old(reader).remaining() >= ufield_len(*asset) + 12 && 0 <= dec_i32(
                old(reader).rest().subrange(ufield_len(*asset), ufield_len(*asset) + 4),
            ) <= 2 && !valid_property_flags(dec_u64(
                old(reader).rest().subrange(ufield_len(*asset) + 4, ufield_len(*asset) + 12),
            )) ==> (r matches Err(e) && e.is_invalid_enum_value()),
    {
        let generic_property = match UGenericProperty::new(asset, reader) {
            Ok(g) => g,
            Err(e) => {
                return Err(e);
            },
        };
        let ghost m1 = *reader;
        let property_class = match read_index(reader) {
            Ok(p) => p,
            Err(e) => {
                return Err(e);
            },
        };
        proof {
            let d = old(reader).data@;
            lemma_subrange_concat(d, old(reader).pos as int, m1.pos as int, reader.pos as int);
        }
        Ok(UObjectProperty { generic_property, property_class })
    }
}


/// Descriptor of a declared property carrying one extra type reference.
#[derive(Debug)]
pub struct USoftObjectProperty {
    pub generic_property: UGenericProperty,
    pub property_class: PackageIndex,
}

impl USoftObjectProperty {
    /// Reads the generic header, then the trailing index.
    pub fn new(asset: &Asset, reader: &mut ByteReader) -> (r: Result<Self, Error>)
        requires
            asset.wf(),
            old(reader).wf(),
        ensures
            ByteReader::advanced(*old(reader), *final(reader)),
            r is Ok <==> generic_parse_ok(*asset, old(reader).rest())
                && old(reader).remaining() >= generic_parse_len(*asset) + 4,
            match r {
                Ok(d) => {
                    &&& wf_generic(*asset, d.generic_property)
                    &&& ByteReader::taken(*old(reader), *final(reader)) == desc1_bytes(
                        *asset,
                        d.generic_property,
                        d.property_class,
                    )
                    &&& final(reader).pos == old(reader).pos + generic_parse_len(*asset) + 4
                },
                Err(e) => e.is_io() || e.is_invalid_file() || e.is_invalid_enum_value(),
            },
            old(reader).remaining() >= ufield_len(*asset) + 4 && !(0 <= dec_i32(
                old(reader).rest().subrange(ufield_len(*asset), ufield_len(*asset) + 4),
            ) <= 2) ==> (r matches Err(e) && e.is_invalid_enum_value()),
            old(reader).remaining() >= ufield_len(*asset) + 12 && 0 <= dec_i32(
                old(reader).rest().subrange(ufield_len(*asset), ufield_len(*asset) + 4),
            ) <= 2 && !valid_property_flags(dec_u64(
                old(reader).rest().subrange(ufield_len(*asset) + 4, ufield_len(*asset) + 12),
            )) ==> (r matches Err(e) && e.is_invalid_enum_value()),
    {
        let generic_property = match UGenericProperty::new(asset, reader) {
            Ok(g) => g,
            Err(e) => {
                return Err(e);
            },
        };
        let ghost m1 = *reader;
        let property_class = match read_index(reader) {
            Ok(p) => p,
            Err(e) => {
                return Err(e);
            },
        };
        proof {
            let d = old(reader).data@;
            lemma_subrange_concat(d, old(reader).pos as int, m1.pos as int, reader.pos as int);
        }
        Ok(USoftObjectProperty { generic_property, property_class })
    }
}


/// Descriptor of a declared property carrying one extra type reference.
#[derive(Debug)]
pub struct ULazyObjectProperty {
    pub generic_property: UGenericProperty,
    pub property_class: PackageIndex,
}

impl ULazyObjectProperty {
    /// Reads the generic header, then the trailing index.
    pub fn new(asset: &Asset, reader: &mut ByteReader) -> (r: Result<Self, Error>)
        requires
            asset.wf(),
            old(reader).wf(),
        ensures
            ByteReader::advanced(*old(reader), *final(reader)),
            r is Ok <==> generic_parse_ok(*asset, old(reader).rest())
                && old(reader).remaining() >= generic_parse_len(*asset) + 4,
            match r {
                Ok(d) => {
                    &&& wf_generic(*asset, d.generic_property)
                    &&& ByteReader::taken(*old(reader), *final(reader)) == desc1_bytes(
                        *asset,
                        d.generic_property,
                        d.property_class,
                    )
                    &&& final(reader).pos == old(reader).pos + generic_parse_len(*asset) + 4
                },
                Err(e) => e.is_io() || e.is_invalid_file() || e.is_invalid_enum_value(),
            },
            old(reader).remaining() >= ufield_len(*asset) + 4 && !(0 <= dec_i32(
                old(reader).rest().subrange(ufield_len(*asset), ufield_len(*asset) + 4),
            ) <= 2) ==> (r matches Err(e) && e.is_invalid_enum_value()),
            old(reader).remaining() >= ufield_len(*asset) + 12 && 0 <= dec_i32(
                old(reader).rest().subrange(ufield_len(*asset), ufield_len(*asset) + 4),
            ) <= 2 && !valid_property_flags(dec_u64(
                old(reader).rest().subrange(ufield_len(*asset) + 4, ufield_len(*asset) + 12),
            )) ==> (r matches Err(e) && e.is_invalid_enum_value()),
    {
        let generic_property = match UGenericProperty::new(asset, reader) {
            Ok(g) => g,
            Err(e) => {
                return Err(e);
            },
        };
        let ghost m1 = *reader;
        let property_class = match read_index(reader) {
            Ok(p) => p,
            Err(e) => {
                return Err(e);
            },
        };
        proof {
            let d = old(reader).data@;
            lemma_subrange_concat(d, old(reader).pos as int, m1.pos as int, reader.pos as int);
        }
        Ok(ULazyObjectProperty { generic_property, property_class })
    }
}


/// Descriptor of a declared property carrying one extra type reference.
#[derive(Debug)]
pub struct UDelegateProperty {
    pub generic_property: UGenericProperty,
    pub signature_function: PackageIndex,
}

impl UDelegateProperty {
    /// Reads the generic header, then the trailing index.
    pub fn new(asset: &Asset, reader: &mut ByteReader) -> (r: Result<Self, Error>)
        requires
            asset.wf(),
            old(reader).wf(),
        ensures
            ByteReader::advanced(*old(reader), *final(reader)),
            r is Ok <==> generic_parse_ok(*asset, old(reader).rest())
                && old(reader).remaining() >= generic_parse_len(*asset) + 4,
            match r {
                Ok(d) => {
                    &&& wf_generic(*asset, d.generic_property)
                    &&& ByteReader::taken(*old(reader), *final(reader)) == desc1_bytes(
                        *asset,
                        d.generic_property,
                        d.signature_function,
                    )
                    &&& final(reader).pos == old(reader).pos + generic_parse_len(*asset) + 4
                },
                Err(e) => e.is_io() || e.is_invalid_file() || e.is_invalid_enum_value(),
            },
            old(reader).remaining() >= ufield_len(*asset) + 4 && !(0 <= dec_i32(
                old(reader).rest().subrange(ufield_len(*asset), ufield_len(*asset) + 4),
            ) <= 2) ==> (r matches Err(e) && e.is_invalid_enum_value()),
            old(reader).remaining() >= ufield_len(*asset) + 12 && 0 <= dec_i32(
                old(reader).rest().subrange(ufield_len(*asset), ufield_len(*asset) + 4),
            ) <= 2 && !valid_property_flags(dec_u64(
                old(reader).rest().subrange(ufield_len(*asset) + 4, ufield_len(*asset) + 12),
            )) ==> (r matches Err(e) && e.is_invalid_enum_value()),
    {
        let generic_property = match UGenericProperty::new(asset, reader) {
            Ok(g) => g,
            Err(e) => {
                return Err(e);
            },
        };
        let ghost m1 = *reader;
        let signature_function = match read_index(reader) {
            Ok(p) => p,
            Err(e) => {
                return Err(e);
            },
        };
        proof {
            let d = old(reader).data@;
            lemma_subrange_concat(d, old(reader).pos as int, m1.pos as int, reader.pos as int);
        }
        Ok(UDelegateProperty { generic_property, signature_function })
    }
}


/// Descriptor of a declared property carrying one extra type reference.
#[derive(Debug)]
pub struct UMulticastDelegateProperty {
    pub generic_property: UGenericProperty,
    pub signature_function: PackageIndex,
}

impl UMulticastDelegateProperty {
    /// Reads the generic header, then the trailing index.
    pub fn new(asset: &Asset, reader: &mut ByteReader) -> (r: Result<Self, Error>)
        requires
            asset.wf(),
            old(reader).wf(),
        ensures
            ByteReader::advanced(*old(reader), *final(reader)),
            r is Ok <==> generic_parse_ok(*asset, old(reader).rest())
                && old(reader).remaining() >= generic_parse_len(*asset) + 4,
            match r {
                Ok(d) => {
                    &&& wf_generic(*asset, d.generic_property)
                    &&& ByteReader::taken(*old(reader), *final(reader)) == desc1_bytes(
                        *asset,
                        d.generic_property,
                        d.signature_function,
                    )
                    &&& final(reader).pos == old(reader).pos + generic_parse_len(*asset) + 4
                },
                Err(e) => e.is_io() || e.is_invalid_file() || e.is_invalid_enum_value(),
            },
            old(reader).remaining() >= ufield_len(*asset) + 4 && !(0 <= dec_i32(
                old(reader).rest().subrange(ufield_len(*asset), ufield_len(*asset) + 4),
            ) <= 2) ==> (r matches Err(e) && e.is_invalid_enum_value()),
            old(reader).remaining() >= ufield_len(*asset) + 12 && 0 <= dec_i32(
                old(reader).rest().subrange(ufield_len(*asset), ufield_len(*asset) + 4),
            ) <= 2 && !valid_property_flags(dec_u64(
                old(reader).rest().subrange(ufield_len(*asset) + 4, ufield_len(*asset) + 12),
            )) ==> (r matches Err(e) && e.is_invalid_enum_value()),
    {
        let generic_property = match UGenericProperty::new(asset, reader) {
            Ok(g) => g,
            Err(e) => {
                return Err(e);
            },
        };
        let ghost m1 = *reader;
        let signature_function = match read_index(reader) {
            Ok(p) => p,
            Err(e) => {
                return Err(e);
            },
        };
        proof {
            let d = old(reader).data@;
            lemma_subrange_concat(d, old(reader).pos as int, m1.pos as int, reader.pos as int);
        }
        Ok(UMulticastDelegateProperty { generic_property, signature_function })
    }
}


/// Descriptor of a declared property carrying one extra type reference.
#[derive(Debug)]
pub struct UMulticastInlineDelegateProperty {
    pub generic_property: UGenericProperty,
    pub signature_function: PackageIndex,
}

impl UMulticastInlineDelegateProperty {
    /// Reads the generic header, then the trailing index.
    pub fn new(asset: &Asset, reader: &mut ByteReader) -> (r: Result<Self, Error>)
        requires
            asset.wf(),
            old(reader).wf(),
        ensures
            ByteReader::advanced(*old(reader), *final(reader)),
            r is Ok <==> generic_parse_ok(*asset, old(reader).rest())
                && old(reader).remaining() >= generic_parse_len(*asset) + 4,
            match r {
                Ok(d) => {
                    &&& wf_generic(*asset, d.generic_property)
                    &&& ByteReader::taken(*old(reader), *final(reader)) == desc1_bytes(
                        *asset,
                        d.generic_property,
                        d.signature_function,
                    )
                    &&& final(reader).pos == old(reader).pos + generic_parse_len(*asset) + 4
                },
                Err(e) => e.is_io() || e.is_invalid_file() || e.is_invalid_enum_value(),
            },
            old(reader).remaining() >= ufield_len(*asset) + 4 && !(0 <= dec_i32(
                old(reader).rest().subrange(ufield_len(*asset), ufield_len(*asset) + 4),
            ) <= 2) ==> (r matches Err(e) && e.is_invalid_enum_value()),
            old(reader).remaining() >= ufield_len(*asset) + 12 && 0 <= dec_i32(
                old(reader).rest().subrange(ufield_len(*asset), ufield_len(*asset) + 4),
            ) <= 2 && !valid_property_flags(dec_u64(
                old(reader).rest().subrange(ufield_len(*asset) + 4, ufield_len(*asset) + 12),
            )) ==> (r matches Err(e) && e.is_invalid_enum_value()),
    {
        let generic_property = match UGenericProperty::new(asset, reader) {
            Ok(g) => g,
            Err(e) => {
                return Err(e);
            },
        };
        let ghost m1 = *reader;
        let signature_function = match read_index(reader) {
            Ok(p) => p,
            Err(e) => {
                return Err(e);
            },
        };
        proof {
            let d = old(reader).data@;
            lemma_subrange_concat(d, old(reader).pos as int, m1.pos as int, reader.pos as int);
        }
        Ok(UMulticastInlineDelegateProperty { generic_property, signature_function })
    }
}


/// Descriptor of a declared property carrying one extra type reference.
#[derive(Debug)]
pub struct UInterfaceProperty {
    pub generic_property: UGenericProperty,
    pub interface_class: PackageIndex,
}

impl UInterfaceProperty {
    /// Reads the generic header, then the trailing index.
    pub fn new(asset: &Asset, reader: &mut ByteReader) -> (r: Result<Self, Error>)
        requires
            asset.wf(),
            old(reader).wf(),
        ensures
            ByteReader::advanced(*old(reader), *final(reader)),
            r is Ok <==> generic_parse_ok(*asset, old(reader).rest())
                && old(reader).remaining() >= generic_parse_len(*asset) + 4,
            match r {
                Ok(d) => {
                    &&& wf_generic(*asset, d.generic_property)
                    &&& ByteReader::taken(*old(reader), *final(reader)) == desc1_bytes(
                        *asset,
                        d.generic_property,
                        d.interface_class,
                    )
                    &&& final(reader).pos == old(reader).pos + generic_parse_len(*asset) + 4
                },
                Err(e) => e.is_io() || e.is_invalid_file() || e.is_invalid_enum_value(),
            },
            old(reader).remaining() >= ufield_len(*asset) + 4 && !(0 <= dec_i32(
                old(reader).rest().subrange(ufield_len(*asset), ufield_len(*asset) + 4),
            ) <= 2) ==> (r matches Err(e) && e.is_invalid_enum_value()),
            old(reader).remaining() >= ufield_len(*asset) + 12 && 0 <= dec_i32(
                old(reader).rest().subrange(ufield_len(*asset), ufield_len(*asset) + 4),
            ) <= 2 && !valid_property_flags(dec_u64(
                old(reader).rest().subrange(ufield_len(*asset) + 4, ufield_len(*asset) + 12),
            )) ==> (r matches Err(e) && e.is_invalid_enum_value()),
    {
        let generic_property = match UGenericProperty::new(asset, reader) {
            Ok(g) => g,
            Err(e) => {
                return Err(e);
            },
        };
        let ghost m1 = *reader;
        let interface_class = match read_index(reader) {
            Ok(p) => p,
            Err(e) => {
                return Err(e);
            },
        };
        proof {
            let d = old(reader).data@;
            lemma_subrange_concat(d, old(reader).pos as int, m1.pos as int, reader.pos as int);
        }
        Ok(UInterfaceProperty { generic_property, interface_class })
    }
}


/// Descriptor of a declared property carrying one extra type reference.
#[derive(Debug)]
pub struct UByteProperty {
    pub generic_property: UGenericProperty,
    pub enum_value: PackageIndex,
}

impl UByteProperty {
    /// Reads the generic header, then the trailing index.
    pub fn new(asset: &Asset, reader: &mut ByteReader) -> (r: Result<Self, Error>)
        requires
            asset.wf(),
            old(reader).wf(),
        ensures
            ByteReader::advanced(*old(reader), *final(reader)),
            r is Ok <==> generic_parse_ok(*asset, old(reader).rest())
                && old(reader).remaining() >= generic_parse_len(*asset) + 4,
            match r {
                Ok(d) => {
                    &&& wf_generic(*asset, d.generic_property)
                    &&& ByteReader::taken(*old(reader), *final(reader)) == desc1_bytes(
                        *asset,
                        d.generic_property,
                        d.enum_value,
                    )
                    &&& final(reader).pos == old(reader).pos + generic_parse_len(*asset) + 4
                },
                Err(e) => e.is_io() || e.is_invalid_file() || e.is_invalid_enum_value(),
            },
            old(reader).remaining() >= ufield_len(*asset) + 4 && !(0 <= dec_i32(
                old(reader).rest().subrange(ufield_len(*asset), ufield_len(*asset) + 4),
            ) <= 2) ==> (r matches Err(e) && e.is_invalid_enum_value()),
            old(reader).remaining() >= ufield_len(*asset) + 12 && 0 <= dec_i32(
                old(reader).rest().subrange(ufield_len(*asset), ufield_len(*asset) + 4),
            ) <= 2 && !valid_property_flags(dec_u64(
                old(reader).rest().subrange(ufield_len(*asset) + 4, ufield_len(*asset) + 12),
            )) ==> (r matches Err(e) && e.is_invalid_enum_value()),
    {
        let generic_property = match UGenericProperty::new(asset, reader) {
            Ok(g) => g,
            Err(e) => {
                return Err(e);
            },
        };
        let ghost m1 = *reader;
        let enum_value = match read_index(reader) {
            Ok(p) => p,
            Err(e) => {
                return Err(e);
            },
        };
        proof {
            let d = old(reader).data@;
            lemma_subrange_concat(d, old(reader).pos as int, m1.pos as int, reader.pos as int);
        }
        Ok(UByteProperty { generic_property, enum_value })
    }
}


/// Descriptor of a declared property carrying one extra type reference.
#[derive(Debug)]
pub struct UStructProperty {
    pub generic_property: UGenericProperty,
    pub struct_value: PackageIndex,
}

impl UStructProperty {
    /// Reads the generic header, then the trailing index.
    pub fn new(asset: &Asset, reader: &mut ByteReader) -> (r: Result<Self, Error>)
        requires
            asset.wf(),
            old(reader).wf(),
        ensures
            ByteReader::advanced(*old(reader), *final(reader)),
            r is Ok <==> generic_parse_ok(*asset, old(reader).rest())
                && old(reader).remaining() >= generic_parse_len(*asset) + 4,
            match r {
                Ok(d) => {
                    &&& wf_generic(*asset, d.generic_property)
                    &&& ByteReader::taken(*old(reader), *final(reader)) == desc1_bytes(
                        *asset,
                        d.generic_property,
                        d.struct_value,
                    )
                    &&& final(reader).pos == old(reader).pos + generic_parse_len(*asset) + 4
                },
                Err(e) => e.is_io() || e.is_invalid_file() || e.is_invalid_enum_value(),
            },
            old(reader).remaining() >= ufield_len(*asset) + 4 && !(0 <= dec_i32(
                old(reader).rest().subrange(ufield_len(*asset), ufield_len(*asset) + 4),
            ) <= 2) ==> (r matches Err(e) && e.is_invalid_enum_value()),
            old(reader).remaining() >= ufield_len(*asset) + 12 && 0 <= dec_i32(
                old(reader).rest().subrange(ufield_len(*asset), ufield_len(*asset) + 4),
            ) <= 2 && !valid_property_flags(dec_u64(
                old(reader).rest().subrange(ufield_len(*asset) + 4, ufield_len(*asset) + 12),
            )) ==> (r matches Err(e) && e.is_invalid_enum_value()),
    {
        let generic_property = match UGenericProperty::new(asset, reader) {
            Ok(g) => g,
            Err(e) => {
                return Err(e);
            },
        };
        let ghost m1 = *reader;
        let struct_value = match read_index(reader) {
            Ok(p) => p,
            Err(e) => {
                return Err(e);
            },
        };
        proof {
            let d = old(reader).data@;
            lemma_subrange_concat(d, old(reader).pos as int, m1.pos as int, reader.pos as int);
        }
        Ok(UStructProperty { generic_property, struct_value })
    }
}


/// Descriptor of a declared property with no extra fields beyond the
/// generic header.
#[derive(Debug)]
pub struct UDoubleProperty {
    pub generic_property: UGenericProperty,
}

impl UDoubleProperty {
    /// Reads the generic header alone.
    pub fn new(asset: &Asset, reader: &mut ByteReader) -> (r: Result<Self, Error>)
        requires
            asset.wf(),
            old(reader).wf(),
        ensures
            ByteReader::advanced(*old(reader), *final(reader)),
            r is Ok <==> generic_parse_ok(*asset, old(reader).rest()),
            match r {
                Ok(d) => {
                    &&& wf_generic(*asset, d.generic_property)
                    &&& ByteReader::taken(*old(reader), *final(reader)) == generic_bytes(
                        *asset,
                        d.generic_property,
                    )
                    &&& final(reader).pos == old(reader).pos + generic_parse_len(*asset)
                },
                Err(e) => e.is_io() || e.is_invalid_file() || e.is_invalid_enum_value(),
            },
            old(reader).remaining() >= ufield_len(*asset) + 4 && !(0 <= dec_i32(
                old(reader).rest().subrange(ufield_len(*asset), ufield_len(*asset) + 4),
            ) <= 2) ==> (r matches Err(e) && e.is_invalid_enum_value()),
            old(reader).remaining() >= ufield_len(*asset) + 12 && 0 <= dec_i32(
                old(reader).rest().subrange(ufield_len(*asset), ufield_len(*asset) + 4),
            ) <= 2 && !valid_property_flags(dec_u64(
                old(reader).rest().subrange(ufield_len(*asset) + 4, ufield_len(*asset) + 12),
            )) ==> (r matches Err(e) && e.is_invalid_enum_value()),
    {
        let generic_property = match UGenericProperty::new(asset, reader) {
            Ok(g) => g,
            Err(e) => {
                return Err(e);
            },
        };
        Ok(UDoubleProperty { generic_property })
    }
}


/// Descriptor of a declared property with no extra fields beyond the
/// generic header.
#[derive(Debug)]
pub struct UFloatProperty {
    pub generic_property: UGenericProperty,
}

impl UFloatProperty {
    /// Reads the generic header alone.
    pub fn new(asset: &Asset, reader: &mut ByteReader) -> (r: Result<Self, Error>)
        requires
            asset.wf(),
            old(reader).wf(),
        ensures
            ByteReader::advanced(*old(reader), *final(reader)),
            r is Ok <==> generic_parse_ok(*asset, old(reader).rest()),
            match r {
                Ok(d) => {
                    &&& wf_generic(*asset, d.generic_property)
                    &&& ByteReader::taken(*old(reader), *final(reader)) == generic_bytes(
                        *asset,
                        d.generic_property,
                    )
                    &&& final(reader).pos == old(reader).pos + generic_parse_len(*asset)
                },
                Err(e) => e.is_io() || e.is_invalid_file() || e.is_invalid_enum_value(),
            },
            old(reader).remaining() >= ufield_len(*asset) + 4 && !(0 <= dec_i32(
                old(reader).rest().subrange(ufield_len(*asset), ufield_len(*asset) + 4),
            ) <= 2) ==> (r matches Err(e) && e.is_invalid_enum_value()),
            old(reader).remaining() >= ufield_len(*asset) + 12 && 0 <= dec_i32(
                old(reader).rest().subrange(ufield_len(*asset), ufield_len(*asset) + 4),
            ) <= 2 && !valid_property_flags(dec_u64(
                old(reader).rest().subrange(ufield_len(*asset) + 4, ufield_len(*asset) + 12),
            )) ==> (r matches Err(e) && e.is_invalid_enum_value()),
    {
        let generic_property = match UGenericProperty::new(asset, reader) {
            Ok(g) => g,
            Err(e) => {
                return Err(e);
            },
        };
        Ok(UFloatProperty { generic_property })
    }
}


/// Descriptor of a declared property with no extra fields beyond the
/// generic header.
#[derive(Debug)]
pub struct UIntProperty {
    pub generic_property: UGenericProperty,
}

impl UIntProperty {
    /// Reads the generic header alone.
    pub fn new(asset: &Asset, reader: &mut ByteReader) -> (r: Result<Self, Error>)
        requires
            asset.wf(),
            old(reader).wf(),
        ensures
            ByteReader::advanced(*old(reader), *final(reader)),
            r is Ok <==> generic_parse_ok(*asset, old(reader).rest()),
            match r {
                Ok(d) => {
                    &&& wf_generic(*asset, d.generic_property)
                    &&& ByteReader::taken(*old(reader), *final(reader)) == generic_bytes(
                        *asset,
                        d.generic_property,
                    )
                    &&& final(reader).pos == old(reader).pos + generic_parse_len(*asset)
                },
                Err(e) => e.is_io() || e.is_invalid_file() || e.is_invalid_enum_value(),
            },
            old(reader).remaining() >= ufield_len(*asset) + 4 && !(0 <= dec_i32(
                old(reader).rest().subrange(ufield_len(*asset), ufield_len(*asset) + 4),
            ) <= 2) ==> (r matches Err(e) && e.is_invalid_enum_value()),
            old(reader).remaining() >= ufield_len(*asset) + 12 && 0 <= dec_i32(
                old(reader).rest().subrange(ufield_len(*asset), ufield_len(*asset) + 4),
            ) <= 2 && !valid_property_flags(dec_u64(
                old(reader).rest().subrange(ufield_len(*asset) + 4, ufield_len(*asset) + 12),
            )) ==> (r matches Err(e) && e.is_invalid_enum_value()),
    {
        let generic_property = match UGenericProperty::new(asset, reader) {
            Ok(g) => g,
            Err(e) => {
                return Err(e);
            },
        };
        Ok(UIntProperty { generic_property })
    }
}


/// Descriptor of a declared property with no extra fields beyond the
/// generic header.
#[derive(Debug)]
pub struct UInt8Property {
    pub generic_property: UGenericProperty,
}

impl UInt8Property {
    /// Reads the generic header alone.
    pub fn new(asset: &Asset, reader: &mut ByteReader) -> (r: Result<Self, Error>)
        requires
            asset.wf(),
            old(reader).wf(),
        ensures
            ByteReader::advanced(*old(reader), *final(reader)),
            r is Ok <==> generic_parse_ok(*asset, old(reader).rest()),
            match r {
                Ok(d) => {
                    &&& wf_generic(*asset, d.generic_property)
                    &&& ByteReader::taken(*old(reader), *final(reader)) == generic_bytes(
                        *asset,
                        d.generic_property,
                    )
                    &&& final(reader).pos == old(reader).pos + generic_parse_len(*asset)
                },
                Err(e) => e.is_io() || e.is_invalid_file() || e.is_invalid_enum_value(),
            },
            old(reader).remaining() >= ufield_len(*asset) + 4 && !(0 <= dec_i32(
                old(reader).rest().subrange(ufield_len(*asset), ufield_len(*asset) + 4),
            ) <= 2) ==> (r matches Err(e) && e.is_invalid_enum_value()),
            old(reader).remaining() >= ufield_len(*asset) + 12 && 0 <= dec_i32(
                old(reader).rest().subrange(ufield_len(*asset), ufield_len(*asset) + 4),
            ) <= 2 && !valid_property_flags(dec_u64(
                old(reader).rest().subrange(ufield_len(*asset) + 4, ufield_len(*asset) + 12),
            )) ==> (r matches Err(e) && e.is_invalid_enum_value()),
    {
        let generic_property = match UGenericProperty::new(asset, reader) {
            Ok(g) => g,
            Err(e) => {
                return Err(e);
            },
        };
        Ok(UInt8Property { generic_property })
    }
}


/// Descriptor of a declared property with no extra fields beyond the
/// generic header.
#[derive(Debug)]
pub struct UInt16Property {
    pub generic_property: UGenericProperty,
}

impl UInt16Property {
    /// Reads the generic header alone.
    pub fn new(asset: &Asset, reader: &mut ByteReader) -> (r: Result<Self, Error>)
        requires
            asset.wf(),
            old(reader).wf(),
        ensures
            ByteReader::advanced(*old(reader), *final(reader)),
            r is Ok <==> generic_parse_ok(*asset, old(reader).rest()),
            match r {
                Ok(d) => {
                    &&& wf_generic(*asset, d.generic_property)
                    &&& ByteReader::taken(*old(reader), *final(reader)) == generic_bytes(
                        *asset,
                        d.generic_property,
                    )
                    &&& final(reader).pos == old(reader).pos + generic_parse_len(*asset)
                },
                Err(e) => e.is_io() || e.is_invalid_file() || e.is_invalid_enum_value(),
            },
            old(reader).remaining() >= ufield_len(*asset) + 4 && !(0 <= dec_i32(
                old(reader).rest().subrange(ufield_len(*asset), ufield_len(*asset) + 4),
            ) <= 2) ==> (r matches Err(e) && e.is_invalid_enum_value()),
            old(reader).remaining() >= ufield_len(*asset) + 12 && 0 <= dec_i32(
                old(reader).rest().subrange(ufield_len(*asset), ufield_len(*asset) + 4),
            ) <= 2 && !valid_property_flags(dec_u64(
                old(reader).rest().subrange(ufield_len(*asset) + 4, ufield_len(*asset) + 12),
            )) ==> (r matches Err(e) && e.is_invalid_enum_value()),
    {
        let generic_property = match UGenericProperty::new(asset, reader) {
            Ok(g) => g,
            Err(e) => {
                return Err(e);
            },
        };
        Ok(UInt16Property { generic_property })
    }
}


/// Descriptor of a declared property with no extra fields beyond the
/// generic header.
#[derive(Debug)]
pub struct UInt64Property {
    pub generic_property: UGenericProperty,
}

impl UInt64Property {
    /// Reads the generic header alone.
    pub fn new(asset: &Asset, reader: &mut ByteReader) -> (r: Result<Self, Error>)
        requires
            asset.wf(),
            old(reader).wf(),
        ensures
            ByteReader::advanced(*old(reader), *final(reader)),
            r is Ok <==> generic_parse_ok(*asset, old(reader).rest()),
            match r {
                Ok(d) => {
                    &&& wf_generic(*asset, d.generic_property)
                    &&& ByteReader::taken(*old(reader), *final(reader)) == generic_bytes(
                        *asset,
                        d.generic_property,
                    )
                    &&& final(reader).pos == old(reader).pos + generic_parse_len(*asset)
                },
                Err(e) => e.is_io() || e.is_invalid_file() || e.is_invalid_enum_value(),
            },
            old(reader).remaining() >= ufield_len(*asset) + 4 && !(0 <= dec_i32(
                old(reader).rest().subrange(ufield_len(*asset), ufield_len(*asset) + 4),
            ) <= 2) ==> (r matches Err(e) && e.is_invalid_enum_value()),
            old(reader).remaining() >= ufield_len(*asset) + 12 && 0 <= dec_i32(
                old(reader).rest().subrange(ufield_len(*asset), ufield_len(*asset) + 4),
            ) <= 2 && !valid_property_flags(dec_u64(
                old(reader).rest().subrange(ufield_len(*asset) + 4, ufield_len(*asset) + 12),
            )) ==> (r matches Err(e) && e.is_invalid_enum_value()),
    {
        let generic_property = match UGenericProperty::new(asset, reader) {
            Ok(g) => g,
            Err(e) => {
                return Err(e);
            },
        };
        Ok(UInt64Property { generic_property })
    }
}


/// Descriptor of a declared property with no extra fields beyond the
/// generic header.
#[derive(Debug)]
pub struct UUInt8Property {
    pub generic_property: UGenericProperty,
}

impl UUInt8Property {
    /// Reads the generic header alone.
    pub fn new(asset: &Asset, reader: &mut ByteReader) -> (r: Result<Self, Error>)
        requires
            asset.wf(),
            old(reader).wf(),
        ensures
            ByteReader::advanced(*old(reader), *final(reader)),
            r is Ok <==> generic_parse_ok(*asset, old(reader).rest()),
            match r {
                Ok(d) => {
                    &&& wf_generic(*asset, d.generic_property)
                    &&& ByteReader::taken(*old(reader), *final(reader)) == generic_bytes(
                        *asset,
                        d.generic_property,
                    )
                    &&& final(reader).pos == old(reader).pos + generic_parse_len(*asset)
                },
                Err(e) => e.is_io() || e.is_invalid_file() || e.is_invalid_enum_value(),
            },
            old(reader).remaining() >= ufield_len(*asset) + 4 && !(0 <= dec_i32(
                old(reader).rest().subrange(ufield_len(*asset), ufield_len(*asset) + 4),
            ) <= 2) ==> (r matches Err(e) && e.is_invalid_enum_value()),
            old(reader).remaining() >= ufield_len(*asset) + 12 && 0 <= dec_i32(
                old(reader).rest().subrange(ufield_len(*asset), ufield_len(*asset) + 4),
            ) <= 2 && !valid_property_flags(dec_u64(
                old(reader).rest().subrange(ufield_len(*asset) + 4, ufield_len(*asset) + 12),
            )) ==> (r matches Err(e) && e.is_invalid_enum_value()),
    {
        let generic_property = match UGenericProperty::new(asset, reader) {
            Ok(g) => g,
            Err(e) => {
                return Err(e);
            },
        };
        Ok(UUInt8Property { generic_property })
    }
}


/// Descriptor of a declared property with no extra fields beyond the
/// generic header.
#[derive(Debug)]
pub struct UUInt16Property {
    pub generic_property: UGenericProperty,
}

impl UUInt16Property {
    /// Reads the generic header alone.
    pub fn new(asset: &Asset, reader: &mut ByteReader) -> (r: Result<Self, Error>)
        requires
            asset.wf(),
            old(reader).wf(),
        ensures
            ByteReader::advanced(*old(reader), *final(reader)),
            r is Ok <==> generic_parse_ok(*asset, old(reader).rest()),
            match r {
                Ok(d) => {
                    &&& wf_generic(*asset, d.generic_property)
                    &&& ByteReader::taken(*old(reader), *final(reader)) == generic_bytes(
                        *asset,
                        d.generic_property,
                    )
                    &&& final(reader).pos == old(reader).pos + generic_parse_len(*asset)
                },
                Err(e) => e.is_io() || e.is_invalid_file() || e.is_invalid_enum_value(),
            },
            old(reader).remaining() >= ufield_len(*asset) + 4 && !(0 <= dec_i32(
                old(reader).rest().subrange(ufield_len(*asset), ufield_len(*asset) + 4),
            ) <= 2) ==> (r matches Err(e) && e.is_invalid_enum_value()),
            old(reader).remaining() >= ufield_len(*asset) + 12 && 0 <= dec_i32(
                old(reader).rest().subrange(ufield_len(*asset), ufield_len(*asset) + 4),
            ) <= 2 && !valid_property_flags(dec_u64(
                old(reader).rest().subrange(ufield_len(*asset) + 4, ufield_len(*asset) + 12),
            )) ==> (r matches Err(e) && e.is_invalid_enum_value()),
    {
        let generic_property = match UGenericProperty::new(asset, reader) {
            Ok(g) => g,
            Err(e) => {
                return Err(e);
            },
        };
        Ok(UUInt16Property { generic_property })
    }
}


/// Descriptor of a declared property with no extra fields beyond the
/// generic header.
#[derive(Debug)]
pub struct UUInt64Property {
    pub generic_property: UGenericProperty,
}

impl UUInt64Property {
    /// Reads the generic header alone.
    pub fn new(asset: &Asset, reader: &mut ByteReader) -> (r: Result<Self, Error>)
        requires
            asset.wf(),
            old(reader).wf(),
        ensures
            ByteReader::advanced(*old(reader), *final(reader)),
            r is Ok <==> generic_parse_ok(*asset, old(reader).rest()),
            match r {
                Ok(d) => {
                    &&& wf_generic(*asset, d.generic_property)
                    &&& ByteReader::taken(*old(reader), *final(reader)) == generic_bytes(
                        *asset,
                        d.generic_property,
                    )
                    &&& final(reader).pos == old(reader).pos + generic_parse_len(*asset)
                },
                Err(e) => e.is_io() || e.is_invalid_file() || e.is_invalid_enum_value(),
            },
            old(reader).remaining() >= ufield_len(*asset) + 4 && !(0 <= dec_i32(
                old(reader).rest().subrange(ufield_len(*asset), ufield_len(*asset) + 4),
            ) <= 2) ==> (r matches Err(e) && e.is_invalid_enum_value()),
            old(reader).remaining() >= ufield_len(*asset) + 12 && 0 <= dec_i32(
                old(reader).rest().subrange(ufield_len(*asset), ufield_len(*asset) + 4),
            ) <= 2 && !valid_property_flags(dec_u64(
                old(reader).rest().subrange(ufield_len(*asset) + 4, ufield_len(*asset) + 12),
            )) ==> (r matches Err(e) && e.is_invalid_enum_value()),
    {
        let generic_property = match UGenericProperty::new(asset, reader) {
            Ok(g) => g,
            Err(e) => {
                return Err(e);
            },
        };
        Ok(UUInt64Property { generic_property })
    }
}


/// Descriptor of a declared property with no extra fields beyond the
/// generic header.
#[derive(Debug)]
pub struct UNameProperty {
    pub generic_property: UGenericProperty,
}

impl UNameProperty {
    /// Reads the generic header alone.
    pub fn new(asset: &Asset, reader: &mut ByteReader) -> (r: Result<Self, Error>)
        requires
            asset.wf(),
            old(reader).wf(),
        ensures
            ByteReader::advanced(*old(reader), *final(reader)),
            r is Ok <==> generic_parse_ok(*asset, old(reader).rest()),
            match r {
                Ok(d) => {
                    &&& wf_generic(*asset, d.generic_property)
                    &&& ByteReader::taken(*old(reader), *final(reader)) == generic_bytes(
                        *asset,
                        d.generic_property,
                    )
                    &&& final(reader).pos == old(reader).pos + generic_parse_len(*asset)
                },
                Err(e) => e.is_io() || e.is_invalid_file() || e.is_invalid_enum_value(),
            },
            old(reader).remaining() >= ufield_len(*asset) + 4 && !(0 <= dec_i32(
                old(reader).rest().subrange(ufield_len(*asset), ufield_len(*asset) + 4),
            ) <= 2) ==> (r matches Err(e) && e.is_invalid_enum_value()),
            old(reader).remaining() >= ufield_len(*asset) + 12 && 0 <= dec_i32(
                old(reader).rest().subrange(ufield_len(*asset), ufield_len(*asset) + 4),
            ) <= 2 && !valid_property_flags(dec_u64(
                old(reader).rest().subrange(ufield_len(*asset) + 4, ufield_len(*asset) + 12),
            )) ==> (r matches Err(e) && e.is_invalid_enum_value()),
    {
        let generic_property = match UGenericProperty::new(asset, reader) {
            Ok(g) => g,
            Err(e) => {
                return Err(e);
            },
        };
        Ok(UNameProperty { generic_property })
    }
}


/// Descriptor of a declared property with no extra fields beyond the
/// generic header.
#[derive(Debug)]
pub struct UStrProperty {
    pub generic_property: UGenericProperty,
}

impl UStrProperty {
    /// Reads the generic header alone.
    pub fn new(asset: &Asset, reader: &mut ByteReader) -> (r: Result<Self, Error>)
        requires
            asset.wf(),
            old(reader).wf(),
        ensures
            ByteReader::advanced(*old(reader), *final(reader)),
            r is Ok <==> generic_parse_ok(*asset, old(reader).rest()),
            match r {
                Ok(d) => {
                    &&& wf_generic(*asset, d.generic_property)
                    &&& ByteReader::taken(*old(reader), *final(reader)) == generic_bytes(
                        *asset,
                        d.generic_property,
                    )
                    &&& final(reader).pos == old(reader).pos + generic_parse_len(*asset)
                },
                Err(e) => e.is_io() || e.is_invalid_file() || e.is_invalid_enum_value(),
            },
            old(reader).remaining() >= ufield_len(*asset) + 4 && !(0 <= dec_i32(
                old(reader).rest().subrange(ufield_len(*asset), ufield_len(*asset) + 4),
            ) <= 2) ==> (r matches Err(e) && e.is_invalid_enum_value()),
            old(reader).remaining() >= ufield_len(*asset) + 12 && 0 <= dec_i32(
                old(reader).rest().subrange(ufield_len(*asset), ufield_len(*asset) + 4),
            ) <= 2 && !valid_property_flags(dec_u64(
                old(reader).rest().subrange(ufield_len(*asset) + 4, ufield_len(*asset) + 12),
            )) ==> (r matches Err(e) && e.is_invalid_enum_value()),
    {
        let generic_property = match UGenericProperty::new(asset, reader) {
            Ok(g) => g,
            Err(e) => {
                return Err(e);
            },
        };
        Ok(UStrProperty { generic_property })
    }
}


/// Descriptor of a declared boolean property: the generic header, the
/// element size byte, and the native-bool flag byte.
#[derive(Debug)]
pub struct UBoolProperty {
    pub generic_property: UGenericProperty,
    pub element_size: u8,
    pub native_bool: bool,
}

impl UBoolProperty {
    /// Reads the generic header, the element size byte, and the native-bool
    /// byte; any nonzero byte reads as true.
    pub fn new(asset: &Asset, reader: &mut ByteReader) -> (r: Result<Self, Error>)
        requires
            asset.wf(),
            old(reader).wf(),
        ensures
            ByteReader::advanced(*old(reader), *final(reader)),
            r is Ok <==> generic_parse_ok(*asset, old(reader).rest())
                && old(reader).remaining() >= generic_parse_len(*asset) + 2,
            match r {
                Ok(d) => {
                    &&& wf_generic(*asset, d.generic_property)
                    &&& d.element_size == old(reader).rest()[generic_parse_len(*asset)]
                    &&& d.native_bool == (old(reader).rest()[generic_parse_len(*asset) + 1] != 0)
                    &&& ByteReader::taken(*old(reader), *final(reader)) == generic_bytes(
                        *asset,
                        d.generic_property,
                    ) + seq![d.element_size] + seq![
                        old(reader).rest()[generic_parse_len(*asset) + 1],
                    ]
                    &&& final(reader).pos == old(reader).pos + generic_parse_len(*asset) + 2
                },
                Err(e) => e.is_io() || e.is_invalid_file() || e.is_invalid_enum_value(),
            },
            old(reader).remaining() >= ufield_len(*asset) + 4 && !(0 <= dec_i32(
                old(reader).rest().subrange(ufield_len(*asset), ufield_len(*asset) + 4),
            ) <= 2) ==> (r matches Err(e) && e.is_invalid_enum_value()),
            old(reader).remaining() >= ufield_len(*asset) + 12 && 0 <= dec_i32(
                old(reader).rest().subrange(ufield_len(*asset), ufield_len(*asset) + 4),
            ) <= 2 && !valid_property_flags(dec_u64(
                old(reader).rest().subrange(ufield_len(*asset) + 4, ufield_len(*asset) + 12),
            )) ==> (r matches Err(e) && e.is_invalid_enum_value()),
    {
        let ghost b = old(reader).rest();
        let generic_property = match UGenericProperty::new(asset, reader) {
            Ok(g) => g,
            Err(e) => {
                return Err(e);
            },
        };
        let ghost m1 = *reader;
        let element_size = match reader.read_u8() {
            Ok(x) => x,
            Err(e) => {
                return Err(e);
            },
        };
        let ghost m2 = *reader;
        let raw = match reader.read_u8() {
            Ok(x) => x,
            Err(e) => {
                return Err(e);
            },
        };
        proof {
            assert(b[generic_parse_len(*asset)] == old(reader).data@[m1.pos as int]);
            assert(b[generic_parse_len(*asset) + 1]
                == old(reader).data@[m2.pos as int]);
        }
        let native_bool = raw != 0;
        proof {
            let d = old(reader).data@;
            lemma_subrange_concat(d, old(reader).pos as int, m1.pos as int, m2.pos as int);
            lemma_subrange_concat(d, old(reader).pos as int, m2.pos as int, reader.pos as int);
            assert(ByteReader::taken(m1, m2) =~= seq![element_size]);
            assert(ByteReader::taken(m2, *reader) =~= seq![raw]);
        }
        Ok(UBoolProperty { generic_property, element_size, native_bool })
    }
}


/// Marker of the descriptor family; every concrete descriptor enters the
/// [`UProperty`] sum type.
pub trait UPropertyTrait {
}

/// The closed family of type descriptors, dispatched by a serialized
/// type-name string.
#[derive(Debug)]
pub enum UProperty {

    UGenericProperty(UGenericProperty),
    UEnumProperty(UEnumProperty),
    UClassProperty(UClassProperty),
    USoftClassProperty(USoftClassProperty),
    UMapProperty(UMapProperty),
    UArrayProperty(UArrayProperty),
    USetProperty(USetProperty),
    UObjectProperty(UObjectProperty),
    USoftObjectProperty(USoftObjectProperty),
    ULazyObjectProperty(ULazyObjectProperty),
    UDelegateProperty(UDelegateProperty),
    UMulticastDelegateProperty(UMulticastDelegateProperty),
    UMulticastInlineDelegateProperty(UMulticastInlineDelegateProperty),
    UInterfaceProperty(UInterfaceProperty),
    UByteProperty(UByteProperty),
    UStructProperty(UStructProperty),
    UDoubleProperty(UDoubleProperty),
    UFloatProperty(UFloatProperty),
    UIntProperty(UIntProperty),
    UInt8Property(UInt8Property),
    UInt16Property(UInt16Property),
    UInt64Property(UInt64Property),
    UUInt8Property(UUInt8Property),
    UUInt16Property(UUInt16Property),
    UUInt64Property(UUInt64Property),
    UNameProperty(UNameProperty),
    UStrProperty(UStrProperty),
    UBoolProperty(UBoolProperty),
}

impl UPropertyTrait for UProperty {
}


/// The wire form of any descriptor variant.
pub open spec fn uproperty_bytes(a: Asset, p: UProperty) -> Seq<u8> {
    match p {
        UProperty::UGenericProperty(d) => generic_bytes(a, d),

        UProperty::UEnumProperty(d) => desc2_bytes(a, d.generic_property, d.value, d.underlying_prop),
        UProperty::UClassProperty(d) => desc2_bytes(a, d.generic_property, d.property_class, d.meta_class),
        UProperty::USoftClassProperty(d) => desc2_bytes(a, d.generic_property, d.property_class, d.meta_class),
        UProperty::UMapProperty(d) => desc2_bytes(a, d.generic_property, d.key_prop, d.value_prop),
        UProperty::UArrayProperty(d) => desc1_bytes(a, d.generic_property, d.inner),
        UProperty::USetProperty(d) => desc1_bytes(a, d.generic_property, d.element_prop),
        UProperty::UObjectProperty(d) => desc1_bytes(a, d.generic_property, d.property_class),
        UProperty::USoftObjectProperty(d) => desc1_bytes(a, d.generic_property, d.property_class),
        UProperty::ULazyObjectProperty(d) => desc1_bytes(a, d.generic_property, d.property_class),
        UProperty::UDelegateProperty(d) => desc1_bytes(a, d.generic_property, d.signature_function),
        UProperty::UMulticastDelegateProperty(d) => desc1_bytes(a, d.generic_property, d.signature_function),
        UProperty::UMulticastInlineDelegateProperty(d) => desc1_bytes(a, d.generic_property, d.signature_function),
        UProperty::UInterfaceProperty(d) => desc1_bytes(a, d.generic_property, d.interface_class),
        UProperty::UByteProperty(d) => desc1_bytes(a, d.generic_property, d.enum_value),
        UProperty::UStructProperty(d) => desc1_bytes(a, d.generic_property, d.struct_value),
        UProperty::UDoubleProperty(d) => generic_bytes(a, d.generic_property),
        UProperty::UFloatProperty(d) => generic_bytes(a, d.generic_property),
        UProperty::UIntProperty(d) => generic_bytes(a, d.generic_property),
        UProperty::UInt8Property(d) => generic_bytes(a, d.generic_property),
        UProperty::UInt16Property(d) => generic_bytes(a, d.generic_property),
        UProperty::UInt64Property(d) => generic_bytes(a, d.generic_property),
        UProperty::UUInt8Property(d) => generic_bytes(a, d.generic_property),
        UProperty::UUInt16Property(d) => generic_bytes(a, d.generic_property),
        UProperty::UUInt64Property(d) => generic_bytes(a, d.generic_property),
        UProperty::UNameProperty(d) => generic_bytes(a, d.generic_property),
        UProperty::UStrProperty(d) => generic_bytes(a, d.generic_property),
        UProperty::UBoolProperty(d) => generic_bytes(a, d.generic_property)
            + seq![d.element_size] + seq![if d.native_bool { 1u8 } else { 0u8 }],
    }
}

/// The generic header of any descriptor variant.
pub open spec fn uproperty_generic(p: UProperty) -> UGenericProperty {
    match p {
        UProperty::UGenericProperty(d) => d,

        UProperty::UEnumProperty(d) => d.generic_property,
        UProperty::UClassProperty(d) => d.generic_property,
        UProperty::USoftClassProperty(d) => d.generic_property,
        UProperty::UMapProperty(d) => d.generic_property,
        UProperty::UArrayProperty(d) => d.generic_property,
        UProperty::USetProperty(d) => d.generic_property,
        UProperty::UObjectProperty(d) => d.generic_property,
        UProperty::USoftObjectProperty(d) => d.generic_property,
        UProperty::ULazyObjectProperty(d) => d.generic_property,
        UProperty::UDelegateProperty(d) => d.generic_property,
        UProperty::UMulticastDelegateProperty(d) => d.generic_property,
        UProperty::UMulticastInlineDelegateProperty(d) => d.generic_property,
        UProperty::UInterfaceProperty(d) => d.generic_property,
        UProperty::UByteProperty(d) => d.generic_property,
        UProperty::UStructProperty(d) => d.generic_property,
        UProperty::UDoubleProperty(d) => d.generic_property,
        UProperty::UFloatProperty(d) => d.generic_property,
        UProperty::UIntProperty(d) => d.generic_property,
        UProperty::UInt8Property(d) => d.generic_property,
        UProperty::UInt16Property(d) => d.generic_property,
        UProperty::UInt64Property(d) => d.generic_property,
        UProperty::UUInt8Property(d) => d.generic_property,
        UProperty::UUInt16Property(d) => d.generic_property,
        UProperty::UUInt64Property(d) => d.generic_property,
        UProperty::UNameProperty(d) => d.generic_property,
        UProperty::UStrProperty(d) => d.generic_property,
        UProperty::UBoolProperty(d) => d.generic_property,
    }
}

/// Validity of a decoded descriptor against its asset.
pub open spec fn wf_uproperty(a: Asset, p: UProperty) -> bool {
    wf_generic(a, uproperty_generic(p))
}


/// Which variant a serialized type-name string dispatches to; every
/// unrecognized name falls back to the generic descriptor.
pub open spec fn uproperty_dispatched(t: Seq<char>, p: UProperty) -> bool {

    if t == "UEnumProperty"@ {
        p is UEnumProperty
    } else if t == "UArrayProperty"@ {
        p is UArrayProperty
    } else if t == "USetProperty"@ {
        p is USetProperty
    } else if t == "UObjectProperty"@ {
        p is UObjectProperty
    } else if t == "USoftObjectProperty"@ {
        p is USoftObjectProperty
    } else if t == "ULazyObjectProperty"@ {
        p is ULazyObjectProperty
    } else if t == "UClassProperty"@ {
        p is UClassProperty
    } else if t == "USoftClassProperty"@ {
        p is USoftClassProperty
    } else if t == "UDelegateProperty"@ {
        p is UDelegateProperty
    } else if t == "UMulticastDelegateProperty"@ {
        p is UMulticastDelegateProperty
    } else if t == "UMulticastInlineDelegateProperty"@ {
        p is UMulticastInlineDelegateProperty
    } else if t == "UInterfaceProperty"@ {
        p is UInterfaceProperty
    } else if t == "UMapProperty"@ {
        p is UMapProperty
    } else if t == "UByteProperty"@ {
        p is UByteProperty
    } else if t == "UStructProperty"@ {
        p is UStructProperty
    } else if t == "UDoubleProperty"@ {
        p is UDoubleProperty
    } else if t == "UFloatProperty"@ {
        p is UFloatProperty
    } else if t == "UIntProperty"@ {
        p is UIntProperty
    } else if t == "UInt8Property"@ {
        p is UInt8Property
    } else if t == "UInt16Property"@ {
        p is UInt16Property
    } else if t == "UInt64Property"@ {
        p is UInt64Property
    } else if t == "UUInt8Property"@ {
        p is UUInt8Property
    } else if t == "UUInt16Property"@ {
        p is UUInt16Property
    } else if t == "UUInt64Property"@ {
        p is UUInt64Property
    } else if t == "UNameProperty"@ {
        p is UNameProperty
    } else if t == "UStrProperty"@ {
        p is UStrProperty
    } else {
        p is UGenericProperty
    }
}

/// How many bytes the dispatched variant reads beyond the generic header.
pub open spec fn descriptor_extra_len(t: Seq<char>) -> int {

    if t == "UEnumProperty"@ {
        8int
    } else if t == "UArrayProperty"@ {
        4int
    } else if t == "USetProperty"@ {
        4int
    } else if t == "UObjectProperty"@ {
        4int
    } else if t == "USoftObjectProperty"@ {
        4int
    } else if t == "ULazyObjectProperty"@ {
        4int
    } else if t == "UClassProperty"@ {
        8int
    } else if t == "USoftClassProperty"@ {
        8int
    } else if t == "UDelegateProperty"@ {
        4int
    } else if t == "UMulticastDelegateProperty"@ {
        4int
    } else if t == "UMulticastInlineDelegateProperty"@ {
        4int
    } else if t == "UInterfaceProperty"@ {
        4int
    } else if t == "UMapProperty"@ {
        8int
    } else if t == "UByteProperty"@ {
        4int
    } else if t == "UStructProperty"@ {
        4int
    } else if t == "UDoubleProperty"@ {
        0int
    } else if t == "UFloatProperty"@ {
        0int
    } else if t == "UIntProperty"@ {
        0int
    } else if t == "UInt8Property"@ {
        0int
    } else if t == "UInt16Property"@ {
        0int
    } else if t == "UInt64Property"@ {
        0int
    } else if t == "UUInt8Property"@ {
        0int
    } else if t == "UUInt16Property"@ {
        0int
    } else if t == "UUInt64Property"@ {
        0int
    } else if t == "UNameProperty"@ {
        0int
    } else if t == "UStrProperty"@ {
        0int
    } else {
        0int
    }
}


impl UProperty {
    /// Reads the descriptor named by `serialized_type`: the matching
    /// variant of the closed set, or the generic descriptor for an
    /// unrecognized name.
    pub fn new(asset: &Asset, reader: &mut ByteReader, serialized_type: FName) -> (r: Result<
        UProperty,
        Error,
    >)
        requires
            asset.wf(),
            old(reader).wf(),
        ensures
            ByteReader::advanced(*old(reader), *final(reader)),
            r is Ok <==> generic_parse_ok(*asset, old(reader).rest())
                && old(reader).remaining() >= generic_parse_len(*asset)
                    + descriptor_extra_len(serialized_type.content@),
            match r {
                Ok(p) => {
                    &&& wf_uproperty(*asset, p)
                    &&& uproperty_dispatched(serialized_type.content@, p)
                    &&& ByteReader::taken(*old(reader), *final(reader)) == uproperty_bytes(
                        *asset,
                        p,
                    )
                },
                Err(e) => e.is_io() || e.is_invalid_file() || e.is_invalid_enum_value(),
            },
            old(reader).remaining() >= ufield_len(*asset) + 4 && !(0 <= dec_i32(
                old(reader).rest().subrange(ufield_len(*asset), ufield_len(*asset) + 4),
            ) <= 2) ==> (r matches Err(e) && e.is_invalid_enum_value()),
            old(reader).remaining() >= ufield_len(*asset) + 12 && 0 <= dec_i32(
                old(reader).rest().subrange(ufield_len(*asset), ufield_len(*asset) + 4),
            ) <= 2 && !valid_property_flags(dec_u64(
                old(reader).rest().subrange(ufield_len(*asset) + 4, ufield_len(*asset) + 12),
            )) ==> (r matches Err(e) && e.is_invalid_enum_value()),
    {
        let t = &serialized_type.content;

        if *t == "UEnumProperty".to_owned() {
            match UEnumProperty::new(asset, reader) {
                Ok(v) => Ok(UProperty::UEnumProperty(v)),
                Err(e) => Err(e),
            }
        } else if *t == "UArrayProperty".to_owned() {
            match UArrayProperty::new(asset, reader) {
                Ok(v) => Ok(UProperty::UArrayProperty(v)),
                Err(e) => Err(e),
            }
        } else if *t == "USetProperty".to_owned() {
            match USetProperty::new(asset, reader) {
                Ok(v) => Ok(UProperty::USetProperty(v)),
                Err(e) => Err(e),
            }
        } else if *t == "UObjectProperty".to_owned() {
            match UObjectProperty::new(asset, reader) {
                Ok(v) => Ok(UProperty::UObjectProperty(v)),
                Err(e) => Err(e),
            }
        } else if *t == "USoftObjectProperty".to_owned() {
            match USoftObjectProperty::new(asset, reader) {
                Ok(v) => Ok(UProperty::USoftObjectProperty(v)),
                Err(e) => Err(e),
            }
        } else if *t == "ULazyObjectProperty".to_owned() {
            match ULazyObjectProperty::new(asset, reader) {
                Ok(v) => Ok(UProperty::ULazyObjectProperty(v)),
                Err(e) => Err(e),
            }
        } else if *t == "UClassProperty".to_owned() {
            match UClassProperty::new(asset, reader) {
                Ok(v) => Ok(UProperty::UClassProperty(v)),
                Err(e) => Err(e),
            }
        } else if *t == "USoftClassProperty".to_owned() {
            match USoftClassProperty::new(asset, reader) {
                Ok(v) => Ok(UProperty::USoftClassProperty(v)),
                Err(e) => Err(e),
            }
        } else if *t == "UDelegateProperty".to_owned() {
            match UDelegateProperty::new(asset, reader) {
                Ok(v) => Ok(UProperty::UDelegateProperty(v)),
                Err(e) => Err(e),
            }
        } else if *t == "UMulticastDelegateProperty".to_owned() {
            match UMulticastDelegateProperty::new(asset, reader) {
                Ok(v) => Ok(UProperty::UMulticastDelegateProperty(v)),
                Err(e) => Err(e),
            }
        } else if *t == "UMulticastInlineDelegateProperty".to_owned() {
            match UMulticastInlineDelegateProperty::new(asset, reader) {
                Ok(v) => Ok(UProperty::UMulticastInlineDelegateProperty(v)),
                Err(e) => Err(e),
            }
        } else if *t == "UInterfaceProperty".to_owned() {
            match UInterfaceProperty::new(asset, reader) {
                Ok(v) => Ok(UProperty::UInterfaceProperty(v)),
                Err(e) => Err(e),
            }
        } else if *t == "UMapProperty".to_owned() {
            match UMapProperty::new(asset, reader) {
                Ok(v) => Ok(UProperty::UMapProperty(v)),
                Err(e) => Err(e),
            }
        } else if *t == "UByteProperty".to_owned() {
            match UByteProperty::new(asset, reader) {
                Ok(v) => Ok(UProperty::UByteProperty(v)),
                Err(e) => Err(e),
            }
        } else if *t == "UStructProperty".to_owned() {
            match UStructProperty::new(asset, reader) {
                Ok(v) => Ok(UProperty::UStructProperty(v)),
                Err(e) => Err(e),
            }
        } else if *t == "UDoubleProperty".to_owned() {
            match UDoubleProperty::new(asset, reader) {
                Ok(v) => Ok(UProperty::UDoubleProperty(v)),
                Err(e) => Err(e),
            }
        } else if *t == "UFloatProperty".to_owned() {
            match UFloatProperty::new(asset, reader) {
                Ok(v) => Ok(UProperty::UFloatProperty(v)),
                Err(e) => Err(e),
            }
        } else if *t == "UIntProperty".to_owned() {
            match UIntProperty::new(asset, reader) {
                Ok(v) => Ok(UProperty::UIntProperty(v)),
                Err(e) => Err(e),
            }
        } else if *t == "UInt8Property".to_owned() {
            match UInt8Property::new(asset, reader) {
                Ok(v) => Ok(UProperty::UInt8Property(v)),
                Err(e) => Err(e),
            }
        } else if *t == "UInt16Property".to_owned() {
            match UInt16Property::new(asset, reader) {
                Ok(v) => Ok(UProperty::UInt16Property(v)),
                Err(e) => Err(e),
            }
        } else if *t == "UInt64Property".to_owned() {
            match UInt64Property::new(asset, reader) {
                Ok(v) => Ok(UProperty::UInt64Property(v)),
                Err(e) => Err(e),
            }
        } else if *t == "UUInt8Property".to_owned() {
            match UUInt8Property::new(asset, reader) {
                Ok(v) => Ok(UProperty::UUInt8Property(v)),
                Err(e) => Err(e),
            }
        } else if *t == "UUInt16Property".to_owned() {
            match UUInt16Property::new(asset, reader) {
                Ok(v) => Ok(UProperty::UUInt16Property(v)),
                Err(e) => Err(e),
            }
        } else if *t == "UUInt64Property".to_owned() {
            match UUInt64Property::new(asset, reader) {
                Ok(v) => Ok(UProperty::UUInt64Property(v)),
                Err(e) => Err(e),
            }
        } else if *t == "UNameProperty".to_owned() {
            match UNameProperty::new(asset, reader) {
                Ok(v) => Ok(UProperty::UNameProperty(v)),
                Err(e) => Err(e),
            }
        } else if *t == "UStrProperty".to_owned() {
            match UStrProperty::new(asset, reader) {
                Ok(v) => Ok(UProperty::UStrProperty(v)),
                Err(e) => Err(e),
            }
        } else {
            match UGenericProperty::new(asset, reader) {
                Ok(v) => Ok(UProperty::UGenericProperty(v)),
                Err(e) => Err(e),
            }
        }
    }
}

} // verus!
