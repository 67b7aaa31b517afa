//! The property-value system: the closed family of serializable value
//! records, dispatched by a runtime type-name string at every nesting point,
//! with byte-exact read and write contracts.
//!
//! Every reader states that the bytes it consumed are the serialization of
//! the value it returned; every writer states that it appends exactly that
//! serialization. Composing the two yields byte-exact round trips.

use vstd::prelude::*;

use crate::asset::{fname_bytes, fname_parse_ok, name_index, name_present, wf_fname, Asset};
use crate::codec::{
    dec_i32, guid_opt_bytes, guid_parse_ok, le_i32, lemma_subrange_concat, opt_str_view,
    string_bytes, string_parse_ok, string_prefix, wf_chars, ByteReader, ByteWriter,
};
use crate::error::{Error, ErrorCode};
use crate::types::{FName, Guid, PackageIndex};

verus! {

/// A 32-bit integer property value.
#[derive(Debug)]
pub struct IntProperty {
    pub name: FName,
    pub property_guid: Option<Guid>,
    pub duplication_index: i32,
    pub value: i32,
}

/// An optional string property value.
#[derive(Debug)]
pub struct StrProperty {
    pub name: FName,
    pub property_guid: Option<Guid>,
    pub duplication_index: i32,
    pub value: Option<String>,
}

/// An interned-name property value.
#[derive(Debug)]
pub struct NameProperty {
    pub name: FName,
    pub property_guid: Option<Guid>,
    pub duplication_index: i32,
    pub value: FName,
}

/// A struct-typed property value: the resolved struct type name and the
/// cooked payload bytes, carried through verbatim.
#[derive(Debug)]
pub struct StructProperty {
    pub name: FName,
    pub struct_type: FName,
    pub property_guid: Option<Guid>,
    pub duplication_index: i32,
    pub value: Vec<u8>,
}

/// A raw struct payload read past without interpretation.
#[derive(Debug)]
pub struct RawStructProperty {
    pub name: FName,
    pub property_guid: Option<Guid>,
    pub duplication_index: i32,
    pub value: Vec<u8>,
}

/// A property of an unrecognized serialized type: the original type string
/// and the raw bytes are preserved verbatim so a later write reproduces
/// them exactly.
#[derive(Debug)]
pub struct UnknownProperty {
    pub name: FName,
    pub property_guid: Option<Guid>,
    pub duplication_index: i32,
    pub value: Vec<u8>,
    pub serialized_type: FName,
}

/// A key-to-value container property with delta-style removed keys; the
/// pair list keeps insertion order, and a later duplicate key overwrites
/// the earlier entry.
#[derive(Debug)]
pub struct MapProperty {
    pub name: FName,
    pub property_guid: Option<Guid>,
    pub duplication_index: i32,
    pub key_type: FName,
    pub value_type: FName,
    pub value: Vec<(Property, Property)>,
    pub keys_to_remove: Option<Vec<Property>>,
}

/// A movie-scene evaluation template pointer: an optional template type
/// string followed, when present, by a name-terminated property list.
#[derive(Debug)]
pub struct MovieSceneEvalTemplatePtrProperty {
    pub name: FName,
    pub property_guid: Option<Guid>,
    pub duplication_index: i32,
    pub template_type: Option<String>,
    pub value: Vec<Property>,
}

/// A movie-scene sequence instance data pointer: one package index.
#[derive(Debug)]
pub struct MovieSceneSequenceInstanceDataPtrProperty {
    pub name: FName,
    pub property_guid: Option<Guid>,
    pub duplication_index: i32,
    pub value: PackageIndex,
}

/// The closed family of property values, dispatched from a type-name
/// string at every nesting point.
#[derive(Debug)]
pub enum Property {
    IntProperty(IntProperty),
    StrProperty(StrProperty),
    NameProperty(NameProperty),
    StructProperty(StructProperty),
    MapProperty(MapProperty),
    RawStructProperty(RawStructProperty),
    UnknownProperty(UnknownProperty),
    MovieSceneEvalTemplatePtrProperty(MovieSceneEvalTemplatePtrProperty),
    MovieSceneSequenceInstanceDataPtrProperty(MovieSceneSequenceInstanceDataPtrProperty),
}

/// The mathematical value of a property: the same tree with strings and
/// byte vectors abstracted to sequences. Equality of models is the
/// structural equality the map container deduplicates by.
pub enum PropModel {
    Int { name: (Seq<char>, i32), guid: Option<Seq<u8>>, dup: i32, value: i32 },
    Str { name: (Seq<char>, i32), guid: Option<Seq<u8>>, dup: i32, value: Option<Seq<char>> },
    Name { name: (Seq<char>, i32), guid: Option<Seq<u8>>, dup: i32, value: (Seq<char>, i32) },
    Struct {
        name: (Seq<char>, i32),
        struct_type: (Seq<char>, i32),
        guid: Option<Seq<u8>>,
        dup: i32,
        value: Seq<u8>,
    },
    MapData {
        name: (Seq<char>, i32),
        guid: Option<Seq<u8>>,
        dup: i32,
        key_type: (Seq<char>, i32),
        value_type: (Seq<char>, i32),
        entries: Seq<(PropModel, PropModel)>,
        removed: Option<Seq<PropModel>>,
    },
    RawStruct { name: (Seq<char>, i32), guid: Option<Seq<u8>>, dup: i32, value: Seq<u8> },
    Unknown {
        name: (Seq<char>, i32),
        guid: Option<Seq<u8>>,
        dup: i32,
        value: Seq<u8>,
        serialized_type: (Seq<char>, i32),
    },
    MovieEval {
        name: (Seq<char>, i32),
        guid: Option<Seq<u8>>,
        dup: i32,
        template_type: Option<Seq<char>>,
        value: Seq<PropModel>,
    },
    MovieData { name: (Seq<char>, i32), guid: Option<Seq<u8>>, dup: i32, value: i32 },
}

/// The model of an interned name.
pub open spec fn fname_model(f: FName) -> (Seq<char>, i32) {
    (f.content@, f.index)
}

/// The model of an optional GUID.
pub open spec fn guid_model(g: Option<Guid>) -> Option<Seq<u8>> {
    match g {
        None => None,
        Some(x) => Some(x@),
    }
}

/// The model of a property value.
pub open spec fn model(p: Property) -> PropModel
    decreases p, 0int, 0int,
{
    match p {
        Property::IntProperty(x) => PropModel::Int {
            name: fname_model(x.name),
            guid: guid_model(x.property_guid),
            dup: x.duplication_index,
            value: x.value,
        },
        Property::StrProperty(x) => PropModel::Str {
            name: fname_model(x.name),
            guid: guid_model(x.property_guid),
            dup: x.duplication_index,
            value: opt_str_view(x.value),
        },
        Property::NameProperty(x) => PropModel::Name {
            name: fname_model(x.name),
            guid: guid_model(x.property_guid),
            dup: x.duplication_index,
            value: fname_model(x.value),
        },
        Property::StructProperty(x) => PropModel::Struct {
            name: fname_model(x.name),
            struct_type: fname_model(x.struct_type),
            guid: guid_model(x.property_guid),
            dup: x.duplication_index,
            value: x.value@,
        },
        Property::MapProperty(x) => PropModel::MapData {
            name: fname_model(x.name),
            guid: guid_model(x.property_guid),
            dup: x.duplication_index,
            key_type: fname_model(x.key_type),
            value_type: fname_model(x.value_type),
            entries: pair_models(x.value@, 0),
            removed: match x.keys_to_remove {
                None => None,
                Some(v) => Some(prop_models(v@, 0)),
            },
        },
        Property::RawStructProperty(x) => PropModel::RawStruct {
            name: fname_model(x.name),
            guid: guid_model(x.property_guid),
            dup: x.duplication_index,
            value: x.value@,
        },
        Property::UnknownProperty(x) => PropModel::Unknown {
            name: fname_model(x.name),
            guid: guid_model(x.property_guid),
            dup: x.duplication_index,
            value: x.value@,
            serialized_type: fname_model(x.serialized_type),
        },
        Property::MovieSceneEvalTemplatePtrProperty(x) => PropModel::MovieEval {
            name: fname_model(x.name),
            guid: guid_model(x.property_guid),
            dup: x.duplication_index,
            template_type: opt_str_view(x.template_type),
            value: prop_models(x.value@, 0),
        },
        Property::MovieSceneSequenceInstanceDataPtrProperty(x) => PropModel::MovieData {
            name: fname_model(x.name),
            guid: guid_model(x.property_guid),
            dup: x.duplication_index,
            value: x.value.index,
        },
    }
}

/// The models of the tail of a pair list, from position `i`.
pub open spec fn pair_models(es: Seq<(Property, Property)>, i: int) -> Seq<(PropModel, PropModel)>
    decreases es, 1int, es.len() - i,
{
    if i < 0 || i >= es.len() {
        Seq::empty()
    } else {
        seq![(model(es[i].0), model(es[i].1))] + pair_models(es, i + 1)
    }
}

/// The models of the tail of a property list, from position `i`.
pub open spec fn prop_models(ps: Seq<Property>, i: int) -> Seq<PropModel>
    decreases ps, 1int, ps.len() - i,
{
    if i < 0 || i >= ps.len() {
        Seq::empty()
    } else {
        seq![model(ps[i])] + prop_models(ps, i + 1)
    }
}

/// Position `k` of the model list is the model at position `i + k`.
pub proof fn lemma_pair_models_index(es: Seq<(Property, Property)>, i: int)
    requires
        0 <= i <= es.len(),
    ensures
        pair_models(es, i).len() == es.len() - i,
        forall|k: int| 0 <= k < es.len() - i ==> #[trigger] pair_models(es, i)[k]
            == (model(es[i + k].0), model(es[i + k].1)),
    decreases es.len() - i,
{
    if i < es.len() {
        lemma_pair_models_index(es, i + 1);
    }
}

/// Position `k` of the model list is the model at position `i + k`.
pub proof fn lemma_prop_models_index(ps: Seq<Property>, i: int)
    requires
        0 <= i <= ps.len(),
    ensures
        prop_models(ps, i).len() == ps.len() - i,
        forall|k: int| 0 <= k < ps.len() - i ==> #[trigger] prop_models(ps, i)[k]
            == model(ps[i + k]),
    decreases ps.len() - i,
{
    if i < ps.len() {
        lemma_prop_models_index(ps, i + 1);
    }
}

/// The name of a property value.
pub open spec fn prop_name(p: Property) -> FName {
    match p {
        Property::IntProperty(x) => x.name,
        Property::StrProperty(x) => x.name,
        Property::NameProperty(x) => x.name,
        Property::StructProperty(x) => x.name,
        Property::MapProperty(x) => x.name,
        Property::RawStructProperty(x) => x.name,
        Property::UnknownProperty(x) => x.name,
        Property::MovieSceneEvalTemplatePtrProperty(x) => x.name,
        Property::MovieSceneSequenceInstanceDataPtrProperty(x) => x.name,
    }
}

/// The optional header GUID of a property value.
pub open spec fn prop_guid(p: Property) -> Option<Guid> {
    match p {
        Property::IntProperty(x) => x.property_guid,
        Property::StrProperty(x) => x.property_guid,
        Property::NameProperty(x) => x.property_guid,
        Property::StructProperty(x) => x.property_guid,
        Property::MapProperty(x) => x.property_guid,
        Property::RawStructProperty(x) => x.property_guid,
        Property::UnknownProperty(x) => x.property_guid,
        Property::MovieSceneEvalTemplatePtrProperty(x) => x.property_guid,
        Property::MovieSceneSequenceInstanceDataPtrProperty(x) => x.property_guid,
    }
}

/// The duplication ordinal of a property value, carried through unchanged.
pub open spec fn prop_dup(p: Property) -> i32 {
    match p {
        Property::IntProperty(x) => x.duplication_index,
        Property::StrProperty(x) => x.duplication_index,
        Property::NameProperty(x) => x.duplication_index,
        Property::StructProperty(x) => x.duplication_index,
        Property::MapProperty(x) => x.duplication_index,
        Property::RawStructProperty(x) => x.duplication_index,
        Property::UnknownProperty(x) => x.duplication_index,
        Property::MovieSceneEvalTemplatePtrProperty(x) => x.duplication_index,
        Property::MovieSceneSequenceInstanceDataPtrProperty(x) => x.duplication_index,
    }
}

/// The serialized type-name string a property value writes for itself; an
/// unknown property keeps its original string verbatim.
pub open spec fn type_name_chars(p: Property) -> Seq<char> {
    match p {
        Property::IntProperty(_) => "IntProperty"@,
        Property::StrProperty(_) => "StrProperty"@,
        Property::NameProperty(_) => "NameProperty"@,
        Property::StructProperty(_) => "StructProperty"@,
        Property::MapProperty(_) => "MapProperty"@,
        Property::RawStructProperty(_) => "RawStructProperty"@,
        Property::UnknownProperty(x) => x.serialized_type.content@,
        Property::MovieSceneEvalTemplatePtrProperty(_) => "MovieSceneEvalTemplatePtrProperty"@,
        Property::MovieSceneSequenceInstanceDataPtrProperty(
            _,
        ) => "MovieSceneSequenceInstanceDataPtrProperty"@,
    }
}

/// The instance index the serialized type name carries; an unknown
/// property keeps its original one, every other variant writes zero.
pub open spec fn type_fname_index(p: Property) -> i32 {
    match p {
        Property::UnknownProperty(x) => x.serialized_type.index,
        _ => 0,
    }
}

/// The wire form of the type name a property value writes for itself.
pub open spec fn tn_bytes(a: Asset, p: Property) -> Seq<u8> {
    le_i32(name_index(a.names(), type_name_chars(p)) as i32) + le_i32(type_fname_index(p))
}

/// The wire form of the list-terminating sentinel name.
pub open spec fn none_bytes(a: Asset) -> Seq<u8> {
    le_i32(name_index(a.names(), "None"@) as i32) + le_i32(0)
}

/// How many keys a map marks for removal.
pub open spec fn rem_count(m: MapProperty) -> int {
    match m.keys_to_remove {
        None => 0,
        Some(v) => v@.len() as int,
    }
}

/// The keys a map marks for removal, as a sequence.
pub open spec fn rem_seq(m: MapProperty) -> Seq<Property> {
    match m.keys_to_remove {
        None => Seq::empty(),
        Some(v) => v@,
    }
}

/// The wire form of the key-type name a map writes: the actual encoded
/// type of one live entry when any exists, else the stored key type.
pub open spec fn map_hdr_key_bytes(a: Asset, m: MapProperty) -> Seq<u8> {
    if m.value@.len() > 0 {
        tn_bytes(a, m.value@[0].0)
    } else {
        fname_bytes(a, m.key_type)
    }
}

/// The wire form of the value-type name a map writes, mirroring the key.
pub open spec fn map_hdr_value_bytes(a: Asset, m: MapProperty) -> Seq<u8> {
    if m.value@.len() > 0 {
        tn_bytes(a, m.value@[0].1)
    } else {
        fname_bytes(a, m.value_type)
    }
}

/// The header a property value writes when the call site asks for one:
/// the optional GUID, preceded for structs by the struct type name and for
/// maps by the key- and value-type names.
pub open spec fn ser_hdr(a: Asset, p: Property) -> Seq<u8> {
    match p {
        Property::StructProperty(x) => fname_bytes(a, x.struct_type) + guid_opt_bytes(
            x.property_guid,
        ),
        Property::MapProperty(m) => map_hdr_key_bytes(a, m) + map_hdr_value_bytes(a, m)
            + guid_opt_bytes(m.property_guid),
        _ => guid_opt_bytes(prop_guid(p)),
    }
}

/// The body a property value serializes after its header.
pub open spec fn ser_body(a: Asset, p: Property) -> Seq<u8>
    decreases p, 2int, 0int,
{
    match p {
        Property::IntProperty(x) => le_i32(x.value),
        Property::StrProperty(x) => string_bytes(opt_str_view(x.value)),
        Property::NameProperty(x) => fname_bytes(a, x.value),
        Property::StructProperty(x) => x.value@,
        Property::RawStructProperty(x) => x.value@,
        Property::UnknownProperty(x) => x.value@,
        Property::MovieSceneSequenceInstanceDataPtrProperty(x) => le_i32(x.value.index),
        Property::MovieSceneEvalTemplatePtrProperty(x) => string_bytes(
            opt_str_view(x.template_type),
        ) + if x.template_type is Some {
            ser_named_from(a, x.value@, 0) + none_bytes(a)
        } else {
            Seq::<u8>::empty()
        },
        Property::MapProperty(m) => le_i32(rem_count(m) as i32) + (match m.keys_to_remove {
            None => Seq::<u8>::empty(),
            Some(v) => ser_props_from(a, v@, 0),
        }) + le_i32(m.value@.len() as i32) + ser_pairs_from(a, m.value@, 0),
    }
}

/// The full wire form of a property value at a given call site.
pub open spec fn ser_prop(a: Asset, p: Property, include_header: bool) -> Seq<u8> {
    if include_header {
        ser_hdr(a, p) + ser_body(a, p)
    } else {
        ser_body(a, p)
    }
}

/// The bodies of the tail of a property list, from position `i`.
pub open spec fn ser_props_from(a: Asset, ps: Seq<Property>, i: int) -> Seq<u8>
    decreases ps, 3int, ps.len() - i,
{
    if i < 0 || i >= ps.len() {
        Seq::empty()
    } else {
        ser_body(a, ps[i]) + ser_props_from(a, ps, i + 1)
    }
}

/// The body pairs of the tail of an entry list, from position `i`.
pub open spec fn ser_pairs_from(a: Asset, es: Seq<(Property, Property)>, i: int) -> Seq<u8>
    decreases es, 3int, es.len() - i,
{
    if i < 0 || i >= es.len() {
        Seq::empty()
    } else {
        ser_body(a, es[i].0) + ser_body(a, es[i].1) + ser_pairs_from(a, es, i + 1)
    }
}

/// The wire form of one property of a name-terminated list: its name, its
/// type name, its body length, its duplication ordinal, and its header and
/// body.
pub open spec fn ser_named(a: Asset, p: Property) -> Seq<u8>
    decreases p, 3int, 0int,
{
    fname_bytes(a, prop_name(p)) + tn_bytes(a, p) + le_i32(ser_body(a, p).len() as i32) + le_i32(
        prop_dup(p),
    ) + ser_hdr(a, p) + ser_body(a, p)
}

/// The named wire forms of the tail of a property list, from position `i`.
pub open spec fn ser_named_from(a: Asset, ps: Seq<Property>, i: int) -> Seq<u8>
    decreases ps, 4int, ps.len() - i,
{
    if i < 0 || i >= ps.len() {
        Seq::empty()
    } else {
        ser_named(a, ps[i]) + ser_named_from(a, ps, i + 1)
    }
}

/// True when some entry of the pair list has this key, by model equality.
pub open spec fn pair_key_present(es: Seq<(Property, Property)>, k: Property) -> bool {
    exists|j: int| 0 <= j < es.len() && model((#[trigger] es[j]).0) == model(k)
}

/// The position of the entry holding this key.
pub open spec fn pair_key_at(es: Seq<(Property, Property)>, k: Property) -> int {
    choose|j: int| 0 <= j < es.len() && model((#[trigger] es[j]).0) == model(k)
}

/// One map insertion: a fresh key appends an entry, an existing key is
/// overwritten in place.
pub open spec fn insert_pair(
    es: Seq<(Property, Property)>,
    k: Property,
    v: Property,
) -> Seq<(Property, Property)> {
    if pair_key_present(es, k) {
        es.update(pair_key_at(es, k), (k, v))
    } else {
        es.push((k, v))
    }
}

/// The entry list that results from inserting a pair list in order into an
/// empty map.
pub open spec fn insert_all(es: Seq<(Property, Property)>) -> Seq<(Property, Property)>
    decreases es.len(),
{
    if es.len() == 0 {
        Seq::empty()
    } else {
        insert_pair(insert_all(es.drop_last()), es.last().0, es.last().1)
    }
}

/// True when no two entries share a key, by model equality.
pub open spec fn distinct_keys_model(es: Seq<(Property, Property)>) -> bool {
    forall|i: int, j: int| 0 <= i < j < es.len() ==> model((#[trigger] es[i]).0) != model(
        (#[trigger] es[j]).0,
    )
}

/// Inserting a duplicate-free pair list into an empty map keeps every pair
/// in stream order.
pub proof fn lemma_insert_all_distinct(es: Seq<(Property, Property)>)
    requires
        distinct_keys_model(es),
    ensures
        insert_all(es) == es,
    decreases es.len(),
{
    if es.len() > 0 {
        let front = es.drop_last();
        assert(distinct_keys_model(front));
        lemma_insert_all_distinct(front);
        assert(!pair_key_present(front, es.last().0)) by {
            if pair_key_present(front, es.last().0) {
                let j = pair_key_at(front, es.last().0);
                assert(model(es[j].0) != model(es[es.len() - 1].0));
            }
        }
        assert(insert_all(es) =~= es);
    }
}

/// Validity of the tail of a property list against its asset.
pub open spec fn wf_props_from(a: Asset, ps: Seq<Property>, i: int) -> bool
    decreases ps, 6int, ps.len() - i,
{
    if i < 0 || i >= ps.len() {
        true
    } else {
        wf_prop(a, ps[i]) && wf_props_from(a, ps, i + 1)
    }
}

/// Validity of the tail of an entry list against its asset.
pub open spec fn wf_pairs_from(a: Asset, es: Seq<(Property, Property)>, i: int) -> bool
    decreases es, 6int, es.len() - i,
{
    if i < 0 || i >= es.len() {
        true
    } else {
        wf_prop(a, es[i].0) && wf_prop(a, es[i].1) && wf_pairs_from(a, es, i + 1)
    }
}

/// Validity of the tail of a name-terminated property list: each listed
/// property is valid, its own name and type name resolve, and its body
/// fits the 32-bit length field.
pub open spec fn wf_named_from(a: Asset, ps: Seq<Property>, i: int) -> bool
    decreases ps, 6int, ps.len() - i,
{
    if i < 0 || i >= ps.len() {
        true
    } else {
        &&& wf_prop(a, ps[i])
        &&& wf_fname(a, prop_name(ps[i]))
        &&& name_present(a.names(), type_name_chars(ps[i]))
        &&& hdr_writable(a, ps[i])
        &&& wf_named_from(a, ps, i + 1)
    }
}

/// True when no listed property is a map container; byte-exact claims
/// about named lists are made under this side condition, because decoding
/// a map may collapse duplicate keys.
pub open spec fn props_no_map(ps: Seq<Property>) -> bool {
    forall|i: int| 0 <= i < ps.len() ==> !((#[trigger] ps[i]) is MapProperty)
}

/// True when every listed property's body fits the 32-bit length field of
/// the named list form.
pub open spec fn named_lens_fit(a: Asset, ps: Seq<Property>) -> bool {
    forall|i: int| 0 <= i < ps.len() ==> ser_body(a, #[trigger] ps[i]).len() <= i32::MAX
}

/// How many bytes a property's optional header occupies.
pub open spec fn ser_hdr_len(p: Property) -> int {
    (match p {
        Property::StructProperty(_) => 8int,
        Property::MapProperty(_) => 16int,
        _ => 0int,
    }) + (match prop_guid(p) {
        None => 1int,
        Some(_) => 17int,
    })
}

/// Validity of a decoded property value against its asset: every name its
/// wire form mentions resolves through the name table, strings are plain
/// ASCII, counts fit their 32-bit fields, and map keys are duplicate-free.
pub open spec fn wf_prop(a: Asset, p: Property) -> bool
    decreases p, 5int, 0int,
{
    match p {
        Property::IntProperty(_) => true,
        Property::StrProperty(x) => match x.value {
            None => true,
            Some(st) => wf_chars(st@),
        },
        Property::NameProperty(x) => wf_fname(a, x.value),
        Property::StructProperty(x) => wf_chars(x.struct_type.content@),
        Property::RawStructProperty(_) => true,
        Property::UnknownProperty(x) => wf_fname(a, x.serialized_type),
        Property::MovieSceneSequenceInstanceDataPtrProperty(_) => true,
        Property::MovieSceneEvalTemplatePtrProperty(x) => {
            &&& match x.template_type {
                None => x.value@.len() == 0,
                Some(st) => wf_chars(st@) && name_present(a.names(), "None"@),
            }
            &&& wf_named_from(a, x.value@, 0)
        },
        Property::MapProperty(m) => {
            &&& wf_fname(a, m.key_type)
            &&& wf_fname(a, m.value_type)
            &&& m.value@.len() <= i32::MAX
            &&& rem_count(m) <= i32::MAX
            &&& distinct_keys_model(m.value@)
            &&& wf_pairs_from(a, m.value@, 0)
            &&& match m.keys_to_remove {
                None => true,
                Some(v) => wf_props_from(a, v@, 0),
            }
        },
    }
}

/// True when the names a property's optional header mentions resolve
/// through the asset's table, so that a write with a header can succeed.
pub open spec fn hdr_writable(a: Asset, p: Property) -> bool {
    match p {
        Property::StructProperty(x) => name_present(a.names(), x.struct_type.content@),
        Property::MapProperty(m) => if m.value@.len() > 0 {
            name_present(a.names(), type_name_chars(m.value@[0].0)) && name_present(
                a.names(),
                type_name_chars(m.value@[0].1),
            )
        } else {
            name_present(a.names(), m.key_type.content@) && name_present(
                a.names(),
                m.value_type.content@,
            )
        },
        _ => true,
    }
}

/// The stream trace of a decoded map: the header names as they stood in
/// the stream, the removed keys, and the raw entry pairs in read order,
/// before duplicate keys collapse.
pub open spec fn map_read_trace(
    a: Asset,
    m: MapProperty,
    raw: Seq<(Property, Property)>,
    include_header: bool,
) -> Seq<u8> {
    (if include_header {
        fname_bytes(a, m.key_type) + fname_bytes(a, m.value_type) + guid_opt_bytes(m.property_guid)
    } else {
        Seq::<u8>::empty()
    }) + le_i32(rem_count(m) as i32) + ser_props_from(a, rem_seq(m), 0) + le_i32(
        raw.len() as i32,
    ) + ser_pairs_from(a, raw, 0)
}

/// How many bytes an optional GUID occupies at the head of `b`.
pub open spec fn guid_skip(b: Seq<u8>) -> int {
    if b.len() >= 1 && b[0] == 1 {
        17
    } else {
        1
    }
}

/// The length of a 32-bit little-endian wire integer.
pub proof fn lemma_le_lens()
    ensures
        forall|x: i32| (#[trigger] le_i32(x)).len() == 4,
        forall|x: u64| (#[trigger] crate::codec::le_u64(x)).len() == 8,
{
    vstd::bytes::lemma_auto_spec_u32_to_from_le_bytes();
    vstd::bytes::lemma_auto_spec_u64_to_from_le_bytes();
}

/// A property header's byte count is `ser_hdr_len` of it.
pub proof fn lemma_ser_hdr_len(a: Asset, p: Property)
    ensures
        ser_hdr(a, p).len() == ser_hdr_len(p),
{
    lemma_le_lens();
    match p {
        Property::StructProperty(x) => {
            assert(fname_bytes(a, x.struct_type).len() == 8);
        },
        Property::MapProperty(m) => {
            assert(map_hdr_key_bytes(a, m).len() == 8);
            assert(map_hdr_value_bytes(a, m).len() == 8);
        },
        _ => {},
    }
}

/// The byte count of a property's optional header, computed from the
/// value alone.
fn prop_hdr_len(p: &Property) -> (r: usize)
    ensures
        r as int == ser_hdr_len(*p),
{
    let base: usize = match p {
        Property::StructProperty(_) => 8,
        Property::MapProperty(_) => 16,
        _ => 0,
    };
    let guid_present = match p {
        Property::IntProperty(x) => x.property_guid.is_some(),
        Property::StrProperty(x) => x.property_guid.is_some(),
        Property::NameProperty(x) => x.property_guid.is_some(),
        Property::StructProperty(x) => x.property_guid.is_some(),
        Property::MapProperty(x) => x.property_guid.is_some(),
        Property::RawStructProperty(x) => x.property_guid.is_some(),
        Property::UnknownProperty(x) => x.property_guid.is_some(),
        Property::MovieSceneEvalTemplatePtrProperty(x) => x.property_guid.is_some(),
        Property::MovieSceneSequenceInstanceDataPtrProperty(x) => x.property_guid.is_some(),
    };
    if guid_present {
        base + 17
    } else {
        base + 1
    }
}

/// Appending a property to a list appends its body bytes.
pub proof fn lemma_ser_props_push(a: Asset, ps: Seq<Property>, p: Property, i: int)
    requires
        0 <= i <= ps.len(),
    ensures
        ser_props_from(a, ps.push(p), i) == ser_props_from(a, ps, i) + ser_body(a, p),
    decreases ps.len() - i,
{
    if i < ps.len() {
        lemma_ser_props_push(a, ps, p, i + 1);
        assert(ps.push(p)[i] == ps[i]);
        assert(ser_props_from(a, ps.push(p), i) =~= ser_props_from(a, ps, i) + ser_body(a, p));
    } else {
        assert(ps.push(p)[i] == p);
        assert(ser_props_from(a, ps.push(p), i + 1) =~= Seq::<u8>::empty());
        assert(ser_props_from(a, ps.push(p), i) =~= ser_props_from(a, ps, i) + ser_body(a, p));
    }
}

/// Appending an entry to a pair list appends its key and value bodies.
pub proof fn lemma_ser_pairs_push(
    a: Asset,
    es: Seq<(Property, Property)>,
    k: Property,
    v: Property,
    i: int,
)
    requires
        0 <= i <= es.len(),
    ensures
        ser_pairs_from(a, es.push((k, v)), i) == ser_pairs_from(a, es, i) + ser_body(a, k)
            + ser_body(a, v),
    decreases es.len() - i,
{
    if i < es.len() {
        lemma_ser_pairs_push(a, es, k, v, i + 1);
        assert(es.push((k, v))[i] == es[i]);
        assert(ser_pairs_from(a, es.push((k, v)), i) =~= ser_pairs_from(a, es, i) + ser_body(a, k)
            + ser_body(a, v));
    } else {
        assert(es.push((k, v))[i] == (k, v));
        assert(ser_pairs_from(a, es.push((k, v)), i + 1) =~= Seq::<u8>::empty());
        assert(ser_pairs_from(a, es.push((k, v)), i) =~= ser_pairs_from(a, es, i) + ser_body(a, k)
            + ser_body(a, v));
    }
}

/// Appending a property to a name-terminated list appends its named form.
pub proof fn lemma_ser_named_push(a: Asset, ps: Seq<Property>, p: Property, i: int)
    requires
        0 <= i <= ps.len(),
    ensures
        ser_named_from(a, ps.push(p), i) == ser_named_from(a, ps, i) + ser_named(a, p),
    decreases ps.len() - i,
{
    if i < ps.len() {
        lemma_ser_named_push(a, ps, p, i + 1);
        assert(ps.push(p)[i] == ps[i]);
        assert(ser_named_from(a, ps.push(p), i) =~= ser_named_from(a, ps, i) + ser_named(a, p));
    } else {
        assert(ps.push(p)[i] == p);
        assert(ser_named_from(a, ps.push(p), i + 1) =~= Seq::<u8>::empty());
        assert(ser_named_from(a, ps.push(p), i) =~= ser_named_from(a, ps, i) + ser_named(a, p));
    }
}

/// A property list is valid from `i` exactly when each listed property is.
pub proof fn lemma_wf_props_index(a: Asset, ps: Seq<Property>, i: int)
    requires
        0 <= i <= ps.len(),
    ensures
        wf_props_from(a, ps, i) <==> (forall|k: int| i <= k < ps.len() ==> wf_prop(
            a,
            #[trigger] ps[k],
        )),
    decreases ps.len() - i,
{
    if i < ps.len() {
        lemma_wf_props_index(a, ps, i + 1);
    }
}

/// An entry list is valid from `i` exactly when each listed pair is.
pub proof fn lemma_wf_pairs_index(a: Asset, es: Seq<(Property, Property)>, i: int)
    requires
        0 <= i <= es.len(),
    ensures
        wf_pairs_from(a, es, i) <==> (forall|k: int| i <= k < es.len() ==> wf_prop(
            a,
            (#[trigger] es[k]).0,
        ) && wf_prop(a, es[k].1)),
    decreases es.len() - i,
{
    if i < es.len() {
        lemma_wf_pairs_index(a, es, i + 1);
    }
}

/// A named list is valid from `i` exactly when each listed property is
/// valid, resolvable, and short enough for its length field.
pub proof fn lemma_wf_named_index(a: Asset, ps: Seq<Property>, i: int)
    requires
        0 <= i <= ps.len(),
    ensures
        wf_named_from(a, ps, i) <==> (forall|k: int| i <= k < ps.len() ==> wf_prop(
            a,
            #[trigger] ps[k],
        ) && wf_fname(a, prop_name(ps[k])) && name_present(a.names(), type_name_chars(ps[k]))
            && hdr_writable(a, ps[k])),
    decreases ps.len() - i,
{
    if i < ps.len() {
        lemma_wf_named_index(a, ps, i + 1);
    }
}

impl Property {
    /// The type-name string this value writes for itself, as an interned
    /// name with instance index zero; an unknown property hands its
    /// original serialized type back verbatim.
    pub fn to_fname(&self) -> (r: FName)
        ensures
            r.content@ == type_name_chars(*self),
            r.index == type_fname_index(*self),
    {
        match self {
            Property::IntProperty(_) => FName::new("IntProperty".to_owned(), 0),
            Property::StrProperty(_) => FName::new("StrProperty".to_owned(), 0),
            Property::NameProperty(_) => FName::new("NameProperty".to_owned(), 0),
            Property::StructProperty(_) => FName::new("StructProperty".to_owned(), 0),
            Property::MapProperty(_) => FName::new("MapProperty".to_owned(), 0),
            Property::RawStructProperty(_) => FName::new("RawStructProperty".to_owned(), 0),
            Property::UnknownProperty(x) => FName::new(
                x.serialized_type.content.clone(),
                x.serialized_type.index,
            ),
            Property::MovieSceneEvalTemplatePtrProperty(_) => FName::new(
                "MovieSceneEvalTemplatePtrProperty".to_owned(),
                0,
            ),
            Property::MovieSceneSequenceInstanceDataPtrProperty(_) => FName::new(
                "MovieSceneSequenceInstanceDataPtrProperty".to_owned(),
                0,
            ),
        }
    }
}

/// Compares two optional GUIDs by content.
fn guid_eq(a: &Option<Guid>, b: &Option<Guid>) -> (r: bool)
    ensures
        r == (guid_model(*a) == guid_model(*b)),
{
    match (a, b) {
        (None, None) => true,
        (Some(x), Some(y)) => {
            let mut i: usize = 0;
            while i < 16
                invariant
                    i <= 16,
                    x@.len() == 16,
                    y@.len() == 16,
                    guid_model(*a) == Some(x@),
                    guid_model(*b) == Some(y@),
                    forall|j: int| 0 <= j < i ==> x@[j] == y@[j],
                decreases 16 - i,
            {
                if x[i] != y[i] {
                    proof {
                        assert(guid_model(*a) == Some(x@));
                        assert(guid_model(*b) == Some(y@));
                        assert(x@[i as int] != y@[i as int]);
                        assert(x@ != y@);
                    }
                    return false;
                }
                i = i + 1;
            }
            proof {
                assert(x@ =~= y@);
            }
            true
        },
        (None, Some(_)) => false,
        (Some(_), None) => false,
    }
}

/// Compares two byte vectors by content.
fn bytes_eq(a: &Vec<u8>, b: &Vec<u8>) -> (r: bool)
    ensures
        r == (a@ == b@),
{
    if a.len() != b.len() {
        return false;
    }
    let mut i: usize = 0;
    while i < a.len()
        invariant
            i <= a@.len(),
            a@.len() == b@.len(),
            forall|j: int| 0 <= j < i ==> a@[j] == b@[j],
        decreases a@.len() - i,
    {
        if a[i] != b[i] {
            return false;
        }
        i = i + 1;
    }
    proof {
        assert(a@ =~= b@);
    }
    true
}

/// Compares two optional strings by content.
fn opt_str_eq(a: &Option<String>, b: &Option<String>) -> (r: bool)
    ensures
        r == (opt_str_view(*a) == opt_str_view(*b)),
{
    match (a, b) {
        (None, None) => true,
        (Some(x), Some(y)) => {
            let r = x.eq(y);
            proof {
                assert(opt_str_view(*a) == Some(x@));
                assert(opt_str_view(*b) == Some(y@));
            }
            r
        },
        (None, Some(_)) => false,
        (Some(_), None) => false,
    }
}

/// Compares two property values by their mathematical models: deep
/// structural equality over every field.
pub fn prop_eq(x: &Property, y: &Property) -> (r: bool)
    ensures
        r == (model(*x) == model(*y)),
    decreases *x,
{
    match (x, y) {
        (Property::IntProperty(a), Property::IntProperty(b)) => crate::types::fname_eq(
            &a.name,
            &b.name,
        ) && guid_eq(&a.property_guid, &b.property_guid) && a.duplication_index
            == b.duplication_index && a.value == b.value,
        (Property::StrProperty(a), Property::StrProperty(b)) => crate::types::fname_eq(
            &a.name,
            &b.name,
        ) && guid_eq(&a.property_guid, &b.property_guid) && a.duplication_index
            == b.duplication_index && opt_str_eq(&a.value, &b.value),
        (Property::NameProperty(a), Property::NameProperty(b)) => crate::types::fname_eq(
            &a.name,
            &b.name,
        ) && guid_eq(&a.property_guid, &b.property_guid) && a.duplication_index
            == b.duplication_index && crate::types::fname_eq(&a.value, &b.value),
        (Property::StructProperty(a), Property::StructProperty(b)) => crate::types::fname_eq(
            &a.name,
            &b.name,
        ) && crate::types::fname_eq(&a.struct_type, &b.struct_type) && guid_eq(
            &a.property_guid,
            &b.property_guid,
        ) && a.duplication_index == b.duplication_index && bytes_eq(&a.value, &b.value),
        (Property::RawStructProperty(a), Property::RawStructProperty(b)) => crate::types::fname_eq(
            &a.name,
            &b.name,
        ) && guid_eq(&a.property_guid, &b.property_guid) && a.duplication_index
            == b.duplication_index && bytes_eq(&a.value, &b.value),
        (Property::UnknownProperty(a), Property::UnknownProperty(b)) => crate::types::fname_eq(
            &a.name,
            &b.name,
        ) && guid_eq(&a.property_guid, &b.property_guid) && a.duplication_index
            == b.duplication_index && bytes_eq(&a.value, &b.value) && crate::types::fname_eq(
            &a.serialized_type,
            &b.serialized_type,
        ),
        (
            Property::MovieSceneSequenceInstanceDataPtrProperty(a),
            Property::MovieSceneSequenceInstanceDataPtrProperty(b),
        ) => crate::types::fname_eq(&a.name, &b.name) && guid_eq(
            &a.property_guid,
            &b.property_guid,
        ) && a.duplication_index == b.duplication_index && a.value.index == b.value.index,
        (
            Property::MovieSceneEvalTemplatePtrProperty(a),
            Property::MovieSceneEvalTemplatePtrProperty(b),
        ) => {
            if !(crate::types::fname_eq(&a.name, &b.name) && guid_eq(
                &a.property_guid,
                &b.property_guid,
            ) && a.duplication_index == b.duplication_index && opt_str_eq(
                &a.template_type,
                &b.template_type,
            )) {
                return false;
            }
            if !props_eq(&a.value, &b.value) {
                return false;
            }
            true
        },
        (Property::MapProperty(a), Property::MapProperty(b)) => {
            if !(crate::types::fname_eq(&a.name, &b.name) && guid_eq(
                &a.property_guid,
                &b.property_guid,
            ) && a.duplication_index == b.duplication_index && crate::types::fname_eq(
                &a.key_type,
                &b.key_type,
            ) && crate::types::fname_eq(&a.value_type, &b.value_type)) {
                return false;
            }
            if !pairs_eq(&a.value, &b.value) {
                return false;
            }
            match (&a.keys_to_remove, &b.keys_to_remove) {
                (None, None) => true,
                (Some(u), Some(w)) => {
                    let r = props_eq(u, w);
                    proof {
                        assert(model(*x)->MapData_removed == Some(prop_models(u@, 0)));
                        assert(model(*y)->MapData_removed == Some(prop_models(w@, 0)));
                    }
                    r
                },
                (None, Some(_)) => false,
                (Some(_), None) => false,
            }
        },
        _ => false,
    }
}

/// Compares two property lists by their models, pairwise.
fn props_eq(u: &Vec<Property>, w: &Vec<Property>) -> (r: bool)
    ensures
        r == (prop_models(u@, 0) == prop_models(w@, 0)),
    decreases u@,
{
    proof {
        lemma_prop_models_index(u@, 0);
        lemma_prop_models_index(w@, 0);
    }
    if u.len() != w.len() {
        return false;
    }
    let mut i: usize = 0;
    while i < u.len()
        invariant
            i <= u@.len(),
            u@.len() == w@.len(),
            prop_models(u@, 0).len() == u@.len(),
            prop_models(w@, 0).len() == w@.len(),
            forall|k: int| 0 <= k < u@.len() ==> #[trigger] prop_models(u@, 0)[k] == model(u@[k]),
            forall|k: int| 0 <= k < w@.len() ==> #[trigger] prop_models(w@, 0)[k] == model(w@[k]),
            forall|j: int| 0 <= j < i ==> model(#[trigger] u@[j]) == model(w@[j]),
        decreases u@.len() - i,
    {
        if !prop_eq(&u[i], &w[i]) {
            proof {
                assert(prop_models(u@, 0)[i as int] != prop_models(w@, 0)[i as int]);
            }
            return false;
        }
        i = i + 1;
    }
    proof {
        assert(prop_models(u@, 0) =~= prop_models(w@, 0));
    }
    true
}

/// Compares two entry lists by their models, pairwise.
fn pairs_eq(u: &Vec<(Property, Property)>, w: &Vec<(Property, Property)>) -> (r: bool)
    ensures
        r == (pair_models(u@, 0) == pair_models(w@, 0)),
    decreases u@,
{
    proof {
        lemma_pair_models_index(u@, 0);
        lemma_pair_models_index(w@, 0);
    }
    if u.len() != w.len() {
        return false;
    }
    let mut i: usize = 0;
    while i < u.len()
        invariant
            i <= u@.len(),
            u@.len() == w@.len(),
            pair_models(u@, 0).len() == u@.len(),
            pair_models(w@, 0).len() == w@.len(),
            forall|k: int| 0 <= k < u@.len() ==> #[trigger] pair_models(u@, 0)[k] == (
                model(u@[k].0),
                model(u@[k].1),
            ),
            forall|k: int| 0 <= k < w@.len() ==> #[trigger] pair_models(w@, 0)[k] == (
                model(w@[k].0),
                model(w@[k].1),
            ),
            forall|j: int| 0 <= j < i ==> model((#[trigger] u@[j]).0) == model(w@[j].0) && model(
                u@[j].1,
            ) == model(w@[j].1),
        decreases u@.len() - i,
    {
        if !prop_eq(&u[i].0, &w[i].0) {
            proof {
                assert(pair_models(u@, 0)[i as int] != pair_models(w@, 0)[i as int]);
            }
            return false;
        }
        if !prop_eq(&u[i].1, &w[i].1) {
            proof {
                assert(pair_models(u@, 0)[i as int] != pair_models(w@, 0)[i as int]);
            }
            return false;
        }
        i = i + 1;
    }
    proof {
        assert(pair_models(u@, 0) =~= pair_models(w@, 0));
    }
    true
}

/// Inserts one key/value pair into a duplicate-free entry list: an
/// existing key is overwritten in place, a fresh key is appended.
pub fn map_insert(entries: &mut Vec<(Property, Property)>, k: Property, v: Property)
    requires
        distinct_keys_model(old(entries)@),
    ensures
        final(entries)@ == insert_pair(old(entries)@, k, v),
        distinct_keys_model(final(entries)@),
{
    let n = entries.len();
    let mut i: usize = 0;
    while i < n
        invariant
            i <= n,
            n == entries@.len(),
            entries@ == old(entries)@,
            distinct_keys_model(entries@),
            forall|j: int| 0 <= j < i ==> model((#[trigger] entries@[j]).0) != model(k),
        decreases n - i,
    {
        if prop_eq(&entries[i].0, &k) {
            proof {
                assert(pair_key_present(entries@, k));
                let j = pair_key_at(entries@, k);
                assert(0 <= j < entries@.len() && model(entries@[j].0) == model(k));
                if j < i {
                    assert(model(entries@[j].0) != model(k));
                } else if i < j {
                    assert(model(entries@[i as int].0) != model(entries@[j].0));
                }
                assert(pair_key_at(entries@, k) == i as int);
            }
            entries[i] = (k, v);
            proof {
                assert(entries@ =~= insert_pair(old(entries)@, k, v));
            }
            return ;
        }
        i = i + 1;
    }
    proof {
        assert(!pair_key_present(entries@, k));
    }
    entries.push((k, v));
    proof {
        assert(entries@ =~= insert_pair(old(entries)@, k, v));
    }
}

impl IntProperty {
    /// Reads a 32-bit integer property: the optional header GUID when the
    /// call site asks for one, then the value.
    pub fn new(
        asset: &Asset,
        reader: &mut ByteReader,
        name: FName,
        include_header: bool,
        duplication_index: i32,
    ) -> (r: Result<IntProperty, Error>)
        requires
            asset.wf(),
            old(reader).wf(),
        ensures
            ByteReader::advanced(*old(reader), *final(reader)),
            r is Ok <==> (if include_header {
                guid_parse_ok(old(reader).rest()) && old(reader).remaining() >= guid_skip(
                    old(reader).rest(),
                ) + 4
            } else {
                old(reader).remaining() >= 4
            }),
            match r {
                Ok(p) => {
                    &&& p.name == name
                    &&& p.duplication_index == duplication_index
                    &&& !include_header ==> p.property_guid is None
                    &&& ByteReader::taken(*old(reader), *final(reader)) == ser_prop(
                        *asset,
                        Property::IntProperty(p),
                        include_header,
                    )
                },
                Err(e) => {
                    &&& (e.is_invalid_file() <==> (include_header && guid_flag_bad(
                        old(reader).rest(),
                    )))
                    &&& (e.is_io() <==> !(include_header && guid_flag_bad(old(reader).rest())))
                },
            },
    {
        let ghost p0 = reader.pos as int;
        let property_guid = if include_header {
            match reader.read_property_guid() {
                Ok(g) => g,
                Err(e) => {
                    return Err(e);
                },
            }
        } else {
            None
        };
        let ghost p1 = reader.pos as int;
        let value = match reader.read_i32() {
            Ok(x) => x,
            Err(e) => {
                return Err(e);
            },
        };
        let p = IntProperty { name, property_guid, duplication_index, value };
        proof {
            lemma_subrange_concat(old(reader).data@, p0, p1, reader.pos as int);
            assert(ByteReader::taken(*old(reader), *reader) =~= ser_prop(
                *asset,
                Property::IntProperty(p),
                include_header,
            ));
        }
        Ok(p)
    }
}

impl StrProperty {
    /// Reads an optional string property: the optional header GUID when the
    /// call site asks for one, then the length-prefixed string.
    pub fn new(
        asset: &Asset,
        reader: &mut ByteReader,
        name: FName,
        include_header: bool,
        duplication_index: i32,
    ) -> (r: Result<StrProperty, Error>)
        requires
            asset.wf(),
            old(reader).wf(),
        ensures
            ByteReader::advanced(*old(reader), *final(reader)),
            r is Ok <==> (if include_header {
                guid_parse_ok(old(reader).rest()) && string_parse_ok(
                    old(reader).rest().skip(guid_skip(old(reader).rest())),
                )
            } else {
                string_parse_ok(old(reader).rest())
            }),
            match r {
                Ok(p) => {
                    &&& p.name == name
                    &&& p.duplication_index == duplication_index
                    &&& !include_header ==> p.property_guid is None
                    &&& wf_prop(*asset, Property::StrProperty(p))
                    &&& ByteReader::taken(*old(reader), *final(reader)) == ser_prop(
                        *asset,
                        Property::StrProperty(p),
                        include_header,
                    )
                },
                Err(e) => {
                    &&& (e.is_invalid_file() <==> (if include_header {
                        guid_flag_bad(old(reader).rest()) || (guid_parse_ok(old(reader).rest())
                            && !crate::codec::string_parse_truncated(
                            old(reader).rest().skip(guid_skip(old(reader).rest())),
                        ))
                    } else {
                        !crate::codec::string_parse_truncated(old(reader).rest())
                    }))
                    &&& (e.is_io() <==> !(if include_header {
                        guid_flag_bad(old(reader).rest()) || (guid_parse_ok(old(reader).rest())
                            && !crate::codec::string_parse_truncated(
                            old(reader).rest().skip(guid_skip(old(reader).rest())),
                        ))
                    } else {
                        !crate::codec::string_parse_truncated(old(reader).rest())
                    }))
                },
            },
    {
        let ghost p0 = reader.pos as int;
        let property_guid = if include_header {
            match reader.read_property_guid() {
                Ok(g) => g,
                Err(e) => {
                    return Err(e);
                },
            }
        } else {
            None
        };
        let ghost p1 = reader.pos as int;
        proof {
            if include_header {
                assert(reader.rest() =~= old(reader).rest().skip(guid_skip(old(reader).rest())));
            } else {
                assert(reader.rest() =~= old(reader).rest());
            }
        }
        let value = match reader.read_string() {
            Ok(s) => s,
            Err(e) => {
                return Err(e);
            },
        };
        let p = StrProperty { name, property_guid, duplication_index, value };
        proof {
            lemma_subrange_concat(old(reader).data@, p0, p1, reader.pos as int);
            assert(ByteReader::taken(*old(reader), *reader) =~= ser_prop(
                *asset,
                Property::StrProperty(p),
                include_header,
            ));
        }
        Ok(p)
    }
}

impl NameProperty {
    /// Reads an interned-name property: the optional header GUID when the
    /// call site asks for one, then the name.
    pub fn new(
        asset: &Asset,
        reader: &mut ByteReader,
        name: FName,
        include_header: bool,
        duplication_index: i32,
    ) -> (r: Result<NameProperty, Error>)
        requires
            asset.wf(),
            old(reader).wf(),
        ensures
            ByteReader::advanced(*old(reader), *final(reader)),
            r is Ok <==> (if include_header {
                guid_parse_ok(old(reader).rest()) && fname_parse_ok(
                    *asset,
                    old(reader).rest().skip(guid_skip(old(reader).rest())),
                )
            } else {
                fname_parse_ok(*asset, old(reader).rest())
            }),
            match r {
                Ok(p) => {
                    &&& p.name == name
                    &&& p.duplication_index == duplication_index
                    &&& !include_header ==> p.property_guid is None
                    &&& wf_prop(*asset, Property::NameProperty(p))
                    &&& ByteReader::taken(*old(reader), *final(reader)) == ser_prop(
                        *asset,
                        Property::NameProperty(p),
                        include_header,
                    )
                },
                Err(e) => {
                    &&& (e.is_invalid_file() <==> (if include_header {
                        guid_flag_bad(old(reader).rest()) || (guid_parse_ok(old(reader).rest())
                            && old(reader).rest().skip(guid_skip(old(reader).rest())).len() >= 8)
                    } else {
                        old(reader).rest().len() >= 8
                    }))
                    &&& (e.is_io() <==> !(if include_header {
                        guid_flag_bad(old(reader).rest()) || (guid_parse_ok(old(reader).rest())
                            && old(reader).rest().skip(guid_skip(old(reader).rest())).len() >= 8)
                    } else {
                        old(reader).rest().len() >= 8
                    }))
                },
            },
    {
        let ghost p0 = reader.pos as int;
        let property_guid = if include_header {
            match reader.read_property_guid() {
                Ok(g) => g,
                Err(e) => {
                    return Err(e);
                },
            }
        } else {
            None
        };
        let ghost p1 = reader.pos as int;
        proof {
            if include_header {
                assert(reader.rest() =~= old(reader).rest().skip(guid_skip(old(reader).rest())));
            } else {
                assert(reader.rest() =~= old(reader).rest());
            }
        }
        let value = match asset.read_fname(reader) {
            Ok(f) => f,
            Err(e) => {
                return Err(e);
            },
        };
        let p = NameProperty { name, property_guid, duplication_index, value };
        proof {
            lemma_subrange_concat(old(reader).data@, p0, p1, reader.pos as int);
            assert(ByteReader::taken(*old(reader), *reader) =~= ser_prop(
                *asset,
                Property::NameProperty(p),
                include_header,
            ));
        }
        Ok(p)
    }
}

impl MovieSceneSequenceInstanceDataPtrProperty {
    /// Reads a sequence instance data pointer: the optional header GUID
    /// when the call site asks for one, then one package index.
    pub fn new(
        asset: &Asset,
        reader: &mut ByteReader,
        name: FName,
        include_header: bool,
        duplication_index: i32,
    ) -> (r: Result<MovieSceneSequenceInstanceDataPtrProperty, Error>)
        requires
            asset.wf(),
            old(reader).wf(),
        ensures
            ByteReader::advanced(*old(reader), *final(reader)),
            r is Ok <==> (if include_header {
                guid_parse_ok(old(reader).rest()) && old(reader).remaining() >= guid_skip(
                    old(reader).rest(),
                ) + 4
            } else {
                old(reader).remaining() >= 4
            }),
            match r {
                Ok(p) => {
                    &&& p.name == name
                    &&& p.duplication_index == duplication_index
                    &&& !include_header ==> p.property_guid is None
                    &&& ByteReader::taken(*old(reader), *final(reader)) == ser_prop(
                        *asset,
                        Property::MovieSceneSequenceInstanceDataPtrProperty(p),
                        include_header,
                    )
                },
                Err(e) => {
                    &&& (e.is_invalid_file() <==> (include_header && guid_flag_bad(
                        old(reader).rest(),
                    )))
                    &&& (e.is_io() <==> !(include_header && guid_flag_bad(old(reader).rest())))
                },
            },
    {
        let ghost p0 = reader.pos as int;
        let property_guid = if include_header {
            match reader.read_property_guid() {
                Ok(g) => g,
                Err(e) => {
                    return Err(e);
                },
            }
        } else {
            None
        };
        let ghost p1 = reader.pos as int;
        let raw = match reader.read_i32() {
            Ok(x) => x,
            Err(e) => {
                return Err(e);
            },
        };
        let p = MovieSceneSequenceInstanceDataPtrProperty {
            name,
            property_guid,
            duplication_index,
            value: PackageIndex::new(raw),
        };
        proof {
            lemma_subrange_concat(old(reader).data@, p0, p1, reader.pos as int);
            assert(ByteReader::taken(*old(reader), *reader) =~= ser_prop(
                *asset,
                Property::MovieSceneSequenceInstanceDataPtrProperty(p),
                include_header,
            ));
        }
        Ok(p)
    }
}

/// Reads `length` raw payload bytes, rejecting a negative length as
/// malformed.
fn read_raw_payload(reader: &mut ByteReader, length: i64) -> (r: Result<Vec<u8>, Error>)
    requires
        old(reader).wf(),
    ensures
        ByteReader::advanced(*old(reader), *final(reader)),
        r is Ok <==> 0 <= length && length <= old(reader).remaining(),
        match r {
            Ok(v) => {
                &&& v@ == ByteReader::taken(*old(reader), *final(reader))
                &&& v@.len() == length
            },
            Err(e) => *final(reader) == *old(reader) && (e.is_io() == (0 <= length))
                && (e.is_invalid_file() == (length < 0)),
        },
{
    if length < 0 {
        return Err(Error::invalid_file("the payload length is negative".to_owned()));
    }
    if (length as u64) > (reader.data.len() - reader.pos) as u64 {
        return Err(Error::io("stream ended while reading a payload".to_owned()));
    }
    reader.read_bytes(length as usize)
}

impl RawStructProperty {
    /// Reads a raw struct payload: the optional header GUID when the call
    /// site asks for one, then `length` bytes carried through verbatim.
    pub fn new(
        asset: &Asset,
        reader: &mut ByteReader,
        name: FName,
        include_header: bool,
        duplication_index: i32,
        length: i64,
    ) -> (r: Result<RawStructProperty, Error>)
        requires
            asset.wf(),
            old(reader).wf(),
        ensures
            ByteReader::advanced(*old(reader), *final(reader)),
            r is Ok <==> (if include_header {
                guid_parse_ok(old(reader).rest()) && 0 <= length && guid_skip(old(reader).rest())
                    + length <= old(reader).remaining()
            } else {
                0 <= length && length <= old(reader).remaining()
            }),
            match r {
                Ok(p) => {
                    &&& p.name == name
                    &&& p.duplication_index == duplication_index
                    &&& !include_header ==> p.property_guid is None
                    &&& p.value@.len() == length
                    &&& ByteReader::taken(*old(reader), *final(reader)) == ser_prop(
                        *asset,
                        Property::RawStructProperty(p),
                        include_header,
                    )
                },
                Err(e) => {
                    &&& (e.is_invalid_file() <==> (if include_header {
                        guid_flag_bad(old(reader).rest()) || (guid_parse_ok(old(reader).rest())
                            && length < 0)
                    } else {
                        length < 0
                    }))
                    &&& (e.is_io() <==> !(if include_header {
                        guid_flag_bad(old(reader).rest()) || (guid_parse_ok(old(reader).rest())
                            && length < 0)
                    } else {
                        length < 0
                    }))
                },
            },
    {
        let ghost p0 = reader.pos as int;
        let property_guid = if include_header {
            match reader.read_property_guid() {
                Ok(g) => g,
                Err(e) => {
                    return Err(e);
                },
            }
        } else {
            None
        };
        let ghost p1 = reader.pos as int;
        let value = match read_raw_payload(reader, length) {
            Ok(v) => v,
            Err(e) => {
                return Err(e);
            },
        };
        let p = RawStructProperty { name, property_guid, duplication_index, value };
        proof {
            lemma_subrange_concat(old(reader).data@, p0, p1, reader.pos as int);
            assert(ByteReader::taken(*old(reader), *reader) =~= ser_prop(
                *asset,
                Property::RawStructProperty(p),
                include_header,
            ));
        }
        Ok(p)
    }
}

impl UnknownProperty {
    /// Reads a property of an unrecognized serialized type: the optional
    /// header GUID when the call site asks for one, then `length` bytes
    /// preserved verbatim together with the original type string.
    pub fn new(
        asset: &Asset,
        reader: &mut ByteReader,
        name: FName,
        include_header: bool,
        length: i64,
        duplication_index: i32,
        serialized_type: FName,
    ) -> (r: Result<UnknownProperty, Error>)
        requires
            asset.wf(),
            old(reader).wf(),
            wf_fname(*asset, serialized_type),
        ensures
            ByteReader::advanced(*old(reader), *final(reader)),
            r is Ok <==> (if include_header {
                guid_parse_ok(old(reader).rest()) && 0 <= length && guid_skip(old(reader).rest())
                    + length <= old(reader).remaining()
            } else {
                0 <= length && length <= old(reader).remaining()
            }),
            match r {
                Ok(p) => {
                    &&& p.name == name
                    &&& p.duplication_index == duplication_index
                    &&& p.serialized_type == serialized_type
                    &&& !include_header ==> p.property_guid is None
                    &&& p.value@.len() == length
                    &&& wf_prop(*asset, Property::UnknownProperty(p))
                    &&& ByteReader::taken(*old(reader), *final(reader)) == ser_prop(
                        *asset,
                        Property::UnknownProperty(p),
                        include_header,
                    )
                },
                Err(e) => {
                    &&& (e.is_invalid_file() <==> (if include_header {
                        guid_flag_bad(old(reader).rest()) || (guid_parse_ok(old(reader).rest())
                            && length < 0)
                    } else {
                        length < 0
                    }))
                    &&& (e.is_io() <==> !(if include_header {
                        guid_flag_bad(old(reader).rest()) || (guid_parse_ok(old(reader).rest())
                            && length < 0)
                    } else {
                        length < 0
                    }))
                },
            },
    {
        let ghost p0 = reader.pos as int;
        let property_guid = if include_header {
            match reader.read_property_guid() {
                Ok(g) => g,
                Err(e) => {
                    return Err(e);
                },
            }
        } else {
            None
        };
        let ghost p1 = reader.pos as int;
        let value = match read_raw_payload(reader, length) {
            Ok(v) => v,
            Err(e) => {
                return Err(e);
            },
        };
        let p = UnknownProperty { name, property_guid, duplication_index, value, serialized_type };
        proof {
            lemma_subrange_concat(old(reader).data@, p0, p1, reader.pos as int);
            assert(ByteReader::taken(*old(reader), *reader) =~= ser_prop(
                *asset,
                Property::UnknownProperty(p),
                include_header,
            ));
        }
        Ok(p)
    }
}

impl StructProperty {
    /// Reads a struct-typed property. With a header the struct type name
    /// and the optional GUID come from the stream; without one the caller
    /// supplies the resolved struct type. The payload is `length` bytes
    /// carried through verbatim.
    pub fn new(
        asset: &Asset,
        reader: &mut ByteReader,
        name: FName,
        struct_type: FName,
        include_header: bool,
        length: i64,
        duplication_index: i32,
    ) -> (r: Result<StructProperty, Error>)
        requires
            asset.wf(),
            old(reader).wf(),
            wf_chars(struct_type.content@),
        ensures
            ByteReader::advanced(*old(reader), *final(reader)),
            r is Ok <==> (if include_header {
                fname_parse_ok(*asset, old(reader).rest()) && guid_parse_ok(
                    old(reader).rest().skip(8),
                ) && 0 <= length && 8 + guid_skip(old(reader).rest().skip(8)) + length <= old(
                    reader,
                ).remaining()
            } else {
                0 <= length && length <= old(reader).remaining()
            }),
            match r {
                Ok(p) => {
                    &&& p.name == name
                    &&& p.duplication_index == duplication_index
                    &&& !include_header ==> (p.struct_type == struct_type && p.property_guid
                        is None)
                    &&& p.value@.len() == length
                    &&& wf_prop(*asset, Property::StructProperty(p))
                    &&& (include_header ==> hdr_writable(*asset, Property::StructProperty(p)))
                    &&& ByteReader::taken(*old(reader), *final(reader)) == ser_prop(
                        *asset,
                        Property::StructProperty(p),
                        include_header,
                    )
                },
                Err(e) => {
                    &&& (e.is_invalid_file() <==> (if include_header {
                        (old(reader).rest().len() >= 8 && !(0 <= dec_i32(
                            old(reader).rest().take(4),
                        ) < asset.names().len())) || (fname_parse_ok(*asset, old(reader).rest())
                            && guid_flag_bad(old(reader).rest().skip(8))) || (fname_parse_ok(
                            *asset,
                            old(reader).rest(),
                        ) && guid_parse_ok(old(reader).rest().skip(8)) && length < 0)
                    } else {
                        length < 0
                    }))
                    &&& (e.is_io() <==> !(if include_header {
                        (old(reader).rest().len() >= 8 && !(0 <= dec_i32(
                            old(reader).rest().take(4),
                        ) < asset.names().len())) || (fname_parse_ok(*asset, old(reader).rest())
                            && guid_flag_bad(old(reader).rest().skip(8))) || (fname_parse_ok(
                            *asset,
                            old(reader).rest(),
                        ) && guid_parse_ok(old(reader).rest().skip(8)) && length < 0)
                    } else {
                        length < 0
                    }))
                },
            },
    {
        let ghost p0 = reader.pos as int;
        let (st, property_guid) = if include_header {
            let st = match asset.read_fname(reader) {
                Ok(f) => f,
                Err(e) => {
                    return Err(e);
                },
            };
            proof {
                assert(reader.rest() =~= old(reader).rest().skip(8));
            }
            let g = match reader.read_property_guid() {
                Ok(g) => g,
                Err(e) => {
                    return Err(e);
                },
            };
            (st, g)
        } else {
            (struct_type, None)
        };
        let ghost p1 = reader.pos as int;
        let value = match read_raw_payload(reader, length) {
            Ok(v) => v,
            Err(e) => {
                return Err(e);
            },
        };
        let p = StructProperty {
            name,
            struct_type: st,
            property_guid,
            duplication_index,
            value,
        };
        proof {
            if include_header {
                lemma_subrange_concat(old(reader).data@, p0, p0 + 8, p1);
            }
            lemma_subrange_concat(old(reader).data@, p0, p1, reader.pos as int);
            assert(ByteReader::taken(*old(reader), *reader) =~= ser_prop(
                *asset,
                Property::StructProperty(p),
                include_header,
            ));
        }
        Ok(p)
    }
}

/// True when re-serializing the value reproduces the bytes it was decoded
/// from without a side condition: maps are excluded, because decoding one
/// may collapse duplicate keys, and a template pointer is exact when every
/// listed property is.
pub open spec fn collapse_free(p: Property) -> bool
    decreases p, 7int, 0int,
{
    match p {
        Property::MapProperty(_) => false,
        Property::MovieSceneEvalTemplatePtrProperty(x) => collapse_free_from(x.value@, 0),
        _ => true,
    }
}

/// Collapse freedom of the tail of a property list, from position `i`.
pub open spec fn collapse_free_from(ps: Seq<Property>, i: int) -> bool
    decreases ps, 8int, ps.len() - i,
{
    if i < 0 || i >= ps.len() {
        true
    } else {
        collapse_free(ps[i]) && collapse_free_from(ps, i + 1)
    }
}

/// Collapse freedom of the tail of an entry list, from position `i`.
pub open spec fn collapse_free_pairs_from(es: Seq<(Property, Property)>, i: int) -> bool
    decreases es, 8int, es.len() - i,
{
    if i < 0 || i >= es.len() {
        true
    } else {
        collapse_free(es[i].0) && collapse_free(es[i].1) && collapse_free_pairs_from(es, i + 1)
    }
}

/// An entry list is collapse-free from `i` exactly when each listed pair
/// is.
pub proof fn lemma_collapse_free_pairs_index(es: Seq<(Property, Property)>, i: int)
    requires
        0 <= i <= es.len(),
    ensures
        collapse_free_pairs_from(es, i) <==> (forall|k: int| i <= k < es.len() ==> collapse_free(
            (#[trigger] es[k]).0,
        ) && collapse_free(es[k].1)),
    decreases es.len() - i,
{
    if i < es.len() {
        lemma_collapse_free_pairs_index(es, i + 1);
    }
}

/// A property list is collapse-free from `i` exactly when each listed
/// property is.
pub proof fn lemma_collapse_free_index(ps: Seq<Property>, i: int)
    requires
        0 <= i <= ps.len(),
    ensures
        collapse_free_from(ps, i) <==> (forall|k: int| i <= k < ps.len() ==> collapse_free(
            #[trigger] ps[k],
        )),
    decreases ps.len() - i,
{
    if i < ps.len() {
        lemma_collapse_free_index(ps, i + 1);
    }
}

/// The composite element types whose wire form has a fixed byte count at
/// the synthetic element length: integers and instance pointers take four
/// bytes, struct placeholders one.
pub open spec fn fixed_elem_type(t: Seq<char>) -> bool {
    t == "IntProperty"@ || t == "MovieSceneSequenceInstanceDataPtrProperty"@ || t
        == "StructProperty"@
}

/// The byte count of one such element.
pub open spec fn fixed_elem_len(t: Seq<char>) -> int {
    if t == "StructProperty"@ {
        1int
    } else {
        4int
    }
}

/// True of byte streams whose head is a complete map body with header
/// whose key and value types are fixed-size element types and whose
/// counts are covered by the stream.
pub open spec fn map_fixed_head_ok(a: Asset, b: Seq<u8>) -> bool {
    &&& fname_parse_ok(a, b)
    &&& fname_parse_ok(a, b.skip(8))
    &&& guid_parse_ok(b.skip(16))
    &&& {
        let kt = a.names()[dec_i32(b.take(4)) as int];
        let vt = a.names()[dec_i32(b.skip(8).take(4)) as int];
        let h = 16 + guid_skip(b.skip(16));
        &&& fixed_elem_type(kt)
        &&& fixed_elem_type(vt)
        &&& b.len() >= h + 4
        &&& dec_i32(b.subrange(h, h + 4)) >= 0
        &&& {
            let pe = h + 4 + (dec_i32(b.subrange(h, h + 4)) as int) * fixed_elem_len(kt);
            &&& b.len() >= pe + 4
            &&& dec_i32(b.subrange(pe, pe + 4)) >= 0
            &&& b.len() >= pe + 4 + (dec_i32(b.subrange(pe, pe + 4)) as int) * (fixed_elem_len(
                kt,
            ) + fixed_elem_len(vt))
        }
    }
}

/// True of byte streams whose head is a complete empty-map body with
/// header: two readable type names, a well-formed optional GUID, and two
/// zero counts.
pub open spec fn map_empty_head_ok(a: Asset, b: Seq<u8>) -> bool {
    &&& fname_parse_ok(a, b)
    &&& fname_parse_ok(a, b.skip(8))
    &&& guid_parse_ok(b.skip(16))
    &&& {
        let h = 16 + guid_skip(b.skip(16));
        &&& b.len() >= h + 8
        &&& dec_i32(b.subrange(h, h + 4)) == 0
        &&& dec_i32(b.subrange(h + 4, h + 8)) == 0
    }
}

/// True of byte streams whose head is a complete template pointer with an
/// absent template type string: the optional GUID, then a zero-length
/// string, after which no property list follows.
pub open spec fn movie_eval_empty_head_ok(a: Asset, b: Seq<u8>, inc: bool) -> bool {
    if inc {
        guid_parse_ok(b) && string_parse_ok(b.skip(guid_skip(b))) && string_prefix(
            b.skip(guid_skip(b)),
        ) == 0
    } else {
        string_parse_ok(b) && string_prefix(b) == 0
    }
}

/// True when the head of the stream holds a malformed optional-GUID
/// presence flag, as opposed to a truncated one.
pub open spec fn guid_flag_bad(b: Seq<u8>) -> bool {
    !guid_parse_ok(b) && !crate::codec::guid_parse_truncated(b)
}

/// True of byte streams whose head is a complete template pointer with a
/// present template type string whose property list ends at once: the
/// optional GUID, the string, and the sentinel name.
pub open spec fn movie_eval_sentinel_head_ok(a: Asset, b: Seq<u8>, inc: bool) -> bool {
    let g = if inc {
        guid_skip(b)
    } else {
        0int
    };
    &&& (inc ==> guid_parse_ok(b))
    &&& string_parse_ok(b.skip(g))
    &&& string_prefix(b.skip(g)) != 0
    &&& {
        let sl = g + 4 + (string_prefix(b.skip(g)) as int);
        &&& fname_parse_ok(a, b.skip(sl))
        &&& a.names()[dec_i32(b.skip(sl).take(4)) as int] == "None"@
        &&& dec_i32(b.skip(sl).subrange(4, 8)) == 0
    }
}

/// The contract of a successful map read: some raw pair list in stream
/// order explains the decoded entries (its in-order insertion yields them,
/// and when its keys are distinct the entries are exactly the raw pairs),
/// and the consumed bytes are its stream trace whenever no nested value
/// could itself collapse.
pub open spec fn map_trace_ok(a: Asset, m: MapProperty, inc: bool, taken: Seq<u8>) -> bool {
    exists|raw: Seq<(Property, Property)>|
        #![trigger map_read_trace(a, m, raw, inc)]
        {
            &&& ((collapse_free_from(rem_seq(m), 0) && collapse_free_pairs_from(raw, 0))
                ==> taken == map_read_trace(a, m, raw, inc))
            &&& m.value@ == insert_all(raw)
            &&& raw.len() <= i32::MAX
            &&& (distinct_keys_model(raw) ==> m.value@ == raw)
        }
}

/// Copies an interned name field for field.
fn fname_copy(f: &FName) -> (r: FName)
    ensures
        r.content@ == f.content@,
        r.index == f.index,
{
    FName::new(f.content.clone(), f.index)
}

impl MapProperty {
    /// Resolves one composite element: a struct-typed element is decoded as
    /// the concrete struct type the override tables name for the enclosing
    /// property, with a one-byte cooked placeholder; any other element type
    /// dispatches as usual.
    pub fn map_type_to_class(
        asset: &Asset,
        reader: &mut ByteReader,
        type_fname: FName,
        name: FName,
        length: i64,
        include_header: bool,
        is_key: bool,
    ) -> (r: Result<Property, Error>)
        requires
            asset.wf(),
            old(reader).wf(),
            wf_fname(*asset, name),
            wf_fname(*asset, type_fname),
            !include_header,
        ensures
            ByteReader::advanced(*old(reader), *final(reader)),
            match r {
                Ok(p) => {
                    &&& wf_prop(*asset, p)
                    &&& !(p is MapProperty)
                    &&& type_name_chars(p) == type_fname.content@
                    &&& (p is UnknownProperty ==> type_fname_index(p) == type_fname.index)
                    &&& (collapse_free(p) ==> ByteReader::taken(*old(reader), *final(reader))
                        == ser_prop(*asset, p, false))
                    &&& (type_fname.content@ == "StructProperty"@ ==> (p matches
                        Property::StructProperty(sp)
                        && sp.struct_type.content@ == crate::asset::resolve_struct_type_spec(
                        *asset,
                        name.content@,
                        is_key,
                    )))
                },
                Err(e) => e.is_io() || e.is_invalid_file(),
            },
            type_fname.content@ == "IntProperty"@ ==> (r is Ok <==> old(reader).remaining() >= 4)
                && (r matches Ok(p) ==> p is IntProperty),
            type_fname.content@ == "MovieSceneSequenceInstanceDataPtrProperty"@ ==> (r matches Ok(
                p,
            ) ==> p is MovieSceneSequenceInstanceDataPtrProperty),
            type_fname.content@ == "StructProperty"@ ==> (r matches Ok(p) ==> (p matches
                Property::StructProperty(sp) && sp.value@.len() == 1)),
            type_fname.content@ == "StrProperty"@ ==> (r is Ok <==> string_parse_ok(
                old(reader).rest(),
            )),
            type_fname.content@ == "NameProperty"@ ==> (r is Ok <==> fname_parse_ok(
                *asset,
                old(reader).rest(),
            )),
            type_fname.content@ == "StructProperty"@ ==> (r is Ok <==> old(reader).remaining()
                >= 1),
            type_fname.content@ == "MapProperty"@ ==> r is Err,
            type_fname.content@ == "RawStructProperty"@ ==> (r is Ok <==> 0 <= length && length
                <= old(reader).remaining()),
            type_fname.content@ == "MovieSceneSequenceInstanceDataPtrProperty"@ ==> (r is Ok
                <==> old(reader).remaining() >= 4),
            (type_fname.content@ != "IntProperty"@ && type_fname.content@ != "StrProperty"@
                && type_fname.content@ != "NameProperty"@ && type_fname.content@
                != "StructProperty"@ && type_fname.content@ != "MapProperty"@
                && type_fname.content@ != "RawStructProperty"@ && type_fname.content@
                != "MovieSceneEvalTemplatePtrProperty"@ && type_fname.content@
                != "MovieSceneSequenceInstanceDataPtrProperty"@) ==> (r is Ok <==> 0 <= length
                && length <= old(reader).remaining()),
        decreases old(reader).remaining(), 2int,
    {
        proof {
            reveal_strlit("IntProperty");
            reveal_strlit("StrProperty");
            reveal_strlit("NameProperty");
            reveal_strlit("StructProperty");
            reveal_strlit("MapProperty");
            reveal_strlit("RawStructProperty");
            reveal_strlit("MovieSceneEvalTemplatePtrProperty");
            reveal_strlit("MovieSceneSequenceInstanceDataPtrProperty");
        }
        if type_fname.content == "StructProperty".to_owned() {
            let struct_type_string = asset.resolve_struct_type(&name.content, is_key);
            let st = FName::new(struct_type_string, 0);
            match StructProperty::new(asset, reader, name, st, false, 1, 0) {
                Ok(sp) => Ok(Property::StructProperty(sp)),
                Err(e) => Err(e),
            }
        } else {
            match Property::from_type(asset, reader, &type_fname, name, include_header, length, 0, 0) {
                Ok(p) => {
                    proof {
                        assert(!(p is MapProperty));
                    }
                    Ok(p)
                },
                Err(e) => Err(e),
            }
        }
    }

    /// Reads a map property: the key- and value-type names and optional
    /// GUID of the header, the removed-key list, and the entry pairs, each
    /// element resolved through the override tables when struct-typed.
    /// Every decoded removed key is accumulated, in read order. Entries
    /// keep stream order; a later duplicate key overwrites the earlier
    /// entry in place.
    pub fn new(
        asset: &Asset,
        reader: &mut ByteReader,
        name: FName,
        include_header: bool,
        duplication_index: i32,
    ) -> (r: Result<MapProperty, Error>)
        requires
            asset.wf(),
            old(reader).wf(),
            wf_fname(*asset, name),
        ensures
            ByteReader::advanced(*old(reader), *final(reader)),
            !include_header ==> (r matches Err(e) && (old(reader).remaining() >= 4
                ==> e.is_invalid_file() && final(reader).pos == old(reader).pos + 4) && (old(
                reader,
            ).remaining() < 4 ==> e.is_io() && *final(reader) == *old(reader))),
            include_header && map_empty_head_ok(*asset, old(reader).rest()) ==> r is Ok,
            include_header && map_fixed_head_ok(*asset, old(reader).rest()) ==> r is Ok,
            match r {
                Ok(m) => {
                    &&& m.name == name
                    &&& m.duplication_index == duplication_index
                    &&& wf_prop(*asset, Property::MapProperty(m))
                    &&& hdr_writable(*asset, Property::MapProperty(m))
                    &&& (m.value@.len() > 0 ==> type_name_chars(m.value@[0].0)
                        == m.key_type.content@ && type_name_chars(m.value@[0].1)
                        == m.value_type.content@)
                    &&& map_trace_ok(
                        *asset,
                        m,
                        include_header,
                        ByteReader::taken(*old(reader), *final(reader)),
                    )
                },
                Err(e) => e.is_io() || e.is_invalid_file(),
            },
        decreases old(reader).remaining(), 0int,
    {
        let ghost p0 = reader.pos as int;
        let ghost b = old(reader).rest();
        let ghost hpos = 16 + guid_skip(b.skip(16));
        let ghost ktc = asset.names()[dec_i32(b.take(4)) as int];
        let ghost vtc = asset.names()[dec_i32(b.skip(8).take(4)) as int];
        let mut hdr: Option<(FName, FName, Option<Guid>)> = None;
        if include_header {
            let t1 = match asset.read_fname(reader) {
                Ok(f) => f,
                Err(e) => {
                    return Err(e);
                },
            };
            proof {
                let ni = name_index(asset.names(), t1.content@);
                assert(0 <= ni < asset.names().len() && asset.names()[ni] == t1.content@);
                assert(b.take(4) =~= old(reader).data@.subrange(p0, p0 + 4));
                lemma_le_lens();
                assert(old(reader).data@.subrange(p0, p0 + 4) =~= le_i32(ni as i32));
                crate::codec::lemma_dec_le_i32(ni as i32);
                assert(ktc == t1.content@);
            }
            let ghost pa = reader.pos as int;
            proof {
                assert(reader.rest() =~= b.skip(8));
            }
            let t2 = match asset.read_fname(reader) {
                Ok(f) => f,
                Err(e) => {
                    return Err(e);
                },
            };
            proof {
                let ni = name_index(asset.names(), t2.content@);
                assert(0 <= ni < asset.names().len() && asset.names()[ni] == t2.content@);
                assert(b.skip(8).take(4) =~= old(reader).data@.subrange(pa, pa + 4));
                assert(old(reader).data@.subrange(pa, pa + 4) =~= le_i32(ni as i32));
                crate::codec::lemma_dec_le_i32(ni as i32);
                assert(vtc == t2.content@);
            }
            let ghost pb = reader.pos as int;
            proof {
                assert(reader.rest() =~= b.skip(16));
            }
            let g = match reader.read_property_guid() {
                Ok(g) => g,
                Err(e) => {
                    return Err(e);
                },
            };
            proof {
                lemma_subrange_concat(old(reader).data@, p0, pa, pb);
                lemma_subrange_concat(old(reader).data@, p0, pb, reader.pos as int);
                assert(reader.pos as int == p0 + hpos);
            }
            hdr = Some((t1, t2, g));
        }
        let ghost p_num = reader.pos as int;
        let num_keys_to_remove = match reader.read_i32() {
            Ok(x) => x,
            Err(e) => {
                proof {
                    if include_header && map_empty_head_ok(*asset, b) {
                        assert(false);
                    }
                    if include_header && map_fixed_head_ok(*asset, b) {
                        assert(false);
                    }
                }
                return Err(e);
            },
        };
        proof {
            if include_header {
                assert(b.subrange(hpos, hpos + 4) =~= old(reader).data@.subrange(
                    p_num,
                    p_num + 4,
                ));
                assert(dec_i32(b.subrange(hpos, hpos + 4)) == num_keys_to_remove);
            }
        }
        let (key_type, value_type, property_guid) = match hdr {
            Some(h) => h,
            None => {
                return Err(Error::invalid_file("No type1".to_owned()));
            },
        };
        if num_keys_to_remove < 0 {
            proof {
                if map_empty_head_ok(*asset, b) {
                    assert(false);
                }
                if map_fixed_head_ok(*asset, b) {
                    assert(false);
                }
            }
            return Err(Error::invalid_file("the removed-key count is negative".to_owned()));
        }
        let ghost p_rem = reader.pos as int;
        proof {
            assert(old(reader).data@.subrange(p0, p_rem)
                =~= fname_bytes(*asset, key_type) + fname_bytes(*asset, value_type)
                + guid_opt_bytes(property_guid) + le_i32(num_keys_to_remove));
        }
        proof {
            if include_header && map_fixed_head_ok(*asset, b) {
                assert(key_type.content@ == ktc && fixed_elem_type(ktc));
                assert(dec_i32(b.subrange(hpos, hpos + 4)) == num_keys_to_remove);
                assert(p_rem == old(reader).pos + hpos + 4);
                if ktc == "StructProperty"@ {
                    assert(fixed_elem_len(ktc) == 1);
                    assert(b.len() >= hpos + 4 + (num_keys_to_remove as int) * 1 + 4);
                    assert(old(reader).pos + b.len() - p_rem >= 4 + num_keys_to_remove);
                } else {
                    assert(fixed_elem_len(ktc) == 4);
                    assert(b.len() >= hpos + 4 + (num_keys_to_remove as int) * 4 + 4);
                    assert(old(reader).pos + b.len() - p_rem >= 4 + 4 * num_keys_to_remove);
                }
            }
        }
        let mut removed: Vec<Property> = Vec::new();
        let mut i: i32 = 0;
        while i < num_keys_to_remove
            invariant
                asset.wf(),
                reader.wf(),
                reader.data == old(reader).data,
                wf_fname(*asset, name),
                wf_fname(*asset, key_type),
                0 <= i <= num_keys_to_remove,
                include_header,
                b == old(reader).rest(),
                map_empty_head_ok(*asset, b) ==> num_keys_to_remove == 0,
                ktc == asset.names()[dec_i32(b.take(4)) as int],
                map_fixed_head_ok(*asset, b) ==> (key_type.content@ == ktc && fixed_elem_type(
                    ktc,
                )),
                map_fixed_head_ok(*asset, b) && ktc == "StructProperty"@ ==> (reader.pos - p_rem
                    == i && old(reader).pos + b.len() - p_rem >= 4 + num_keys_to_remove),
                map_fixed_head_ok(*asset, b) && ktc != "StructProperty"@ ==> (reader.pos - p_rem
                    == 4 * i && old(reader).pos + b.len() - p_rem >= 4 + 4 * num_keys_to_remove),
                old(reader).pos + 4 <= p_rem <= reader.pos,
                p_rem <= reader.data@.len(),
                removed@.len() == i,
                collapse_free_from(removed@, 0) ==> old(reader).data@.subrange(
                    p_rem,
                    reader.pos as int,
                ) == ser_props_from(*asset, removed@, 0),
                forall|q: int| 0 <= q < removed@.len() ==> wf_prop(*asset, #[trigger] removed@[q]),
            decreases num_keys_to_remove - i,
        {
            let ghost p_before = reader.pos as int;
            let ghost removed0 = removed@;
            let k = match Self::map_type_to_class(
                asset,
                reader,
                fname_copy(&key_type),
                fname_copy(&name),
                0,
                false,
                true,
            ) {
                Ok(k) => k,
                Err(e) => {
                    proof {
                        if include_header && map_empty_head_ok(*asset, b) {
                            assert(false);
                        }
                        if include_header && map_fixed_head_ok(*asset, b) {
                            if ktc == "StructProperty"@ {
                                assert(old(reader).pos + b.len() - p_before >= 1);
                            } else if ktc == "IntProperty"@ {
                                assert(old(reader).pos + b.len() - p_before >= 4);
                            } else {
                                assert(ktc
                                    == "MovieSceneSequenceInstanceDataPtrProperty"@);
                                assert(old(reader).pos + b.len() - p_before >= 4);
                            }
                            assert(false);
                        }
                    }
                    return Err(e);
                },
            };
            proof {
                if include_header && map_fixed_head_ok(*asset, b) {
                    lemma_le_lens();
                    if ktc == "StructProperty"@ {
                        assert(reader.pos == p_before + 1);
                    } else if ktc == "IntProperty"@ {
                        assert(reader.pos == p_before + 4);
                    } else {
                        assert(ktc == "MovieSceneSequenceInstanceDataPtrProperty"@);
                        assert(reader.pos == p_before + 4);
                    }
                }
            }
            proof {
                lemma_collapse_free_index(removed0.push(k), 0);
                lemma_collapse_free_index(removed0, 0);
                if collapse_free_from(removed0.push(k), 0) {
                    assert(removed0.push(k)[removed0.len() as int] == k);
                    assert(forall|q: int| 0 <= q < removed0.len() ==> removed0.push(k)[q]
                        == removed0[q]);
                    assert(collapse_free_from(removed0, 0));
                    assert(collapse_free(k));
                    lemma_ser_props_push(*asset, removed0, k, 0);
                    lemma_subrange_concat(old(reader).data@, p_rem, p_before, reader.pos as int);
                }
            }
            removed.push(k);
            i = i + 1;
        }
        let ghost removed_snap = removed@;
        let keys_to_remove: Option<Vec<Property>> = if num_keys_to_remove == 0 {
            None
        } else {
            Some(removed)
        };
        let ghost rem_trace = old(reader).data@.subrange(p_rem, reader.pos as int);
        let ghost p_ent0 = reader.pos as int;
        proof {
            if include_header && map_empty_head_ok(*asset, b) {
                assert(removed_snap.len() == 0);
                assert(collapse_free_from(removed_snap, 0));
                assert(p_ent0 == p_rem);
            }
        }
        let num_entries = match reader.read_i32() {
            Ok(x) => x,
            Err(e) => {
                proof {
                    if include_header && map_empty_head_ok(*asset, b) {
                        assert(false);
                    }
                }
                return Err(e);
            },
        };
        proof {
            if include_header && map_empty_head_ok(*asset, b) {
                assert(b.subrange(hpos + 4, hpos + 8) =~= old(reader).data@.subrange(
                    p_ent0,
                    p_ent0 + 4,
                ));
                assert(num_entries == 0);
            }
            if include_header && map_fixed_head_ok(*asset, b) {
                let peg = p_ent0 - old(reader).pos;
                if ktc == "StructProperty"@ {
                    assert(peg == hpos + 4 + num_keys_to_remove);
                } else {
                    assert(fixed_elem_len(ktc) == 4);
                    assert(peg == hpos + 4 + 4 * num_keys_to_remove);
                }
                assert(peg == hpos + 4 + (dec_i32(b.subrange(hpos, hpos + 4)) as int)
                    * fixed_elem_len(ktc));
                assert(b.subrange(peg, peg + 4) =~= old(reader).data@.subrange(
                    p_ent0,
                    p_ent0 + 4,
                ));
                assert(num_entries == dec_i32(b.subrange(peg, peg + 4)));
                assert(num_entries >= 0);
                if ktc == "StructProperty"@ && vtc == "StructProperty"@ {
                    assert(b.len() >= peg + 4 + (num_entries as int) * 2);
                } else if (ktc == "StructProperty"@) != (vtc == "StructProperty"@) {
                    assert(b.len() >= peg + 4 + (num_entries as int) * 5);
                } else {
                    assert(fixed_elem_len(ktc) == 4 && fixed_elem_len(vtc) == 4);
                    assert(b.len() >= peg + 4 + (num_entries as int) * 8);
                }
            }
        }
        if num_entries < 0 {
            proof {
                if include_header && map_empty_head_ok(*asset, b) {
                    assert(false);
                }
                if include_header && map_fixed_head_ok(*asset, b) {
                    assert(false);
                }
            }
            return Err(Error::invalid_file("the entry count is negative".to_owned()));
        }
        let ghost p_ent = reader.pos as int;
        proof {
            if include_header && map_fixed_head_ok(*asset, b) {
                if ktc == "StructProperty"@ {
                    assert(fixed_elem_len(ktc) == 1);
                } else {
                    assert(fixed_elem_len(ktc) == 4);
                }
                if vtc == "StructProperty"@ {
                    assert(fixed_elem_len(vtc) == 1);
                } else {
                    assert(fixed_elem_len(vtc) == 4);
                }
            }
        }
        let mut entries: Vec<(Property, Property)> = Vec::new();
        let ghost mut raw: Seq<(Property, Property)> = Seq::empty();
        let mut j: i32 = 0;
        while j < num_entries
            invariant
                asset.wf(),
                reader.wf(),
                reader.data == old(reader).data,
                wf_fname(*asset, name),
                wf_fname(*asset, key_type),
                wf_fname(*asset, value_type),
                0 <= j <= num_entries,
                include_header,
                b == old(reader).rest(),
                map_empty_head_ok(*asset, b) ==> num_entries == 0,
                ktc == asset.names()[dec_i32(b.take(4)) as int],
                vtc == asset.names()[dec_i32(b.skip(8).take(4)) as int],
                map_fixed_head_ok(*asset, b) ==> (key_type.content@ == ktc
                    && value_type.content@ == vtc && fixed_elem_type(ktc) && fixed_elem_type(
                    vtc,
                )),
                map_fixed_head_ok(*asset, b) && ktc == "StructProperty"@ && vtc
                    == "StructProperty"@ ==> (reader.pos - p_ent == 2 * j && old(reader).pos
                    + b.len() - p_ent >= 2 * num_entries),
                map_fixed_head_ok(*asset, b) && (ktc == "StructProperty"@) != (vtc
                    == "StructProperty"@) ==> (reader.pos - p_ent == 5 * j && old(reader).pos
                    + b.len() - p_ent >= 5 * num_entries),
                map_fixed_head_ok(*asset, b) && ktc != "StructProperty"@ && vtc
                    != "StructProperty"@ ==> (reader.pos - p_ent == 8 * j && old(reader).pos
                    + b.len() - p_ent >= 8 * num_entries),
                old(reader).pos + 4 <= p_ent <= reader.pos,
                p_ent <= reader.data@.len(),
                raw.len() == j,
                entries@ == insert_all(raw),
                entries@.len() <= raw.len(),
                distinct_keys_model(entries@),
                collapse_free_pairs_from(raw, 0) ==> old(reader).data@.subrange(
                    p_ent,
                    reader.pos as int,
                ) == ser_pairs_from(*asset, raw, 0),
                forall|q: int| 0 <= q < entries@.len() ==> {
                    &&& wf_prop(*asset, (#[trigger] entries@[q]).0)
                    &&& wf_prop(*asset, entries@[q].1)
                    &&& type_name_chars(entries@[q].0) == key_type.content@
                    &&& type_name_chars(entries@[q].1) == value_type.content@
                },
            decreases num_entries - j,
        {
            let ghost p_before = reader.pos as int;
            let k = match Self::map_type_to_class(
                asset,
                reader,
                fname_copy(&key_type),
                fname_copy(&name),
                0,
                false,
                true,
            ) {
                Ok(k) => k,
                Err(e) => {
                    proof {
                        if include_header && map_empty_head_ok(*asset, b) {
                            assert(false);
                        }
                        if include_header && map_fixed_head_ok(*asset, b) {
                            assert(old(reader).pos + b.len() - p_before >= 2);
                            if ktc == "StructProperty"@ {
                            } else if ktc == "IntProperty"@ {
                                assert(old(reader).pos + b.len() - p_before >= 5);
                            } else {
                                assert(ktc
                                    == "MovieSceneSequenceInstanceDataPtrProperty"@);
                                assert(old(reader).pos + b.len() - p_before >= 5);
                            }
                            assert(false);
                        }
                    }
                    return Err(e);
                },
            };
            let ghost p_mid = reader.pos as int;
            proof {
                if include_header && map_fixed_head_ok(*asset, b) {
                    lemma_le_lens();
                    if ktc == "StructProperty"@ {
                        assert(p_mid == p_before + 1);
                    } else if ktc == "IntProperty"@ {
                        assert(p_mid == p_before + 4);
                    } else {
                        assert(ktc == "MovieSceneSequenceInstanceDataPtrProperty"@);
                        assert(p_mid == p_before + 4);
                    }
                }
            }
            let v = match Self::map_type_to_class(
                asset,
                reader,
                fname_copy(&value_type),
                fname_copy(&name),
                0,
                false,
                false,
            ) {
                Ok(v) => v,
                Err(e) => {
                    proof {
                        if include_header && map_empty_head_ok(*asset, b) {
                            assert(false);
                        }
                        if include_header && map_fixed_head_ok(*asset, b) {
                            if vtc == "StructProperty"@ {
                                assert(old(reader).pos + b.len() - p_mid >= 1);
                            } else if vtc == "IntProperty"@ {
                                assert(old(reader).pos + b.len() - p_mid >= 4);
                            } else {
                                assert(vtc
                                    == "MovieSceneSequenceInstanceDataPtrProperty"@);
                                assert(old(reader).pos + b.len() - p_mid >= 4);
                            }
                            assert(false);
                        }
                    }
                    return Err(e);
                },
            };
            proof {
                if include_header && map_fixed_head_ok(*asset, b) {
                    lemma_le_lens();
                    if vtc == "StructProperty"@ {
                        assert(reader.pos == p_mid + 1);
                    } else if vtc == "IntProperty"@ {
                        assert(reader.pos == p_mid + 4);
                    } else {
                        assert(vtc == "MovieSceneSequenceInstanceDataPtrProperty"@);
                        assert(reader.pos == p_mid + 4);
                    }
                }
            }
            let ghost gk = k;
            let ghost gv = v;
            let ghost raw0 = raw;
            let ghost entries0 = entries@;
            proof {
                lemma_collapse_free_pairs_index(raw0.push((gk, gv)), 0);
                lemma_collapse_free_pairs_index(raw0, 0);
                if collapse_free_pairs_from(raw0.push((gk, gv)), 0) {
                    assert(raw0.push((gk, gv))[raw0.len() as int] == (gk, gv));
                    assert(forall|q: int| 0 <= q < raw0.len() ==> raw0.push((gk, gv))[q]
                        == raw0[q]);
                    assert(collapse_free_pairs_from(raw0, 0));
                    assert(collapse_free(gk) && collapse_free(gv));
                    lemma_ser_pairs_push(*asset, raw0, gk, gv, 0);
                    lemma_subrange_concat(old(reader).data@, p_ent, p_before, reader.pos as int);
                }
            }
            map_insert(&mut entries, k, v);
            proof {
                raw = raw0.push((gk, gv));
                assert(raw.drop_last() =~= raw0);
                assert(raw.last() == (gk, gv));
                assert(insert_all(raw) == insert_pair(insert_all(raw0), gk, gv));
                assert(entries@ == insert_all(raw));
            }
            j = j + 1;
        }
        let m = MapProperty {
            name,
            property_guid,
            duplication_index,
            key_type,
            value_type,
            value: entries,
            keys_to_remove,
        };
        proof {
            lemma_wf_pairs_index(*asset, m.value@, 0);
            match &m.keys_to_remove {
                None => {},
                Some(v) => {
                    lemma_wf_props_index(*asset, v@, 0);
                },
            }
            assert(wf_prop(*asset, Property::MapProperty(m)));
            lemma_subrange_concat(old(reader).data@, p0, p_rem, p_ent0);
            lemma_subrange_concat(old(reader).data@, p0, p_ent0, p_ent);
            lemma_subrange_concat(old(reader).data@, p0, p_ent, reader.pos as int);
            assert(rem_count(m) == num_keys_to_remove);
            assert(rem_seq(m) == removed_snap);
            if collapse_free_from(rem_seq(m), 0) && collapse_free_pairs_from(raw, 0) {
                assert(ser_props_from(*asset, rem_seq(m), 0) == rem_trace);
                assert(ByteReader::taken(*old(reader), *reader) =~= map_read_trace(
                    *asset,
                    m,
                    raw,
                    include_header,
                ));
            }
            if distinct_keys_model(raw) {
                lemma_insert_all_distinct(raw);
            }
            assert(map_trace_ok(
                *asset,
                m,
                include_header,
                ByteReader::taken(*old(reader), *reader),
            )) by {
                assert(map_read_trace(*asset, m, raw, include_header) == map_read_trace(
                    *asset,
                    m,
                    raw,
                    include_header,
                ));
            }
        }
        Ok(m)
    }
}

impl Property {
    /// Reads the property value named by `type_fname`: the matching variant
    /// of the closed set, or the unknown variant for an unrecognized name,
    /// preserving the raw bytes and the original type string verbatim.
    #[verifier::rlimit(100)]
    pub fn from_type(
        asset: &Asset,
        reader: &mut ByteReader,
        type_fname: &FName,
        name: FName,
        include_header: bool,
        length: i64,
        duplication_index: i32,
        array_index: i32,
    ) -> (r: Result<Property, Error>)
        requires
            asset.wf(),
            old(reader).wf(),
            wf_fname(*asset, name),
            wf_fname(*asset, *type_fname),
        ensures
            ByteReader::advanced(*old(reader), *final(reader)),
            match r {
                Ok(p) => {
                    &&& wf_prop(*asset, p)
                    &&& prop_name(p) == name
                    &&& prop_dup(p) == duplication_index
                    &&& type_name_chars(p) == type_fname.content@
                    &&& (p is UnknownProperty ==> type_fname_index(p) == type_fname.index)
                    &&& (p is MapProperty ==> include_header)
                    &&& (include_header ==> hdr_writable(*asset, p))
                    &&& match p {
                        Property::MapProperty(m) => map_trace_ok(
                            *asset,
                            m,
                            include_header,
                            ByteReader::taken(*old(reader), *final(reader)),
                        ),
                        _ => collapse_free(p) ==> ByteReader::taken(*old(reader), *final(reader))
                            == ser_prop(*asset, p, include_header),
                    }
                },
                Err(e) => e.is_io() || e.is_invalid_file(),
            },
            type_fname.content@ == "IntProperty"@ ==> (r is Ok <==> (if include_header {
                guid_parse_ok(old(reader).rest()) && old(reader).remaining() >= guid_skip(
                    old(reader).rest(),
                ) + 4
            } else {
                old(reader).remaining() >= 4
            })),
            type_fname.content@ == "StrProperty"@ ==> (r is Ok <==> (if include_header {
                guid_parse_ok(old(reader).rest()) && string_parse_ok(
                    old(reader).rest().skip(guid_skip(old(reader).rest())),
                )
            } else {
                string_parse_ok(old(reader).rest())
            })),
            type_fname.content@ == "NameProperty"@ ==> (r is Ok <==> (if include_header {
                guid_parse_ok(old(reader).rest()) && fname_parse_ok(
                    *asset,
                    old(reader).rest().skip(guid_skip(old(reader).rest())),
                )
            } else {
                fname_parse_ok(*asset, old(reader).rest())
            })),
            type_fname.content@ == "StructProperty"@ ==> (r is Ok <==> (if include_header {
                fname_parse_ok(*asset, old(reader).rest()) && guid_parse_ok(
                    old(reader).rest().skip(8),
                ) && 0 <= length && 8 + guid_skip(old(reader).rest().skip(8)) + length <= old(
                    reader,
                ).remaining()
            } else {
                0 <= length && length <= old(reader).remaining()
            })),
            type_fname.content@ == "RawStructProperty"@ ==> (r is Ok <==> (if include_header {
                guid_parse_ok(old(reader).rest()) && 0 <= length && guid_skip(old(reader).rest())
                    + length <= old(reader).remaining()
            } else {
                0 <= length && length <= old(reader).remaining()
            })),
            type_fname.content@ == "MovieSceneSequenceInstanceDataPtrProperty"@ ==> (r is Ok <==> (
            if include_header {
                guid_parse_ok(old(reader).rest()) && old(reader).remaining() >= guid_skip(
                    old(reader).rest(),
                ) + 4
            } else {
                old(reader).remaining() >= 4
            })),
            (type_fname.content@ != "IntProperty"@ && type_fname.content@ != "StrProperty"@
                && type_fname.content@ != "NameProperty"@ && type_fname.content@
                != "StructProperty"@ && type_fname.content@ != "MapProperty"@
                && type_fname.content@ != "RawStructProperty"@ && type_fname.content@
                != "MovieSceneEvalTemplatePtrProperty"@ && type_fname.content@
                != "MovieSceneSequenceInstanceDataPtrProperty"@) ==> (r is Ok <==> (
            if include_header {
                guid_parse_ok(old(reader).rest()) && 0 <= length && guid_skip(old(reader).rest())
                    + length <= old(reader).remaining()
            } else {
                0 <= length && length <= old(reader).remaining()
            })),
            type_fname.content@ == "MapProperty"@ && !include_header ==> r is Err,
            type_fname.content@ == "IntProperty"@ ==> (r matches Ok(p) ==> p is IntProperty),
            type_fname.content@ == "MovieSceneSequenceInstanceDataPtrProperty"@ ==> (r matches Ok(
                p,
            ) ==> p is MovieSceneSequenceInstanceDataPtrProperty),
        decreases old(reader).remaining(), 1int,
    {
        proof {
            reveal_strlit("IntProperty");
            reveal_strlit("StrProperty");
            reveal_strlit("NameProperty");
            reveal_strlit("StructProperty");
            reveal_strlit("MapProperty");
            reveal_strlit("RawStructProperty");
            reveal_strlit("MovieSceneEvalTemplatePtrProperty");
            reveal_strlit("MovieSceneSequenceInstanceDataPtrProperty");
            assert("IntProperty"@ != "StrProperty"@) by {
                assert("IntProperty"@[0] == 'I');
                assert("StrProperty"@[0] == 'S');
            }
            assert("IntProperty"@ != "MapProperty"@) by {
                assert("IntProperty"@[0] == 'I');
                assert("MapProperty"@[0] == 'M');
            }
            assert("StrProperty"@ != "MapProperty"@) by {
                assert("StrProperty"@[0] == 'S');
                assert("MapProperty"@[0] == 'M');
            }
        }
        let t = &type_fname.content;
        if *t == "IntProperty".to_owned() {
            match IntProperty::new(asset, reader, name, include_header, duplication_index) {
                Ok(v) => Ok(Property::IntProperty(v)),
                Err(e) => Err(e),
            }
        } else if *t == "StrProperty".to_owned() {
            match StrProperty::new(asset, reader, name, include_header, duplication_index) {
                Ok(v) => Ok(Property::StrProperty(v)),
                Err(e) => Err(e),
            }
        } else if *t == "NameProperty".to_owned() {
            match NameProperty::new(asset, reader, name, include_header, duplication_index) {
                Ok(v) => Ok(Property::NameProperty(v)),
                Err(e) => Err(e),
            }
        } else if *t == "StructProperty".to_owned() {
            let st = FName::new(String::new(), 0);
            match StructProperty::new(
                asset,
                reader,
                name,
                st,
                include_header,
                length,
                duplication_index,
            ) {
                Ok(v) => Ok(Property::StructProperty(v)),
                Err(e) => Err(e),
            }
        } else if *t == "MapProperty".to_owned() {
            match MapProperty::new(asset, reader, name, include_header, duplication_index) {
                Ok(v) => Ok(Property::MapProperty(v)),
                Err(e) => Err(e),
            }
        } else if *t == "RawStructProperty".to_owned() {
            match RawStructProperty::new(
                asset,
                reader,
                name,
                include_header,
                duplication_index,
                length,
            ) {
                Ok(v) => Ok(Property::RawStructProperty(v)),
                Err(e) => Err(e),
            }
        } else if *t == "MovieSceneEvalTemplatePtrProperty".to_owned() {
            match MovieSceneEvalTemplatePtrProperty::new(
                asset,
                reader,
                name,
                include_header,
                duplication_index,
            ) {
                Ok(v) => Ok(Property::MovieSceneEvalTemplatePtrProperty(v)),
                Err(e) => Err(e),
            }
        } else if *t == "MovieSceneSequenceInstanceDataPtrProperty".to_owned() {
            match MovieSceneSequenceInstanceDataPtrProperty::new(
                asset,
                reader,
                name,
                include_header,
                duplication_index,
            ) {
                Ok(v) => Ok(Property::MovieSceneSequenceInstanceDataPtrProperty(v)),
                Err(e) => Err(e),
            }
        } else {
            let st = fname_copy(type_fname);
            match UnknownProperty::new(
                asset,
                reader,
                name,
                include_header,
                length,
                duplication_index,
                st,
            ) {
                Ok(v) => Ok(Property::UnknownProperty(v)),
                Err(e) => Err(e),
            }
        }
    }
}

impl MovieSceneEvalTemplatePtrProperty {
    /// Reads an evaluation template pointer: the optional header GUID, the
    /// optional template type string, and, when the string is present, a
    /// property list terminated by the sentinel name.
    pub fn new(
        asset: &Asset,
        reader: &mut ByteReader,
        name: FName,
        include_header: bool,
        duplication_index: i32,
    ) -> (r: Result<MovieSceneEvalTemplatePtrProperty, Error>)
        requires
            asset.wf(),
            old(reader).wf(),
        ensures
            ByteReader::advanced(*old(reader), *final(reader)),
            match r {
                Ok(p) => {
                    &&& p.name == name
                    &&& p.duplication_index == duplication_index
                    &&& !include_header ==> p.property_guid is None
                    &&& wf_prop(*asset, Property::MovieSceneEvalTemplatePtrProperty(p))
                    &&& (collapse_free_from(p.value@, 0) ==> ByteReader::taken(
                        *old(reader),
                        *final(reader),
                    ) == ser_prop(*asset, Property::MovieSceneEvalTemplatePtrProperty(p),
                        include_header,
                    ) && named_lens_fit(*asset, p.value@))
                },
                Err(e) => e.is_io() || e.is_invalid_file(),
            },
            movie_eval_empty_head_ok(*asset, old(reader).rest(), include_header) ==> (r matches
                Ok(p) && p.template_type is None && p.value@.len() == 0),
            movie_eval_sentinel_head_ok(*asset, old(reader).rest(), include_header) ==> (r matches
                Ok(p) && p.template_type is Some && p.value@.len() == 0),
        decreases old(reader).remaining(), 0int,
    {
        let ghost p0 = reader.pos as int;
        let ghost bhead = old(reader).rest();
        let property_guid = if include_header {
            match reader.read_property_guid() {
                Ok(g) => g,
                Err(e) => {
                    return Err(e);
                },
            }
        } else {
            None
        };
        let ghost p1 = reader.pos as int;
        let ghost r1 = *reader;
        proof {
            if include_header {
                assert(reader.pos as int == p0 + guid_skip(bhead));
                assert(r1.rest() =~= bhead.skip(guid_skip(bhead)));
            } else {
                assert(r1.rest() =~= bhead);
            }
        }
        let template_type = match reader.read_string() {
            Ok(s) => s,
            Err(e) => {
                proof {
                    if movie_eval_sentinel_head_ok(*asset, bhead, include_header) {
                        assert(bhead.skip(0int) =~= bhead);
                        assert(r1.rest() =~= bhead.skip(if include_header {
                            guid_skip(bhead)
                        } else {
                            0int
                        }));
                        assert(false);
                    }
                }
                return Err(e);
            },
        };
        let ghost p2 = reader.pos as int;
        proof {
            lemma_le_lens();
            let tkn = ByteReader::taken(r1, *reader);
            match opt_str_view(template_type) {
                Option::None => {
                    assert(tkn.len() == 4);
                },
                Option::Some(cs) => {
                    assert(tkn.len() == 4 + cs.len() + 1);
                },
            }
            assert(p1 < p2);
            if movie_eval_sentinel_head_ok(*asset, bhead, include_header) {
                assert(bhead.skip(0int) =~= bhead);
                assert(r1.rest() =~= bhead.skip(if include_header {
                    guid_skip(bhead)
                } else {
                    0int
                }));
                assert(string_prefix(r1.rest()) != 0);
                assert(template_type is Some);
                assert(p2 == old(reader).pos + (if include_header {
                    guid_skip(bhead)
                } else {
                    0int
                }) + 4 + (string_prefix(r1.rest()) as int));
            }
        }
        let mut value: Vec<Property> = Vec::new();
        if template_type.is_some() {
            let mut done = false;
            while !done
                invariant
                    asset.wf(),
                    reader.wf(),
                    reader.data == old(reader).data,
                    bhead == old(reader).rest(),
                    !movie_eval_empty_head_ok(*asset, bhead, include_header),
                    movie_eval_sentinel_head_ok(*asset, bhead, include_header) ==> (value@.len()
                        == 0 && (!done ==> reader.pos as int == p2) && p2 - old(reader).pos == (
                    if include_header {
                        guid_skip(bhead)
                    } else {
                        0int
                    }) + 4 + (string_prefix(bhead.skip(if include_header {
                        guid_skip(bhead)
                    } else {
                        0int
                    })) as int)),
                    old(reader).pos < p2 <= reader.pos,
                    p2 <= reader.data@.len(),
                    forall|q: int| 0 <= q < value@.len() ==> {
                        &&& wf_prop(*asset, #[trigger] value@[q])
                        &&& wf_fname(*asset, prop_name(value@[q]))
                        &&& name_present(asset.names(), type_name_chars(value@[q]))
                        &&& hdr_writable(*asset, value@[q])
                    },
                    !done ==> old(reader).data@.subrange(p2, reader.pos as int) == ser_named_from(
                        *asset,
                        value@,
                        0,
                    ) || !collapse_free_from(value@, 0),
                    !done ==> (collapse_free_from(value@, 0) ==> old(reader).data@.subrange(
                        p2,
                        reader.pos as int,
                    ) == ser_named_from(*asset, value@, 0) && named_lens_fit(*asset, value@)),
                    done ==> name_present(asset.names(), "None"@),
                    done ==> (collapse_free_from(value@, 0) ==> old(reader).data@.subrange(
                        p2,
                        reader.pos as int,
                    ) == ser_named_from(*asset, value@, 0) + none_bytes(*asset) && named_lens_fit(
                        *asset,
                        value@,
                    )),
                decreases reader.remaining(), (if done {
                    0int
                } else {
                    1int
                }),
            {
                let ghost p_before = reader.pos as int;
                let ghost value_before = value@;
                match Property::new(asset, reader) {
                    Ok(Some(p)) => {
                        proof {
                            lemma_collapse_free_index(value_before.push(p), 0);
                            lemma_collapse_free_index(value_before, 0);
                            if collapse_free_from(value_before.push(p), 0) {
                                assert(value_before.push(p)[value_before.len() as int] == p);
                                assert(forall|q: int| 0 <= q < value_before.len()
                                    ==> value_before.push(p)[q] == value_before[q]);
                                assert(collapse_free_from(value_before, 0));
                                assert(collapse_free(p));
                                lemma_ser_named_push(*asset, value_before, p, 0);
                                lemma_subrange_concat(
                                    old(reader).data@,
                                    p2,
                                    p_before,
                                    reader.pos as int,
                                );
                            }
                        }
                        proof {
                            if movie_eval_sentinel_head_ok(*asset, bhead, include_header) {
                                assert(old(reader).data@.subrange(
                                    p_before,
                                    old(reader).data@.len() as int,
                                ) =~= bhead.skip(p2 - old(reader).pos));
                                assert(false);
                            }
                        }
                        value.push(p);
                    },
                    Ok(None) => {
                        proof {
                            lemma_subrange_concat(
                                old(reader).data@,
                                p2,
                                p_before,
                                reader.pos as int,
                            );
                        }
                        done = true;
                    },
                    Err(e) => {
                        proof {
                            if movie_eval_sentinel_head_ok(*asset, bhead, include_header) {
                                assert(old(reader).data@.subrange(
                                    p_before,
                                    old(reader).data@.len() as int,
                                ) =~= bhead.skip(p2 - old(reader).pos));
                                assert(false);
                            }
                        }
                        return Err(e);
                    },
                }
            }
        }
        let p = MovieSceneEvalTemplatePtrProperty {
            name,
            property_guid,
            duplication_index,
            template_type,
            value,
        };
        proof {
            lemma_wf_named_index(*asset, p.value@, 0);
            assert(wf_prop(*asset, Property::MovieSceneEvalTemplatePtrProperty(p)));
            lemma_subrange_concat(old(reader).data@, p0, p1, p2);
            lemma_subrange_concat(old(reader).data@, p0, p2, reader.pos as int);
            if collapse_free_from(p.value@, 0) {
                assert(ByteReader::taken(*old(reader), *reader) =~= ser_prop(
                    *asset,
                    Property::MovieSceneEvalTemplatePtrProperty(p),
                    include_header,
                ));
            }
        }
        Ok(p)
    }
}

impl Property {
    /// Reads one property of a name-terminated list: its name (the
    /// sentinel name ends the list), its serialized type, its body length
    /// and duplication ordinal, and its value with a header. A body whose
    /// size disagrees with the length field is malformed. So is a
    /// recognized type name, or the sentinel, carrying a nonzero instance
    /// index: the writer interns those names at instance zero, so such a
    /// stream could never be reproduced byte for byte, and round-trip
    /// identity is this crate's central promise.
    pub fn new(asset: &Asset, reader: &mut ByteReader) -> (r: Result<Option<Property>, Error>)
        requires
            asset.wf(),
            old(reader).wf(),
        ensures
            ByteReader::advanced(*old(reader), *final(reader)),
            match r {
                Ok(None) => {
                    &&& ByteReader::taken(*old(reader), *final(reader)) == none_bytes(*asset)
                    &&& final(reader).pos == old(reader).pos + 8
                    &&& name_present(asset.names(), "None"@)
                },
                Ok(Some(p)) => {
                    &&& wf_prop(*asset, p)
                    &&& wf_fname(*asset, prop_name(p))
                    &&& name_present(asset.names(), type_name_chars(p))
                    &&& hdr_writable(*asset, p)
                    &&& (collapse_free(p) ==> ByteReader::taken(*old(reader), *final(reader))
                        == ser_named(*asset, p) && ser_body(*asset, p).len() <= i32::MAX)
                    &&& old(reader).pos + 24 < final(reader).pos
                },
                Err(e) => e.is_io() || e.is_invalid_file(),
            },
            r matches Ok(None) <==> (fname_parse_ok(*asset, old(reader).rest())
                && asset.names()[dec_i32(old(reader).rest().take(4)) as int] == "None"@
                && dec_i32(old(reader).rest().subrange(4, 8)) == 0),
        decreases old(reader).remaining(), 3int,
    {
        let ghost p0 = reader.pos as int;
        let ghost b = old(reader).rest();
        let name = match asset.read_fname(reader) {
            Ok(f) => f,
            Err(e) => {
                return Err(e);
            },
        };
        proof {
            let ni = name_index(asset.names(), name.content@);
            assert(0 <= ni < asset.names().len() && asset.names()[ni] == name.content@);
            assert(b.take(4) =~= old(reader).data@.subrange(p0, p0 + 4));
            assert(b.subrange(4, 8) =~= old(reader).data@.subrange(p0 + 4, p0 + 8));
            assert(old(reader).data@.subrange(p0, p0 + 8) == fname_bytes(*asset, name));
            crate::property::lemma_le_lens();
            assert(old(reader).data@.subrange(p0, p0 + 4) =~= le_i32(ni as i32));
            assert(old(reader).data@.subrange(p0 + 4, p0 + 8) =~= le_i32(name.index));
            crate::codec::lemma_dec_le_i32(ni as i32);
            crate::codec::lemma_dec_le_i32(name.index);
            assert(dec_i32(b.take(4)) as int == ni);
            assert(dec_i32(b.subrange(4, 8)) == name.index);
        }
        if name.content == "None".to_owned() {
            if name.index != 0 {
                return Err(Error::invalid_file(
                    "the list sentinel carries an instance index".to_owned(),
                ));
            }
            proof {
                assert(ByteReader::taken(*old(reader), *reader) == none_bytes(*asset));
            }
            return Ok(None);
        }
        let ghost pa = reader.pos as int;
        let type_fname = match asset.read_fname(reader) {
            Ok(f) => f,
            Err(e) => {
                return Err(e);
            },
        };
        let ghost pb = reader.pos as int;
        let length = match reader.read_i32() {
            Ok(x) => x,
            Err(e) => {
                return Err(e);
            },
        };
        let ghost pc = reader.pos as int;
        let duplication_index = match reader.read_i32() {
            Ok(x) => x,
            Err(e) => {
                return Err(e);
            },
        };
        let pos_body = reader.position();
        let ghost pd = reader.pos as int;
        let ghost tf = type_fname;
        let p = match Property::from_type(
            asset,
            reader,
            &type_fname,
            name,
            true,
            length as i64,
            duplication_index,
            0,
        ) {
            Ok(p) => p,
            Err(e) => {
                return Err(e);
            },
        };
        let consumed = reader.position() - pos_body;
        let hdrl = prop_hdr_len(&p);
        let known_type = match &p {
            Property::UnknownProperty(_) => false,
            _ => true,
        };
        if known_type && type_fname.index != 0 {
            return Err(Error::invalid_file(
                "a recognized type name carries an instance index".to_owned(),
            ));
        }
        if length < 0 || consumed < hdrl || consumed - hdrl != (length as usize) {
            return Err(Error::invalid_file(
                "the length field does not match the property body".to_owned(),
            ));
        }
        proof {
            lemma_ser_hdr_len(*asset, p);
            lemma_subrange_concat(old(reader).data@, p0, pa, pb);
            lemma_subrange_concat(old(reader).data@, p0, pb, pc);
            lemma_subrange_concat(old(reader).data@, p0, pc, pd);
            lemma_subrange_concat(old(reader).data@, p0, pd, reader.pos as int);
            if collapse_free(p) {
                assert(old(reader).data@.subrange(pd, reader.pos as int) == ser_hdr(*asset, p)
                    + ser_body(*asset, p));
                assert(ser_body(*asset, p).len() == consumed - hdrl);
                assert(tn_bytes(*asset, p) =~= fname_bytes(*asset, tf));
                assert(ByteReader::taken(*old(reader), *reader) =~= ser_named(*asset, p));
            }
        }
        Ok(Some(p))
    }
}

/// True when every named list nested in the value has bodies short enough
/// for their 32-bit length fields, at every depth.
pub open spec fn lens_ok(a: Asset, p: Property) -> bool
    decreases p, 9int, 0int,
{
    match p {
        Property::MovieSceneEvalTemplatePtrProperty(x) => named_lens_fit(a, x.value@)
            && lens_ok_from(a, x.value@, 0),
        Property::MapProperty(m) => lens_ok_pairs_from(a, m.value@, 0) && (
        match m.keys_to_remove {
            None => true,
            Some(v) => lens_ok_from(a, v@, 0),
        }),
        _ => true,
    }
}

/// Length fitness of the tail of a property list, from position `i`.
pub open spec fn lens_ok_from(a: Asset, ps: Seq<Property>, i: int) -> bool
    decreases ps, 10int, ps.len() - i,
{
    if i < 0 || i >= ps.len() {
        true
    } else {
        lens_ok(a, ps[i]) && lens_ok_from(a, ps, i + 1)
    }
}

/// Length fitness of the tail of an entry list, from position `i`.
pub open spec fn lens_ok_pairs_from(a: Asset, es: Seq<(Property, Property)>, i: int) -> bool
    decreases es, 10int, es.len() - i,
{
    if i < 0 || i >= es.len() {
        true
    } else {
        lens_ok(a, es[i].0) && lens_ok(a, es[i].1) && lens_ok_pairs_from(a, es, i + 1)
    }
}

/// A property list is length-fit from `i` exactly when each listed
/// property is.
pub proof fn lemma_lens_ok_index(a: Asset, ps: Seq<Property>, i: int)
    requires
        0 <= i <= ps.len(),
    ensures
        lens_ok_from(a, ps, i) <==> (forall|k: int| i <= k < ps.len() ==> lens_ok(
            a,
            #[trigger] ps[k],
        )),
    decreases ps.len() - i,
{
    if i < ps.len() {
        lemma_lens_ok_index(a, ps, i + 1);
    }
}

/// An entry list is length-fit from `i` exactly when each listed pair is.
pub proof fn lemma_lens_ok_pairs_index(a: Asset, es: Seq<(Property, Property)>, i: int)
    requires
        0 <= i <= es.len(),
    ensures
        lens_ok_pairs_from(a, es, i) <==> (forall|k: int| i <= k < es.len() ==> lens_ok(
            a,
            (#[trigger] es[k]).0,
        ) && lens_ok(a, es[k].1)),
    decreases es.len() - i,
{
    if i < es.len() {
        lemma_lens_ok_pairs_index(a, es, i + 1);
    }
}

impl Property {
    /// The name of the property value.
    pub fn get_name(&self) -> (r: &FName)
        ensures
            *r == prop_name(*self),
    {
        match self {
            Property::IntProperty(x) => &x.name,
            Property::StrProperty(x) => &x.name,
            Property::NameProperty(x) => &x.name,
            Property::StructProperty(x) => &x.name,
            Property::MapProperty(x) => &x.name,
            Property::RawStructProperty(x) => &x.name,
            Property::UnknownProperty(x) => &x.name,
            Property::MovieSceneEvalTemplatePtrProperty(x) => &x.name,
            Property::MovieSceneSequenceInstanceDataPtrProperty(x) => &x.name,
        }
    }

    /// The duplication ordinal of the property value.
    pub fn get_duplication_index(&self) -> (r: i32)
        ensures
            r == prop_dup(*self),
    {
        match self {
            Property::IntProperty(x) => x.duplication_index,
            Property::StrProperty(x) => x.duplication_index,
            Property::NameProperty(x) => x.duplication_index,
            Property::StructProperty(x) => x.duplication_index,
            Property::MapProperty(x) => x.duplication_index,
            Property::RawStructProperty(x) => x.duplication_index,
            Property::UnknownProperty(x) => x.duplication_index,
            Property::MovieSceneEvalTemplatePtrProperty(x) => x.duplication_index,
            Property::MovieSceneSequenceInstanceDataPtrProperty(x) => x.duplication_index,
        }
    }
}

/// Decides whether a string is carried unchanged by the codec: printable-
/// range ASCII, short enough for the 32-bit length prefix.
fn check_wf_str(s: &String) -> (r: bool)
    ensures
        r == wf_chars(s@),
{
    let sl = s.as_str();
    let n = sl.unicode_len();
    if n > (i32::MAX - 1) as usize {
        return false;
    }
    let mut i: usize = 0;
    while i < n
        invariant
            i <= n,
            n == sl@.len(),
            sl@ == s@,
            n + 1 <= i32::MAX,
            forall|k: int| 0 <= k < i ==> '\u{1}' <= #[trigger] sl@[k] <= '\u{7f}',
        decreases n - i,
    {
        let c = sl.get_char(i);
        if c < '\u{1}' || c > '\u{7f}' {
            return false;
        }
        i = i + 1;
    }
    true
}

impl Property {
    /// Writes the property value: its header (when the call site asks for
    /// one) and its body, returning how many body bytes were written.
    /// Writing fails only on a name the table cannot resolve, a string the
    /// codec cannot carry, or a count that overflows its 32-bit field; a
    /// well-formed value always writes.
    #[verifier::rlimit(100)]
    pub fn write(&self, asset: &Asset, writer: &mut ByteWriter, include_header: bool) -> (r:
        Result<usize, Error>)
        requires
            asset.wf(),
        ensures
            match r {
                Ok(n) => {
                    &&& final(writer).data@ == old(writer).data@ + ser_prop(
                        *asset,
                        *self,
                        include_header,
                    )
                    &&& n == ser_body(*asset, *self).len()
                },
                Err(e) => e.is_invalid_file() && old(writer).data@.is_prefix_of(
                    final(writer).data@,
                ),
            },
            (wf_prop(*asset, *self) && (include_header ==> hdr_writable(*asset, *self)) && lens_ok(
                *asset,
                *self,
            )) ==> r is Ok,
        decreases *self, 1int,
    {
        let ghost me = *self;
        match self {
            Property::IntProperty(x) => {
                if include_header {
                    writer.write_property_guid(&x.property_guid);
                }
                let start = writer.position();
                writer.write_i32(x.value);
                proof {
                    lemma_le_lens();
                    assert(writer.data@ =~= old(writer).data@ + ser_prop(
                        *asset,
                        me,
                        include_header,
                    ));
                }
                Ok(writer.position() - start)
            },
            Property::StrProperty(x) => {
                match &x.value {
                    Some(st) => {
                        if !check_wf_str(st) {
                            return Err(Error::invalid_file(
                                "the string value cannot be carried by the codec".to_owned(),
                            ));
                        }
                    },
                    None => {},
                }
                if include_header {
                    writer.write_property_guid(&x.property_guid);
                }
                let start = writer.position();
                writer.write_string(&x.value);
                proof {
                    assert(writer.data@ =~= old(writer).data@ + ser_prop(
                        *asset,
                        me,
                        include_header,
                    ));
                }
                Ok(writer.position() - start)
            },
            Property::NameProperty(x) => {
                if include_header {
                    writer.write_property_guid(&x.property_guid);
                }
                let start = writer.position();
                match asset.write_fname(writer, &x.value) {
                    Ok(()) => {},
                    Err(e) => {
                        return Err(e);
                    },
                }
                proof {
                    assert(writer.data@ =~= old(writer).data@ + ser_prop(
                        *asset,
                        me,
                        include_header,
                    ));
                }
                Ok(writer.position() - start)
            },
            Property::StructProperty(x) => {
                if include_header {
                    match asset.write_fname(writer, &x.struct_type) {
                        Ok(()) => {},
                        Err(e) => {
                            return Err(e);
                        },
                    }
                    writer.write_property_guid(&x.property_guid);
                }
                let start = writer.position();
                writer.write_bytes(&x.value);
                proof {
                    assert(writer.data@ =~= old(writer).data@ + ser_prop(
                        *asset,
                        me,
                        include_header,
                    ));
                }
                Ok(writer.position() - start)
            },
            Property::RawStructProperty(x) => {
                if include_header {
                    writer.write_property_guid(&x.property_guid);
                }
                let start = writer.position();
                writer.write_bytes(&x.value);
                proof {
                    assert(writer.data@ =~= old(writer).data@ + ser_prop(
                        *asset,
                        me,
                        include_header,
                    ));
                }
                Ok(writer.position() - start)
            },
            Property::UnknownProperty(x) => {
                if include_header {
                    writer.write_property_guid(&x.property_guid);
                }
                let start = writer.position();
                writer.write_bytes(&x.value);
                proof {
                    assert(writer.data@ =~= old(writer).data@ + ser_prop(
                        *asset,
                        me,
                        include_header,
                    ));
                }
                Ok(writer.position() - start)
            },
            Property::MovieSceneSequenceInstanceDataPtrProperty(x) => {
                if include_header {
                    writer.write_property_guid(&x.property_guid);
                }
                let start = writer.position();
                writer.write_i32(x.value.index);
                proof {
                    assert(writer.data@ =~= old(writer).data@ + ser_prop(
                        *asset,
                        me,
                        include_header,
                    ));
                }
                Ok(writer.position() - start)
            },
            Property::MovieSceneEvalTemplatePtrProperty(x) => write_movie_eval(
                asset,
                writer,
                x,
                include_header,
            ),
            Property::MapProperty(m) => write_map(asset, writer, m, include_header),
        }
    }
}


/// Writes an evaluation template pointer; see [`Property::write`].
fn write_movie_eval(
    asset: &Asset,
    writer: &mut ByteWriter,
    x: &MovieSceneEvalTemplatePtrProperty,
    include_header: bool,
) -> (r: Result<usize, Error>)
    requires
        asset.wf(),
    ensures
        match r {
            Ok(n) => {
                &&& final(writer).data@ == old(writer).data@ + ser_prop(
                    *asset,
                    Property::MovieSceneEvalTemplatePtrProperty(*x),
                    include_header,
                )
                &&& n == ser_body(*asset, Property::MovieSceneEvalTemplatePtrProperty(*x)).len()
            },
            Err(e) => e.is_invalid_file() && old(writer).data@.is_prefix_of(final(writer).data@),
        },
        (wf_prop(*asset, Property::MovieSceneEvalTemplatePtrProperty(*x)) && lens_ok(
            *asset,
            Property::MovieSceneEvalTemplatePtrProperty(*x),
        )) ==> r is Ok,
    decreases *x, 0int,
{
    let ghost me = Property::MovieSceneEvalTemplatePtrProperty(*x);
            match &x.template_type {
                Some(st) => {
                    if !check_wf_str(st) {
                        return Err(Error::invalid_file(
                            "the template type string cannot be carried by the codec"
                                .to_owned(),
                        ));
                    }
                },
                None => {},
            }
            if include_header {
                writer.write_property_guid(&x.property_guid);
            }
            let start = writer.position();
            writer.write_string(&x.template_type);
            if x.template_type.is_some() {
                match write_named_list(asset, writer, &x.value) {
                    Ok(()) => {},
                    Err(e) => {
                        proof {
                            if wf_prop(*asset, me) && lens_ok(*asset, me) {
                                lemma_wf_named_index(*asset, x.value@, 0);
                                lemma_lens_ok_index(*asset, x.value@, 0);
                                assert(false);
                            }
                        }
                        return Err(e);
                    },
                }
                let nf = FName::new("None".to_owned(), 0);
                match asset.write_fname(writer, &nf) {
                    Ok(()) => {},
                    Err(e) => {
                        proof {
                            if wf_prop(*asset, me) {
                                assert(false);
                            }
                        }
                        return Err(e);
                    },
                }
                proof {
                    assert(fname_bytes(*asset, nf) =~= none_bytes(*asset));
                }
            }
            proof {
                assert(writer.data@ =~= old(writer).data@ + ser_prop(
                    *asset,
                    me,
                    include_header,
                ));
            }
            Ok(writer.position() - start)
}

/// Writes a map property; see [`Property::write`].
#[verifier::rlimit(100)]
fn write_map(
    asset: &Asset,
    writer: &mut ByteWriter,
    m: &MapProperty,
    include_header: bool,
) -> (r: Result<usize, Error>)
    requires
        asset.wf(),
    ensures
        match r {
            Ok(n) => {
                &&& final(writer).data@ == old(writer).data@ + ser_prop(
                    *asset,
                    Property::MapProperty(*m),
                    include_header,
                )
                &&& n == ser_body(*asset, Property::MapProperty(*m)).len()
            },
            Err(e) => e.is_invalid_file() && old(writer).data@.is_prefix_of(final(writer).data@),
        },
        (wf_prop(*asset, Property::MapProperty(*m)) && (include_header ==> hdr_writable(
            *asset,
            Property::MapProperty(*m),
        )) && lens_ok(*asset, Property::MapProperty(*m))) ==> r is Ok,
    decreases *m, 0int,
{
    let ghost me = Property::MapProperty(*m);
            if include_header {
                if m.value.len() > 0 {
                    let kf = m.value[0].0.to_fname();
                    let vf = m.value[0].1.to_fname();
                    match asset.write_fname(writer, &kf) {
                        Ok(()) => {},
                        Err(e) => {
                            return Err(e);
                        },
                    }
                    match asset.write_fname(writer, &vf) {
                        Ok(()) => {},
                        Err(e) => {
                            return Err(e);
                        },
                    }
                } else {
                    match asset.write_fname(writer, &m.key_type) {
                        Ok(()) => {},
                        Err(e) => {
                            return Err(e);
                        },
                    }
                    match asset.write_fname(writer, &m.value_type) {
                        Ok(()) => {},
                        Err(e) => {
                            return Err(e);
                        },
                    }
                }
                writer.write_property_guid(&m.property_guid);
            }
            let start = writer.position();
            match &m.keys_to_remove {
                Some(v) => {
                    if v.len() > (i32::MAX as usize) {
                        proof {
                            if wf_prop(*asset, me) {
                                assert(false);
                            }
                        }
                        return Err(Error::invalid_file(
                            "the removed-key count overflows its field".to_owned(),
                        ));
                    }
                    writer.write_i32(v.len() as i32);
                    match write_props_list(asset, writer, v) {
                        Ok(()) => {},
                        Err(e) => {
                            proof {
                                if wf_prop(*asset, me) && lens_ok(*asset, me) {
                                    lemma_wf_props_index(*asset, v@, 0);
                                    lemma_lens_ok_index(*asset, v@, 0);
                                    assert(false);
                                }
                            }
                            return Err(e);
                        },
                    }
                },
                None => {
                    writer.write_i32(0);
                },
            }
            if m.value.len() > (i32::MAX as usize) {
                proof {
                    if wf_prop(*asset, me) {
                        assert(false);
                    }
                }
                return Err(Error::invalid_file(
                    "the entry count overflows its field".to_owned(),
                ));
            }
            writer.write_i32(m.value.len() as i32);
            match write_pairs_list(asset, writer, &m.value) {
                Ok(()) => {},
                Err(e) => {
                    proof {
                        if wf_prop(*asset, me) && lens_ok(*asset, me) {
                            lemma_wf_pairs_index(*asset, m.value@, 0);
                            lemma_lens_ok_pairs_index(*asset, m.value@, 0);
                            assert(false);
                        }
                    }
                    return Err(e);
                },
            }
            proof {
                assert(writer.data@ =~= old(writer).data@ + ser_prop(
                    *asset,
                    me,
                    include_header,
                ));
            }
            Ok(writer.position() - start)
}

/// Round-trip identity for map properties. A decoded map whose raw entry
/// pairs carried pairwise-distinct keys keeps them in stream order, and
/// re-serializing it reproduces the decoded stream trace byte for byte —
/// provided the header type names the stream carried are the ones the
/// live entries write back, and no nested value can itself collapse.
pub proof fn lemma_map_round_trip(
    a: Asset,
    m: MapProperty,
    raw: Seq<(Property, Property)>,
    inc: bool,
)
    requires
        distinct_keys_model(raw),
        m.value@ == insert_all(raw),
        collapse_free_from(rem_seq(m), 0),
        collapse_free_pairs_from(raw, 0),
        inc && m.value@.len() > 0 ==> tn_bytes(a, m.value@[0].0) == fname_bytes(a, m.key_type)
            && tn_bytes(a, m.value@[0].1) == fname_bytes(a, m.value_type),
    ensures
        m.value@ == raw,
        ser_prop(a, Property::MapProperty(m), inc) == map_read_trace(a, m, raw, inc),
{
    lemma_insert_all_distinct(raw);
    assert(ser_props_from(a, rem_seq(m), 0) == (match m.keys_to_remove {
        None => Seq::<u8>::empty(),
        Some(v) => ser_props_from(a, v@, 0),
    }));
    assert(ser_prop(a, Property::MapProperty(m), inc) =~= map_read_trace(a, m, raw, inc));
}

/// Writes the bodies of a property list in order.
fn write_props_list(asset: &Asset, writer: &mut ByteWriter, v: &Vec<Property>) -> (r: Result<
    (),
    Error,
>)
    requires
        asset.wf(),
    ensures
        match r {
            Ok(()) => final(writer).data@ == old(writer).data@ + ser_props_from(*asset, v@, 0),
            Err(e) => e.is_invalid_file() && old(writer).data@.is_prefix_of(final(writer).data@),
        },
        (forall|k: int| 0 <= k < v@.len() ==> wf_prop(*asset, #[trigger] v@[k]) && lens_ok(
            *asset,
            v@[k],
        )) ==> r is Ok,
    decreases v@, 0int,
{
    let mut i: usize = 0;
    while i < v.len()
        invariant
            asset.wf(),
            i <= v@.len(),
            writer.data@ == old(writer).data@ + ser_props_from(*asset, v@.take(i as int), 0),
            old(writer).data@.is_prefix_of(writer.data@),
        decreases v@.len() - i,
    {
        match v[i].write(asset, writer, false) {
            Ok(_) => {},
            Err(e) => {
                proof {
                    if forall|k: int| 0 <= k < v@.len() ==> wf_prop(*asset, #[trigger] v@[k])
                        && lens_ok(*asset, v@[k]) {
                        assert(wf_prop(*asset, v@[i as int]) && lens_ok(*asset, v@[i as int]));
                        assert(false);
                    }
                }
                return Err(e);
            },
        }
        proof {
            assert(v@.take(i + 1) =~= v@.take(i as int).push(v@[i as int]));
            lemma_ser_props_push(*asset, v@.take(i as int), v@[i as int], 0);
        }
        i = i + 1;
    }
    proof {
        assert(v@.take(v@.len() as int) =~= v@);
    }
    Ok(())
}

/// Writes the key and value bodies of an entry list in order.
fn write_pairs_list(asset: &Asset, writer: &mut ByteWriter, v: &Vec<(Property, Property)>) -> (r:
    Result<(), Error>)
    requires
        asset.wf(),
    ensures
        match r {
            Ok(()) => final(writer).data@ == old(writer).data@ + ser_pairs_from(*asset, v@, 0),
            Err(e) => e.is_invalid_file() && old(writer).data@.is_prefix_of(final(writer).data@),
        },
        (forall|k: int| 0 <= k < v@.len() ==> wf_prop(*asset, (#[trigger] v@[k]).0) && wf_prop(
            *asset,
            v@[k].1,
        ) && lens_ok(*asset, v@[k].0) && lens_ok(*asset, v@[k].1)) ==> r is Ok,
    decreases v@, 0int,
{
    let mut i: usize = 0;
    while i < v.len()
        invariant
            asset.wf(),
            i <= v@.len(),
            writer.data@ == old(writer).data@ + ser_pairs_from(*asset, v@.take(i as int), 0),
            old(writer).data@.is_prefix_of(writer.data@),
        decreases v@.len() - i,
    {
        match v[i].0.write(asset, writer, false) {
            Ok(_) => {},
            Err(e) => {
                proof {
                    if forall|k: int| 0 <= k < v@.len() ==> wf_prop(*asset, (#[trigger] v@[k]).0)
                        && wf_prop(*asset, v@[k].1) && lens_ok(*asset, v@[k].0) && lens_ok(
                        *asset,
                        v@[k].1,
                    ) {
                        assert(wf_prop(*asset, v@[i as int].0) && lens_ok(*asset, v@[i as int].0));
                        assert(false);
                    }
                }
                return Err(e);
            },
        }
        match v[i].1.write(asset, writer, false) {
            Ok(_) => {},
            Err(e) => {
                proof {
                    if forall|k: int| 0 <= k < v@.len() ==> wf_prop(*asset, (#[trigger] v@[k]).0)
                        && wf_prop(*asset, v@[k].1) && lens_ok(*asset, v@[k].0) && lens_ok(
                        *asset,
                        v@[k].1,
                    ) {
                        assert(wf_prop(*asset, v@[i as int].1) && lens_ok(*asset, v@[i as int].1));
                        assert(false);
                    }
                }
                return Err(e);
            },
        }
        proof {
            assert(v@.take(i + 1) =~= v@.take(i as int).push(v@[i as int]));
            lemma_ser_pairs_push(
                *asset,
                v@.take(i as int),
                v@[i as int].0,
                v@[i as int].1,
                0,
            );
        }
        i = i + 1;
    }
    proof {
        assert(v@.take(v@.len() as int) =~= v@);
    }
    Ok(())
}

/// Writes a property list in the named form, in order, without the
/// terminating sentinel.
fn write_named_list(asset: &Asset, writer: &mut ByteWriter, v: &Vec<Property>) -> (r: Result<
    (),
    Error,
>)
    requires
        asset.wf(),
    ensures
        match r {
            Ok(()) => final(writer).data@ == old(writer).data@ + ser_named_from(*asset, v@, 0),
            Err(e) => e.is_invalid_file() && old(writer).data@.is_prefix_of(final(writer).data@),
        },
        (forall|k: int| 0 <= k < v@.len() ==> wf_prop(*asset, #[trigger] v@[k]) && wf_fname(
            *asset,
            prop_name(v@[k]),
        ) && name_present(asset.names(), type_name_chars(v@[k])) && hdr_writable(*asset, v@[k])
            && lens_ok(*asset, v@[k]) && ser_body(*asset, v@[k]).len() <= i32::MAX) ==> r is Ok,
    decreases v@, 0int,
{
    let mut i: usize = 0;
    while i < v.len()
        invariant
            asset.wf(),
            i <= v@.len(),
            writer.data@ == old(writer).data@ + ser_named_from(*asset, v@.take(i as int), 0),
            old(writer).data@.is_prefix_of(writer.data@),
        decreases v@.len() - i,
    {
        match write_named(asset, writer, &v[i]) {
            Ok(_) => {},
            Err(e) => {
                proof {
                    if forall|k: int| 0 <= k < v@.len() ==> wf_prop(*asset, #[trigger] v@[k])
                        && wf_fname(*asset, prop_name(v@[k])) && name_present(
                        asset.names(),
                        type_name_chars(v@[k]),
                    ) && hdr_writable(*asset, v@[k]) && lens_ok(*asset, v@[k]) && ser_body(
                        *asset,
                        v@[k],
                    ).len() <= i32::MAX {
                        assert(wf_prop(*asset, v@[i as int]));
                        assert(false);
                    }
                }
                return Err(e);
            },
        }
        proof {
            assert(v@.take(i + 1) =~= v@.take(i as int).push(v@[i as int]));
            lemma_ser_named_push(*asset, v@.take(i as int), v@[i as int], 0);
        }
        i = i + 1;
    }
    proof {
        assert(v@.take(v@.len() as int) =~= v@);
    }
    Ok(())
}

/// Writes one property in the named list form: its name, its type name,
/// its body length, its duplication ordinal, and its header and body.
pub fn write_named(asset: &Asset, writer: &mut ByteWriter, p: &Property) -> (r: Result<
    usize,
    Error,
>)
    requires
        asset.wf(),
    ensures
        match r {
            Ok(n) => {
                &&& final(writer).data@ == old(writer).data@ + ser_named(*asset, *p)
                &&& n == ser_body(*asset, *p).len()
            },
            Err(e) => e.is_invalid_file() && old(writer).data@.is_prefix_of(final(writer).data@),
        },
        (wf_prop(*asset, *p) && wf_fname(*asset, prop_name(*p)) && name_present(
            asset.names(),
            type_name_chars(*p),
        ) && hdr_writable(*asset, *p) && lens_ok(*asset, *p) && ser_body(*asset, *p).len()
            <= i32::MAX) ==> r is Ok,
    decreases *p, 2int,
{
    let mut tmp = ByteWriter::new();
    let n = match p.write(asset, &mut tmp, true) {
        Ok(n) => n,
        Err(e) => {
            return Err(e);
        },
    };
    if n > (i32::MAX as usize) {
        return Err(Error::invalid_file("the property body overflows the length field".to_owned()));
    }
    match asset.write_fname(writer, p.get_name()) {
        Ok(()) => {},
        Err(e) => {
            return Err(e);
        },
    }
    let tf = p.to_fname();
    match asset.write_fname(writer, &tf) {
        Ok(()) => {},
        Err(e) => {
            return Err(e);
        },
    }
    writer.write_i32(n as i32);
    writer.write_i32(p.get_duplication_index());
    let tv = tmp.into_bytes();
    writer.write_bytes(&tv);
    proof {
        assert(fname_bytes(*asset, tf) =~= tn_bytes(*asset, *p));
        assert(writer.data@ =~= old(writer).data@ + ser_named(*asset, *p));
    }
    Ok(n)
}

} // verus!
