//! The per-asset context: the interned name table, the custom-version
//! registry, and the struct-type override tables.
//!
//! One context is populated when an asset is opened and read (never grown)
//! for the asset's lifetime; every decode and encode call threads a borrow
//! of it alongside the byte cursor.

use vstd::prelude::*;

use crate::codec::{dec_i32, le_i32, lemma_subrange_concat, wf_chars, ByteReader, ByteWriter};
use crate::error::{Error, ErrorCode};
use crate::types::{FName, Guid};

verus! {

/// The revision at which the transient next-field pointer left the shared
/// field header.
pub const FRAMEWORK_REMOVE_UFIELD_NEXT: i32 = 9;

/// The revision at which property descriptors stopped serializing the
/// lifetime replication condition byte.
pub const RELEASE_PROPERTIES_SERIALIZE_REP_CONDITION: i32 = 6;

/// The named engine subsystems whose format revisions gate optional wire
/// fields of this crate.
#[derive(Debug, Clone, Copy, PartialEq, Eq, Structural)]
pub enum CustomVersionKey {
    FrameworkObjectVersion,
    ReleaseObjectVersion,
}

/// One subsystem's format revision for the asset being processed.
#[derive(Debug, Clone, Copy, PartialEq, Eq, Structural)]
pub struct CustomVersion {
    pub key: CustomVersionKey,
    pub version: i32,
}

/// True when no two entries of the name table hold the same string.
pub open spec fn distinct_names(names: Seq<Seq<char>>) -> bool {
    forall|i: int, j: int| 0 <= i < j < names.len() ==> names[i] != names[j]
}

/// True when `c` is interned in the name table.
pub open spec fn name_present(names: Seq<Seq<char>>, c: Seq<char>) -> bool {
    exists|j: int| 0 <= j < names.len() && names[j] == c
}

/// The slot of `c` in the name table; meaningful when present and the table
/// is duplicate-free.
pub open spec fn name_index(names: Seq<Seq<char>>, c: Seq<char>) -> int {
    choose|j: int| 0 <= j < names.len() && names[j] == c
}

/// In a duplicate-free table, the slot found for an interned string is the
/// slot it sits in.
pub proof fn lemma_name_index_of(names: Seq<Seq<char>>, i: int)
    requires
        distinct_names(names),
        0 <= i < names.len(),
    ensures
        name_present(names, names[i]),
        name_index(names, names[i]) == i,
{
    assert(0 <= i < names.len() && names[i] == names[i]);
    let j = name_index(names, names[i]);
    assert(0 <= j < names.len() && names[j] == names[i]);
    if i < j {
        assert(names[i] != names[j]);
    } else if j < i {
        assert(names[j] != names[i]);
    }
}

/// The view of an override table: pairs of property name and struct type.
pub open spec fn table_view(t: Seq<(String, String)>) -> Seq<(Seq<char>, Seq<char>)> {
    t.map_values(|p: (String, String)| (p.0@, p.1@))
}

/// True when no two rows of an override table share a key.
pub open spec fn distinct_keys(t: Seq<(Seq<char>, Seq<char>)>) -> bool {
    forall|i: int, j: int| 0 <= i < j < t.len() ==> (#[trigger] t[i]).0 != (#[trigger] t[j]).0
}

/// True when some row of the table has key `k`.
pub open spec fn table_has(t: Seq<(Seq<char>, Seq<char>)>, k: Seq<char>) -> bool {
    exists|j: int| 0 <= j < t.len() && (#[trigger] t[j]).0 == k
}

/// The value stored under key `k`; meaningful when present and the table is
/// duplicate-free.
pub open spec fn table_get(t: Seq<(Seq<char>, Seq<char>)>, k: Seq<char>) -> Seq<char> {
    t[choose|j: int| 0 <= j < t.len() && (#[trigger] t[j]).0 == k].1
}

/// In a duplicate-free table, the row found for a stored key is that row.
pub proof fn lemma_table_get_of(t: Seq<(Seq<char>, Seq<char>)>, i: int)
    requires
        distinct_keys(t),
        0 <= i < t.len(),
    ensures
        table_has(t, t[i].0),
        table_get(t, t[i].0) == t[i].1,
{
    assert(0 <= i < t.len() && t[i].0 == t[i].0);
    let j = choose|j: int| 0 <= j < t.len() && (#[trigger] t[j]).0 == t[i].0;
    if i < j {
        assert(t[i].0 != t[j].0);
    } else if j < i {
        assert(t[j].0 != t[i].0);
    }
}

/// The asset-scoped context for property decoding and encoding.
pub struct Asset {
    /// The interned string pool that names resolve through.
    pub name_map: Vec<String>,
    /// The custom-version registry; an absent key means the oldest form.
    pub custom_versions: Vec<CustomVersion>,
    /// Struct-type overrides for map keys, from property name to type name.
    pub map_key_override: Vec<(String, String)>,
    /// Struct-type overrides for map and array values.
    pub map_value_override: Vec<(String, String)>,
}

impl Asset {
    /// The name table as character sequences.
    pub open spec fn names(self) -> Seq<Seq<char>> {
        self.name_map@.map_values(|s: String| s@)
    }

    /// The well-formedness the context keeps for its whole lifetime: a
    /// duplicate-free ASCII name table and registry, duplicate-free ASCII
    /// override tables.
    pub open spec fn wf(self) -> bool {
        &&& distinct_names(self.names())
        &&& forall|i: int| 0 <= i < self.names().len() ==> wf_chars(#[trigger] self.names()[i])
        &&& self.name_map@.len() <= i32::MAX
        &&& forall|i: int, j: int| 0 <= i < j < self.custom_versions@.len()
            ==> (#[trigger] self.custom_versions@[i]).key
                != (#[trigger] self.custom_versions@[j]).key
        &&& distinct_keys(table_view(self.map_key_override@))
        &&& distinct_keys(table_view(self.map_value_override@))
        &&& forall|i: int| 0 <= i < self.map_key_override@.len()
            ==> wf_chars((#[trigger] self.map_key_override@[i]).0@)
                && wf_chars(self.map_key_override@[i].1@)
        &&& forall|i: int| 0 <= i < self.map_value_override@.len()
            ==> wf_chars((#[trigger] self.map_value_override@[i]).0@)
                && wf_chars(self.map_value_override@[i].1@)
    }

    /// True when the registry holds a revision for `key`.
    pub open spec fn version_present(self, key: CustomVersionKey) -> bool {
        exists|i: int| 0 <= i < self.custom_versions@.len()
            && (#[trigger] self.custom_versions@[i]).key == key
    }

    /// The revision the registry reports for `key`; an absent key reports
    /// revision zero, the oldest form.
    pub open spec fn effective_version(self, key: CustomVersionKey) -> int {
        if self.version_present(key) {
            self.custom_versions@[choose|i: int| 0 <= i < self.custom_versions@.len()
                && (#[trigger] self.custom_versions@[i]).key == key].version as int
        } else {
            0
        }
    }

    /// True when the shared field header carries the transient next-field
    /// index.
    pub open spec fn has_ufield_next(self) -> bool {
        self.effective_version(CustomVersionKey::FrameworkObjectVersion)
            < FRAMEWORK_REMOVE_UFIELD_NEXT
    }

    /// True when property descriptors carry the replication condition byte.
    pub open spec fn has_rep_condition(self) -> bool {
        self.effective_version(CustomVersionKey::ReleaseObjectVersion)
            < RELEASE_PROPERTIES_SERIALIZE_REP_CONDITION
    }

    /// Looks the revision of `key` up in the registry.
    pub fn get_custom_version(&self, key: CustomVersionKey) -> (r: Option<i32>)
        requires
            self.wf(),
        ensures
            r is Some <==> self.version_present(key),
            match r {
                Some(v) => v as int == self.effective_version(key),
                None => self.effective_version(key) == 0,
            },
    {
        let mut i: usize = 0;
        while i < self.custom_versions.len()
            invariant
                i <= self.custom_versions@.len(),
                self.wf(),
                forall|j: int| 0 <= j < i ==> (#[trigger] self.custom_versions@[j]).key != key,
            decreases self.custom_versions@.len() - i,
        {
            if self.custom_versions[i].key == key {
                proof {
                    let w = choose|k: int| 0 <= k < self.custom_versions@.len()
                        && (#[trigger] self.custom_versions@[k]).key == key;
                    assert(0 <= i < self.custom_versions@.len()
                        && self.custom_versions@[i as int].key == key);
                    if w < i {
                        assert(self.custom_versions@[w].key != self.custom_versions@[i as int].key);
                    } else if i < w {
                        assert(self.custom_versions@[i as int].key != self.custom_versions@[w].key);
                    }
                }
                return Some(self.custom_versions[i].version);
            }
            i = i + 1;
        }
        None
    }

    /// True when the asset's wire layout carries the transient next-field
    /// index in shared field headers.
    pub fn reads_ufield_next(&self) -> (r: bool)
        requires
            self.wf(),
        ensures
            r == self.has_ufield_next(),
    {
        match self.get_custom_version(CustomVersionKey::FrameworkObjectVersion) {
            Some(v) => v < FRAMEWORK_REMOVE_UFIELD_NEXT,
            None => true,
        }
    }

    /// True when the asset's wire layout carries the replication condition
    /// byte in property descriptors.
    pub fn reads_rep_condition(&self) -> (r: bool)
        requires
            self.wf(),
        ensures
            r == self.has_rep_condition(),
    {
        match self.get_custom_version(CustomVersionKey::ReleaseObjectVersion) {
            Some(v) => v < RELEASE_PROPERTIES_SERIALIZE_REP_CONDITION,
            None => true,
        }
    }
}

/// The wire form of an interned name: the slot of its string in the name
/// table, then its instance index, both 32-bit.
pub open spec fn fname_bytes(a: Asset, f: FName) -> Seq<u8> {
    le_i32(name_index(a.names(), f.content@) as i32) + le_i32(f.index)
}

/// True when a name can be resolved through the asset's table.
pub open spec fn wf_fname(a: Asset, f: FName) -> bool {
    &&& name_present(a.names(), f.content@)
    &&& wf_chars(f.content@)
}

/// True of byte streams whose head is a readable interned name: eight bytes
/// whose leading slot lies inside the asset's name table.
pub open spec fn fname_parse_ok(a: Asset, b: Seq<u8>) -> bool {
    &&& b.len() >= 8
    &&& 0 <= dec_i32(b.take(4)) < a.names().len()
}

impl Asset {
    /// Reads an interned name: a table slot that must lie inside the name
    /// table, and an instance index.
    pub fn read_fname(&self, reader: &mut ByteReader) -> (r: Result<FName, Error>)
        requires
            self.wf(),
            old(reader).wf(),
        ensures
            ByteReader::advanced(*old(reader), *final(reader)),
            r is Ok <==> fname_parse_ok(*self, old(reader).rest()),
            match r {
                Ok(f) => {
                    &&& wf_fname(*self, f)
                    &&& ByteReader::taken(*old(reader), *final(reader)) == fname_bytes(*self, f)
                    &&& final(reader).pos == old(reader).pos + 8
                },
                Err(e) => e.is_io() == (old(reader).remaining() < 8)
                    && e.is_invalid_file() == (old(reader).remaining() >= 8),
            },
    {
        let ghost pre = *reader;
        let idx = match reader.read_i32() {
            Ok(x) => x,
            Err(e) => {
                return Err(e);
            },
        };
        proof {
            assert(pre.rest().take(4) =~= ByteReader::taken(pre, *reader));
            assert(dec_i32(pre.rest().take(4)) == idx);
        }
        let num = match reader.read_i32() {
            Ok(x) => x,
            Err(e) => {
                return Err(e);
            },
        };
        if idx < 0 || idx >= self.name_map.len() as i32 {
            return Err(Error::invalid_file("name table slot is out of range".to_owned()));
        }
        let content = self.name_map[idx as usize].clone();
        proof {
            lemma_name_index_of(self.names(), idx as int);
            assert(content@ == self.names()[idx as int]);
            lemma_subrange_concat(
                pre.data@,
                pre.pos as int,
                pre.pos + 4,
                pre.pos + 8,
            );
            assert(ByteReader::taken(pre, *reader)
                =~= le_i32(idx) + le_i32(num));
        }
        Ok(FName { content, index: num })
    }

    /// Writes an interned name by resolving its string through the name
    /// table; a string the table does not hold is a malformed-value error
    /// and leaves the output untouched.
    pub fn write_fname(&self, writer: &mut ByteWriter, f: &FName) -> (r: Result<(), Error>)
        requires
            self.wf(),
        ensures
            r is Ok <==> name_present(self.names(), f.content@),
            match r {
                Ok(()) => final(writer).data@ == old(writer).data@ + fname_bytes(*self, *f),
                Err(e) => *final(writer) == *old(writer) && e.is_invalid_file(),
            },
    {
        let mut i: usize = 0;
        while i < self.name_map.len()
            invariant
                i <= self.name_map@.len(),
                self.wf(),
                *writer == *old(writer),
                forall|j: int| 0 <= j < i ==> self.names()[j] != f.content@,
            decreases self.name_map@.len() - i,
        {
            if self.name_map[i] == f.content {
                proof {
                    assert(self.names()[i as int] == f.content@);
                    lemma_name_index_of(self.names(), i as int);
                    assert(name_index(self.names(), f.content@) == i as int);
                }
                writer.write_i32(i as i32);
                writer.write_i32(f.index);
                proof {
                    assert(writer.data@ =~= old(writer).data@ + fname_bytes(*self, *f));
                }
                return Ok(());
            }
            proof {
                assert(self.names()[i as int] == self.name_map@[i as int]@);
            }
            i = i + 1;
        }
        proof {
            assert(!name_present(self.names(), f.content@));
        }
        Err(Error::invalid_file("name is not interned in the name table".to_owned()))
    }

    /// Resolves the concrete struct type for an element of the composite
    /// property `name`: the key-override table for map keys, the
    /// value-override table otherwise, with the generic fallback type when
    /// the tables are silent.
    pub fn resolve_struct_type(&self, name: &String, is_key: bool) -> (r: String)
        requires
            self.wf(),
        ensures
            r@ == resolve_struct_type_spec(*self, name@, is_key),
            wf_chars(r@),
    {
        let table = if is_key { &self.map_key_override } else { &self.map_value_override };
        let ghost tv = table_view(table@);
        let mut i: usize = 0;
        while i < table.len()
            invariant
                i <= table@.len(),
                self.wf(),
                tv == table_view(table@),
                table@ == if is_key { self.map_key_override@ } else { self.map_value_override@ },
                forall|j: int| 0 <= j < i ==> (#[trigger] tv[j]).0 != name@,
            decreases table@.len() - i,
        {
            if table[i].0 == *name {
                proof {
                    assert(tv[i as int].0 == name@);
                    lemma_table_get_of(tv, i as int);
                }
                return table[i].1.clone();
            }
            proof {
                assert(tv[i as int].0 == table@[i as int].0@);
            }
            i = i + 1;
        }
        proof {
            assert(!table_has(tv, name@));
            reveal_strlit("Generic");
        }
        "Generic".to_owned()
    }
}

/// The struct type an untagged composite element of property `name`
/// decodes as: the override table entry when one exists, else the generic
/// fallback type.
pub open spec fn resolve_struct_type_spec(a: Asset, name: Seq<char>, is_key: bool) -> Seq<char> {
    let tv = table_view(if is_key { a.map_key_override@ } else { a.map_value_override@ });
    if table_has(tv, name) {
        table_get(tv, name)
    } else {
        "Generic"@
    }
}

} // verus!
