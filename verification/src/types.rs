//! The small value types that the property system is built on: interned
//! names, GUIDs, generation bookkeeping, and signed package references.

use vstd::prelude::*;
use vstd::bytes::{spec_u32_to_le_bytes, u32_to_le_bytes, lemma_auto_spec_u32_to_from_le_bytes};

use crate::error::{Error, ErrorCode};

verus! {

/// A 16-byte universally-unique identifier, stored as raw bytes.
pub type Guid = [u8; 16];

/// Builds a [`Guid`] from four 32-bit words in little-endian limb order.
pub fn new_guid(a: u32, b: u32, c: u32, d: u32) -> (r: Guid)
    ensures
        r@ == spec_u32_to_le_bytes(a) + spec_u32_to_le_bytes(b) + spec_u32_to_le_bytes(c)
            + spec_u32_to_le_bytes(d),
{
    proof {
        lemma_auto_spec_u32_to_from_le_bytes();
    }
    let va = u32_to_le_bytes(a);
    let vb = u32_to_le_bytes(b);
    let vc = u32_to_le_bytes(c);
    let vd = u32_to_le_bytes(d);
    let r: Guid = [
        va[0], va[1], va[2], va[3],
        vb[0], vb[1], vb[2], vb[3],
        vc[0], vc[1], vc[2], vc[3],
        vd[0], vd[1], vd[2], vd[3],
    ];
    proof {
        assert(r@ =~= spec_u32_to_le_bytes(a) + spec_u32_to_le_bytes(b)
            + spec_u32_to_le_bytes(c) + spec_u32_to_le_bytes(d));
    }
    r
}

/// Export and name counts of one cooked generation of a package.
#[derive(Debug, Clone, Copy, PartialEq, Eq, Structural)]
pub struct GenerationInfo {
    pub export_count: i32,
    pub name_count: i32,
}

/// An interned name reference: string content plus an instance index that
/// disambiguates repeated uses of the same string.
#[derive(Debug, Default, Hash, PartialEq, Eq, Clone)]
pub struct FName {
    pub content: String,
    pub index: i32,
}

impl FName {
    pub fn new(content: String, index: i32) -> (r: Self)
        ensures
            r.content == content,
            r.index == index,
    {
        FName { content, index }
    }
}

/// Compares two names structurally, over string content and instance index.
pub fn fname_eq(a: &FName, b: &FName) -> (r: bool)
    ensures
        r == (a.content@ == b.content@ && a.index == b.index),
{
    a.content == b.content && a.index == b.index
}

/// A string tagged with the namespace it belongs to.
#[derive(Debug, Default)]
pub struct NamespacedString {
    pub namespace: String,
    pub value: String,
}

impl NamespacedString {
    pub fn new(namespace: String, value: String) -> (r: Self)
        ensures
            r.namespace == namespace,
            r.value == value,
    {
        NamespacedString { namespace, value }
    }
}

/// A table of localized strings for one namespace, as key/value pairs kept
/// in insertion order.
#[derive(Debug)]
pub struct StringTable {
    pub namespace: String,
    pub value: Vec<(String, String)>,
}

impl StringTable {
    pub fn new(namespace: String) -> (r: Self)
        ensures
            r.namespace == namespace,
            r.value@.len() == 0,
    {
        StringTable { namespace, value: Vec::new() }
    }
}

/// A signed reference into the import table (negative, zero excluded) or the
/// export table (positive) of an asset; zero is the reserved null reference.
#[derive(Debug, Clone, Copy, PartialEq, Eq, Hash, Structural)]
pub struct PackageIndex {
    pub index: i32,
}

impl PackageIndex {
    /// Wraps a raw wire integer that is already in index space; performs no
    /// validation.
    pub fn new(index: i32) -> (r: Self)
        ensures
            r.index == index,
    {
        PackageIndex { index }
    }

    /// Builds the index-space reference of import-table slot `import_index`.
    /// A negative slot is rejected with an invalid-package-index error.
    pub fn from_import(import_index: i32) -> (r: Result<Self, Error>)
        ensures
            import_index < 0 ==> (r matches Err(e) && e.is_invalid_package_index()),
            import_index >= 0 ==> (r matches Ok(p) && p.index == -(import_index as int) - 1),
    {
        if import_index < 0 {
            Err(Error::invalid_package_index("Import index must be bigger than zero".to_owned()))
        } else {
            Ok(PackageIndex::new(-import_index - 1))
        }
    }

    /// Builds the index-space reference of export-table slot `export_index`.
    /// A negative slot is rejected with an invalid-package-index error.
    pub fn from_export(export_index: i32) -> (r: Result<Self, Error>)
        requires
            export_index < i32::MAX,
        ensures
            export_index < 0 ==> (r matches Err(e) && e.is_invalid_package_index()),
            export_index >= 0 ==> (r matches Ok(p) && p.index == export_index + 1),
    {
        if export_index < 0 {
            Err(Error::invalid_package_index("Export index must be greater than zero".to_owned()))
        } else {
            Ok(PackageIndex::new(export_index + 1))
        }
    }
}

} // verus!
