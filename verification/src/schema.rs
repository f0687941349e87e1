//! A schema as its fields list them: each with a path, a type name, and
//! whether the volume may go without it.

use vstd::prelude::*;
use vstd::string::StringExecFns;

use crate::text::{decimal, push_decimal};

verus! {

broadcast use vstd::string::group_string_axioms;

/// A schema as its file lists it.
#[derive(Debug)]
pub struct Schema {
    pub version: Version,
    pub fields: Vec<Field>,
}

/// A field as a schema file lists it.
#[derive(Debug)]
pub struct Field {
    /// Where inside the volume the value is stored.
    pub path: String,
    /// The spelling of the field's type (the `type` key).
    pub declared_type: String,
    /// Whether the volume may go without the value (`false` unless given).
    pub optional: bool,
}

/// A listed field, as plain values.
pub struct FieldEntry {
    pub path: Seq<char>,
    pub declared_type: Seq<char>,
    pub optional: bool,
}

impl View for Field {
    type V = FieldEntry;

    open spec fn view(&self) -> FieldEntry {
        FieldEntry { path: self.path@, declared_type: self.declared_type@, optional: self.optional }
    }
}

/// The schema versions this library reads.
#[derive(Debug, Clone, Copy, PartialEq, Eq)]
pub enum Version {
    V1,
}

/// What a version number found in a schema file means: only version 1 is
/// read.
pub open spec fn version_numbered(n: u32) -> Result<Version, Seq<char>> {
    if n == 1 {
        Ok(Version::V1)
    } else {
        Err("unsupported schema version: "@ + decimal(n as nat))
    }
}

impl Version {
    /// The version a schema file's version number names.
    pub fn from_number(n: u32) -> (version: Result<Version, String>)
        ensures
            match version {
                Ok(v) => version_numbered(n) == Ok::<Version, Seq<char>>(v),
                Err(why) => version_numbered(n) == Err::<Version, Seq<char>>(why@),
            },
            version is Ok <==> n == 1,
    {
        if n == 1 {
            Ok(Version::V1)
        } else {
            let mut why = String::from_str("unsupported schema version: ");
            push_decimal(&mut why, n as u64);
            Err(why)
        }
    }

    /// The number a schema file writes for this version.
    pub fn number(&self) -> (n: u32)
        ensures
            version_numbered(n) == Ok::<Version, Seq<char>>(*self),
    {
        match self {
            Version::V1 => 1,
        }
    }
}

} // verus!
