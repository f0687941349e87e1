//! The schema file format: what a schema file declares, before any policy or
//! validation has been applied.

use vstd::prelude::*;

verus! {

/// A schema file as declared: its version and the fields it lists.
#[derive(Debug)]
pub struct Schema {
    pub version: u64,
    pub fields: Vec<Field>,
}

/// A field as a schema file declares it.
#[derive(Debug)]
pub struct Field {
    /// Where inside the volume the value is stored.
    pub path: String,
    /// The spelling of the field's type (the `type` key).
    pub declared_type: String,
    /// Whether the volume may go without the value.
    pub optional: bool,
    /// What the value is for, told to the operator when it is asked for.
    pub description: Option<String>,
}

/// A declared field, as plain values.
pub struct FieldDeclaration {
    pub path: Seq<char>,
    pub declared_type: Seq<char>,
    pub optional: bool,
    pub description: Option<Seq<char>>,
}

/// The characters of an optional string.
pub open spec fn optional_view(s: Option<String>) -> Option<Seq<char>> {
    match s {
        Some(t) => Some(t@),
        None => None,
    }
}

impl View for Field {
    type V = FieldDeclaration;

    open spec fn view(&self) -> FieldDeclaration {
        FieldDeclaration {
            path: self.path@,
            declared_type: self.declared_type@,
            optional: self.optional,
            description: optional_view(self.description),
        }
    }
}

impl Schema {
    /// The fields declared, in order.
    pub open spec fn declared(&self) -> Seq<FieldDeclaration> {
        self.fields@.map_values(|f: Field| f@)
    }
}

} // verus!
