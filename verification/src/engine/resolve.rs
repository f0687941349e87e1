//! Checking a volume against the schema a system expects of it.

use vstd::prelude::*;
use vstd::string::StringExecFns;

use crate::engine::schema::Schema;

verus! {

broadcast use vstd::string::group_string_axioms;

/// Why a volume cannot be resolved against a schema.
#[derive(Debug)]
pub enum ResolveError {
    /// The first declared field is of a type resolve cannot evaluate yet.
    UnimplementedFieldType { path: String, declared_type: String },
}

impl ResolveError {
    /// How the error reads to the operator.
    pub open spec fn spec_message(&self) -> Seq<char> {
        match self {
            ResolveError::UnimplementedFieldType { path, declared_type } => path@ + ": field type '"@
                + declared_type@ + "' is not implemented"@,
        }
    }

    /// How the error reads to the operator.
    pub fn message(&self) -> (text: String)
        ensures
            text@ == self.spec_message(),
    {
        match self {
            ResolveError::UnimplementedFieldType { path, declared_type } => {
                let mut text = path.clone();
                text.append(": field type '");
                text.append(declared_type.as_str());
                text.append("' is not implemented");
                text
            },
        }
    }
}

/// Decide whether a volume holds what a schema declares.
///
/// A schema declaring nothing is satisfied by any volume; no declared field
/// can be evaluated yet, so the first one refuses the volume.
pub fn resolve(schema: &Schema) -> (verdict: Result<(), ResolveError>)
    ensures
        match verdict {
            Ok(()) => schema@.len() == 0,
            Err(ResolveError::UnimplementedFieldType { path, declared_type }) => {
                &&& schema@.len() > 0
                &&& path@ == schema@[0].path
                &&& declared_type@ == schema@[0].declared_type
            },
        },
{
    let fields = schema.fields();
    if fields.len() == 0 {
        Ok(())
    } else {
        let field = &fields[0];
        Err(
            ResolveError::UnimplementedFieldType {
                path: String::from_str(field.path().as_str()),
                declared_type: String::from_str(field.declared_type()),
            },
        )
    }
}

} // verus!
