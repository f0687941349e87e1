//! Field types a schema's fields may name, and what they accept.

pub mod hashed_password;
pub mod machine_id;

use vstd::prelude::*;
use vstd::string::StringExecFns;

use vstd::utf8::*;

use crate::engine::field_type::{
    crypt_record_verdict, crypt_sections, is_lower_hex, lemma_crypt_record_verdict,
    lemma_machine_id_verdict, machine_id_verdict, FieldKind,
};
use crate::schema;
use crate::text::{
    is_line_end, is_line_end_byte, lemma_encode_ascii, lemma_split_on_leading_sep, lemma_trim_line_end_bytes_at,
    lemma_trim_line_ends_prefix, split_on, str_eq, trim_line_end_bytes, trim_line_ends,
};
use self::hashed_password::{crypt_shape, HashedPassword};
use self::machine_id::{is_lower_hex_byte, machine_id_shape, MachineId};

verus! {

broadcast use vstd::string::group_string_axioms;

/// A field's type, paired with everything needed to validate or generate.
#[derive(Debug)]
pub enum FieldType {
    MachineId(MachineId),
    HashedPassword(HashedPassword),
}

/// The type a field's declared type names, if it is one this library knows.
pub open spec fn field_type_named(declared_type: Seq<char>) -> Option<FieldType> {
    if declared_type == "machine-id"@ {
        Some(FieldType::MachineId(MachineId))
    } else if declared_type == "hashed-password"@ {
        Some(FieldType::HashedPassword(HashedPassword))
    } else {
        None
    }
}

impl FieldType {
    /// What this type's validator makes of a stored value.
    pub open spec fn validity(&self, raw: Seq<u8>) -> Result<(), Seq<char>> {
        match self {
            FieldType::MachineId(_) => machine_id_shape(raw),
            FieldType::HashedPassword(_) => crypt_shape(raw),
        }
    }

    /// The tools producing a value of this type needs: none for a machine-id,
    /// `mkpasswd` for a hashed password.
    pub open spec fn tools_needed(&self) -> Seq<Seq<char>> {
        match self {
            FieldType::MachineId(_) => Seq::empty(),
            FieldType::HashedPassword(_) => seq!["mkpasswd"@],
        }
    }

    /// Checks a stored value against this type.
    pub fn validate(&self, raw: &[u8]) -> (verdict: Result<(), &'static str>)
        ensures
            match verdict {
                Ok(()) => self.validity(raw@) == Ok::<(), Seq<char>>(()),
                Err(why) => self.validity(raw@) == Err::<(), Seq<char>>(why@),
            },
    {
        match self {
            FieldType::MachineId(m) => m.validate(raw),
            FieldType::HashedPassword(h) => h.validate(raw),
        }
    }

    /// The tools producing a value of this type needs.
    pub fn required_tools(&self) -> (tools: &'static [&'static str])
        ensures
            tools@.map_values(|t: &str| t@) == self.tools_needed(),
    {
        match self {
            FieldType::MachineId(m) => m.required_tools(),
            FieldType::HashedPassword(h) => h.required_tools(),
        }
    }
}

/// The type a listed field names.
pub fn parse(field: &schema::Field) -> (parsed: Result<FieldType, String>)
    ensures
        match parsed {
            Ok(t) => field_type_named(field.declared_type@) == Some(t),
            Err(why) => {
                &&& field_type_named(field.declared_type@) is None
                &&& why@ == "unknown field type '"@ + field.declared_type@ + "'"@
            },
        },
{
    if str_eq(field.declared_type.as_str(), "machine-id") {
        Ok(FieldType::MachineId(MachineId))
    } else if str_eq(field.declared_type.as_str(), "hashed-password") {
        Ok(FieldType::HashedPassword(HashedPassword))
    } else {
        let mut why = String::from_str("unknown field type '");
        why.append(field.declared_type.as_str());
        why.append("'");
        Err(why)
    }
}

/// The listed field types are `machine-id`, validated as a machine-id, and
/// `hashed-password`, validated as a crypt record; no other name is known.
pub proof fn lemma_field_types_known(name: Seq<char>)
    ensures
        field_type_named(name) is Some <==> (name == "machine-id"@ || name == "hashed-password"@),
        name == "machine-id"@ ==> (field_type_named(name) matches Some(t) && forall|raw: Seq<u8>|
            #[trigger] t.validity(raw) == machine_id_shape(raw)),
        name == "hashed-password"@ ==> (field_type_named(name) matches Some(t) && forall|raw: Seq<u8>|
            #[trigger] t.validity(raw) == crypt_shape(raw)),
{
    reveal_strlit("machine-id");
    reveal_strlit("hashed-password");
    assert("hashed-password"@.len() != "machine-id"@.len());
}

/// What generate writes, resolve accepts: a value the engine's type accepts
/// is accepted by the listed type spelled the same way. For a hashed password
/// the engine's check is the stricter one (one line, sections counted after
/// the leading `$`); for a machine-id the two checks agree.
pub proof fn lemma_generated_values_resolve(kind: FieldKind, value: Seq<u8>)
    requires
        kind.validity(value) is Ok,
    ensures
        field_type_named(kind.spec_name()) matches Some(t) && t.validity(value) is Ok,
{
    let chars = decode_utf8(value);
    let text = trim_line_ends(chars);
    match kind {
        FieldKind::MachineId => {
            assert(machine_id_verdict(text) is Ok);
            lemma_machine_id_verdict(text);
            lemma_trim_line_ends_prefix(chars);
            assert forall|i: int| 0 <= i < chars.len() implies (#[trigger] chars[i] as u32) < 128 by {
                if i < 32 {
                    assert(text[i] == chars[i]);
                    assert(is_lower_hex(text[i]));
                } else {
                    assert(is_line_end(chars[i]));
                }
            }
            lemma_encode_ascii(chars);
            decode_utf8_encode_utf8(value);
            assert(value.len() == chars.len());
            assert forall|i: int| 32 <= i < value.len() implies is_line_end_byte(
                #[trigger] value[i],
            ) by {
                assert(is_line_end(chars[i]));
                assert(encode_utf8(chars)[i] as u32 == chars[i] as u32);
            }
            assert(text[31] == chars[31]);
            assert(is_lower_hex(text[31]));
            assert(encode_utf8(chars)[31] as u32 == chars[31] as u32);
            lemma_trim_line_end_bytes_at(value, 32);
            let trimmed = trim_line_end_bytes(value);
            assert forall|i: int| 0 <= i < 32 implies is_lower_hex_byte(#[trigger] trimmed[i]) by {
                assert(trimmed[i] == value[i]);
                assert(encode_utf8(chars)[i] as u32 == chars[i] as u32);
                assert(text[i] == chars[i]);
                assert(is_lower_hex(text[i]));
            }
            assert(machine_id_shape(value) is Ok);
        },
        FieldKind::HashedPassword => {
            assert(crypt_record_verdict(text) is Ok);
            lemma_crypt_record_verdict(text);
            let sections = crypt_sections(text);
            assert(text =~= seq!['$'] + text.drop_first());
            lemma_split_on_leading_sep(text.drop_first(), '$');
            let parts = split_on(text, '$');
            assert(parts == seq![Seq::<char>::empty()] + sections);
            assert forall|i: int| 1 <= i < parts.len() implies #[trigger] parts[i].len() != 0 by {
                assert(parts[i] == sections[i - 1]);
            }
            assert(crypt_shape(value) is Ok);
            reveal_strlit("hashed-password");
            reveal_strlit("machine-id");
            assert("hashed-password"@.len() != "machine-id"@.len());
        },
    }
}

} // verus!
