//! Machine-ids: the 32 lowercase hexadecimal characters systemd identifies a
//! machine by.

use vstd::prelude::*;
use vstd::utf8::*;

use crate::text::{is_utf8, trim_line_end_bytes, trimmed_byte_len};

verus! {

broadcast use vstd::string::group_string_axioms;

/// A machine-id.
#[derive(Debug)]
pub struct MachineId;

/// `b` spells a lowercase hexadecimal digit.
pub open spec fn is_lower_hex_byte(b: u8) -> bool {
    (48 <= b <= 57) || (97 <= b <= 102)
}

/// What the machine-id validator makes of a stored value: UTF-8 text that,
/// once its line ends are trimmed, is 32 bytes of lowercase hexadecimal
/// digits.
pub open spec fn machine_id_shape(raw: Seq<u8>) -> Result<(), Seq<char>> {
    if !valid_utf8(raw) {
        Err("value is not valid UTF-8"@)
    } else {
        let s = trim_line_end_bytes(raw);
        if s.len() != 32 {
            Err("machine-id must be exactly 32 hex characters"@)
        } else if exists|i: int| 0 <= i < 32 && !is_lower_hex_byte(#[trigger] s[i]) {
            Err("machine-id must contain only lowercase hex characters"@)
        } else {
            Ok(())
        }
    }
}

/// A machine-id is accepted exactly when the value is UTF-8 and, once its
/// line end bytes are trimmed, is 32 bytes, each a digit or a letter from `a`
/// to `f`.
pub proof fn lemma_machine_id_shape(raw: Seq<u8>)
    ensures
        machine_id_shape(raw) is Ok <==> {
            &&& valid_utf8(raw)
            &&& trim_line_end_bytes(raw).len() == 32
            &&& forall|i: int|
                0 <= i < 32 ==> {
                    let b = #[trigger] trim_line_end_bytes(raw)[i];
                    (48 <= b <= 57) || (97 <= b <= 102)
                }
        },
{
}

impl MachineId {
    /// The tools producing a value needs: none.
    pub fn required_tools(&self) -> (tools: &'static [&'static str])
        ensures
            tools@.len() == 0,
    {
        &[]
    }

    /// Checks a stored value.
    #[verifier::loop_isolation(false)]
    pub fn validate(&self, raw: &[u8]) -> (verdict: Result<(), &'static str>)
        ensures
            match verdict {
                Ok(()) => machine_id_shape(raw@) == Ok::<(), Seq<char>>(()),
                Err(why) => machine_id_shape(raw@) == Err::<(), Seq<char>>(why@),
            },
            verdict is Ok ==> trim_line_end_bytes(raw@).len() == 32 && forall|i: int|
                0 <= i < 32 ==> {
                    let b = #[trigger] trim_line_end_bytes(raw@)[i];
                    (48 <= b <= 57) || (97 <= b <= 102)
                },
    {
        proof {
            lemma_machine_id_shape(raw@);
        }
        if !is_utf8(raw) {
            return Err("value is not valid UTF-8");
        }
        let len = trimmed_byte_len(raw);
        if len != 32 {
            return Err("machine-id must be exactly 32 hex characters");
        }
        let mut i: usize = 0;
        while i < 32
            invariant
                len == 32,
                trim_line_end_bytes(raw@) == raw@.take(32),
                raw@.len() >= 32,
                i <= 32,
                forall|j: int| 0 <= j < i ==> is_lower_hex_byte(#[trigger] raw@[j]),
            decreases 32 - i,
        {
            let b = raw[i];
            if !((48 <= b && b <= 57) || (97 <= b && b <= 102)) {
                assert(!is_lower_hex_byte(trim_line_end_bytes(raw@)[i as int]));
                return Err("machine-id must contain only lowercase hex characters");
            }
            i = i + 1;
        }
        assert forall|j: int| 0 <= j < 32 implies is_lower_hex_byte(
            #[trigger] trim_line_end_bytes(raw@)[j],
        ) by {
            assert(trim_line_end_bytes(raw@)[j] == raw@[j]);
        }
        Ok(())
    }
}

} // verus!
