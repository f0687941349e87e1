//! Hashed passwords: crypt records.

use vstd::prelude::*;
use vstd::utf8::*;

use crate::text::{decode_chars, split_chars, split_on, trim_line_ends, trimmed_len};

verus! {

broadcast use vstd::string::group_string_axioms;

/// A crypt record, as `/etc/shadow` understands one.
#[derive(Debug)]
pub struct HashedPassword;

/// What the hashed password validator makes of a stored value: UTF-8 text
/// that, once its line ends are trimmed, opens with `$` and splits on `$`
/// into at least four parts, none after the first of them empty.
pub open spec fn crypt_shape(raw: Seq<u8>) -> Result<(), Seq<char>> {
    if !valid_utf8(raw) {
        Err("value is not valid UTF-8"@)
    } else {
        let s = trim_line_ends(decode_utf8(raw));
        let parts = split_on(s, '$');
        if s.len() == 0 || s[0] != '$' {
            Err("not a crypt record: missing leading '$'"@)
        } else if parts.len() < 4 {
            Err("not a crypt record: too few sections"@)
        } else if exists|i: int| 1 <= i < parts.len() && #[trigger] parts[i].len() == 0 {
            Err("not a crypt record: contains an empty section"@)
        } else {
            Ok(())
        }
    }
}

/// A hashed password is accepted exactly when the value is UTF-8 and, once
/// its line ends are trimmed, opens with `$` and splits on `$` into at least
/// four parts, every part after the first non-empty: a record whose last
/// section was cut away is refused.
pub proof fn lemma_crypt_shape(raw: Seq<u8>)
    ensures
        crypt_shape(raw) is Ok <==> {
            &&& valid_utf8(raw)
            &&& trim_line_ends(decode_utf8(raw)).len() > 0
            &&& trim_line_ends(decode_utf8(raw))[0] == '$'
            &&& split_on(trim_line_ends(decode_utf8(raw)), '$').len() >= 4
            &&& forall|i: int|
                1 <= i < split_on(trim_line_ends(decode_utf8(raw)), '$').len() ==> (#[trigger] split_on(
                    trim_line_ends(decode_utf8(raw)),
                    '$',
                )[i]).len() > 0
        },
{
}

impl HashedPassword {
    /// The tools producing a value needs.
    pub fn required_tools(&self) -> (tools: &'static [&'static str])
        ensures
            tools@.len() == 1,
            tools@[0]@ == "mkpasswd"@,
    {
        &["mkpasswd"]
    }

    /// Checks a stored value.
    #[verifier::loop_isolation(false)]
    pub fn validate(&self, raw: &[u8]) -> (verdict: Result<(), &'static str>)
        ensures
            match verdict {
                Ok(()) => crypt_shape(raw@) == Ok::<(), Seq<char>>(()),
                Err(why) => crypt_shape(raw@) == Err::<(), Seq<char>>(why@),
            },
            verdict is Ok ==> forall|i: int|
                1 <= i < split_on(trim_line_ends(decode_utf8(raw@)), '$').len() ==> (#[trigger] split_on(
                    trim_line_ends(decode_utf8(raw@)),
                    '$',
                )[i]).len() > 0,
    {
        proof {
            lemma_crypt_shape(raw@);
        }
        let chars = match decode_chars(raw) {
            Some(chars) => chars,
            None => return Err("value is not valid UTF-8"),
        };
        let len = trimmed_len(&chars);
        let mut s = chars;
        s.truncate(len);
        if s.len() == 0 || s[0] != '$' {
            return Err("not a crypt record: missing leading '$'");
        }
        let parts = split_chars(s.as_slice(), '$');
        let ghost pieces = parts@.map_values(|p: Vec<char>| p@);
        if parts.len() < 4 {
            return Err("not a crypt record: too few sections");
        }
        let mut i: usize = 1;
        while i < parts.len()
            invariant
                pieces == parts@.map_values(|p: Vec<char>| p@),
                1 <= i <= parts@.len(),
                forall|j: int| 1 <= j < i ==> #[trigger] pieces[j].len() > 0,
            decreases parts@.len() - i,
        {
            if parts[i].len() == 0 {
                assert(pieces[i as int].len() == 0);
                return Err("not a crypt record: contains an empty section");
            }
            i = i + 1;
        }
        Ok(())
    }
}

} // verus!
