//! The types of value a field holds: how they are named, validated, stored
//! and produced.

use vstd::prelude::*;
use vstd::std_specs::convert::FromSpecImpl;
use vstd::string::StringExecFns;
use vstd::utf8::*;

use crate::text::{
    decimal, decode_chars, first_where, is_first_where, lemma_first_where, push_decimal,
    split_chars, split_on, str_eq, tail, trim_line_ends, trimmed_len,
};

verus! {

broadcast use vstd::string::group_string_axioms;

/// The type of value a field holds.
#[derive(Debug, Clone, Copy, PartialEq, Eq)]
pub enum FieldKind {
    /// The 32 hexadecimal characters systemd identifies a machine by.
    MachineId,
    /// A crypt record, as `/etc/shadow` and the PAM stack understand one.
    HashedPassword,
}

/// The kind a schema means by `name`, if any.
pub open spec fn kind_named(name: Seq<char>) -> Option<FieldKind> {
    if name == "machine-id"@ {
        Some(FieldKind::MachineId)
    } else if name == "hashed-password"@ {
        Some(FieldKind::HashedPassword)
    } else {
        None
    }
}

/// `c` is a lowercase hexadecimal digit.
pub open spec fn is_lower_hex(c: char) -> bool {
    ('0' <= c && c <= '9') || ('a' <= c && c <= 'f')
}

/// What a machine-id validator makes of `text`, once its line ends are trimmed.
pub open spec fn machine_id_verdict(text: Seq<char>) -> Result<(), MachineIdInvalid> {
    if text.len() != 32 {
        Err(MachineIdInvalid::WrongLength { found: text.len() as usize })
    } else if exists|i: int| 0 <= i < 32 && !is_lower_hex(#[trigger] text[i]) {
        Err(MachineIdInvalid::NotLowercaseHex)
    } else {
        Ok(())
    }
}

/// A piece with nothing in it.
pub open spec fn is_empty_piece() -> spec_fn(Seq<char>) -> bool {
    |p: Seq<char>| p.len() == 0
}

/// The sections of a crypt record: what follows its leading `$`, split on `$`.
pub open spec fn crypt_sections(text: Seq<char>) -> Seq<Seq<char>> {
    split_on(text.drop_first(), '$')
}

/// What a crypt record validator makes of `text`, once its line ends are
/// trimmed: a single line, opening with `$`, holding at least three sections
/// of which none is empty.
pub open spec fn crypt_record_verdict(text: Seq<char>) -> Result<(), HashedPasswordInvalid> {
    if text.contains('\n') || text.contains('\r') {
        Err(HashedPasswordInvalid::SpansMoreThanOneLine)
    } else if text.len() == 0 || text[0] != '$' {
        Err(HashedPasswordInvalid::MissingPrefix)
    } else {
        match first_where(crypt_sections(text), is_empty_piece()) {
            Some(i) => Err(HashedPasswordInvalid::EmptySection { index: (i + 1) as usize }),
            None => if crypt_sections(text).len() < 3 {
                Err(
                    HashedPasswordInvalid::TooFewSections {
                        found: crypt_sections(text).len() as usize,
                    },
                )
            } else {
                Ok(())
            },
        }
    }
}

/// The machine-id validator, spelled out: text is accepted exactly when it
/// is 32 characters, all lowercase hexadecimal digits; text of another length
/// is refused for its length, counted in characters; text of the right length
/// holding another character is refused as not lowercase hexadecimal.
pub proof fn lemma_machine_id_verdict(text: Seq<char>)
    ensures
        machine_id_verdict(text) is Ok <==> text.len() == 32 && forall|i: int|
            0 <= i < 32 ==> is_lower_hex(#[trigger] text[i]),
        text.len() != 32 ==> machine_id_verdict(text) == Err::<(), MachineIdInvalid>(
            MachineIdInvalid::WrongLength { found: text.len() as usize },
        ),
        text.len() == 32 && (exists|i: int| 0 <= i < 32 && !is_lower_hex(#[trigger] text[i]))
            ==> machine_id_verdict(text) == Err::<(), MachineIdInvalid>(
            MachineIdInvalid::NotLowercaseHex,
        ),
{
}

/// The crypt record validator, spelled out: text is accepted exactly when it
/// is one line, opens with `$`, and what follows splits on `$` into at least
/// three sections, none empty. The faults are reported in this order of
/// precedence: more than one line, no leading `$`, an empty section (named by
/// its position, counting from one, the first such), too few sections.
pub proof fn lemma_crypt_record_verdict(text: Seq<char>)
    ensures
        ({
            let sections = crypt_sections(text);
            let one_line = !text.contains('\n') && !text.contains('\r');
            let prefixed = text.len() > 0 && text[0] == '$';
            let none_empty = forall|i: int| 0 <= i < sections.len() ==> #[trigger] sections[i].len() > 0;
            &&& crypt_record_verdict(text) is Ok <==> one_line && prefixed && sections.len() >= 3
                && none_empty
            &&& !one_line ==> crypt_record_verdict(text) == Err::<(), HashedPasswordInvalid>(
                HashedPasswordInvalid::SpansMoreThanOneLine,
            )
            &&& one_line && !prefixed ==> crypt_record_verdict(text) == Err::<
                (),
                HashedPasswordInvalid,
            >(HashedPasswordInvalid::MissingPrefix)
            &&& forall|k: int|
                one_line && prefixed && 0 <= k < sections.len() && #[trigger] sections[k].len() == 0
                    && (forall|j: int| 0 <= j < k ==> sections[j].len() > 0)
                    ==> crypt_record_verdict(text) == Err::<(), HashedPasswordInvalid>(
                    HashedPasswordInvalid::EmptySection { index: (k + 1) as usize },
                )
            &&& one_line && prefixed && none_empty && sections.len() < 3 ==> crypt_record_verdict(
                text,
            ) == Err::<(), HashedPasswordInvalid>(
                HashedPasswordInvalid::TooFewSections { found: sections.len() as usize },
            )
        }),
{
    let sections = crypt_sections(text);
    lemma_first_where(sections, is_empty_piece(), 0);
    assert forall|k: int|
        0 <= k < sections.len() && #[trigger] sections[k].len() == 0 && (forall|j: int|
            0 <= j < k ==> sections[j].len() > 0) implies first_where(sections, is_empty_piece())
        == Some(k) by {
        assert(is_first_where(sections, is_empty_piece(), k));
        lemma_first_where(sections, is_empty_piece(), k);
    }
    if first_where(sections, is_empty_piece()) is None {
        if !(forall|i: int| 0 <= i < sections.len() ==> #[trigger] sections[i].len() > 0) {
            let i = choose|i: int| 0 <= i < sections.len() && !(#[trigger] sections[i].len() > 0);
            assert(exists|i: int| is_first_where(sections, is_empty_piece(), i)) by {
                lemma_some_first(sections, i);
            }
        }
    } else {
        let k = first_where(sections, is_empty_piece())->0;
        assert(is_first_where(sections, is_empty_piece(), k));
    }
}

/// Where some piece is empty, a first empty one exists.
proof fn lemma_some_first(pieces: Seq<Seq<char>>, i: int)
    requires
        0 <= i < pieces.len(),
        pieces[i].len() == 0,
    ensures
        exists|k: int| is_first_where(pieces, is_empty_piece(), k),
    decreases i,
{
    if exists|j: int| 0 <= j < i && (#[trigger] pieces[j]).len() == 0 {
        let j = choose|j: int| 0 <= j < i && (#[trigger] pieces[j]).len() == 0;
        lemma_some_first(pieces, j);
    } else {
        assert(is_first_where(pieces, is_empty_piece(), i));
    }
}

/// A lowercase hexadecimal digit for `n`, which is below 16.
pub open spec fn hex_digit(n: nat) -> char {
    if n == 0 {
        '0'
    } else if n == 1 {
        '1'
    } else if n == 2 {
        '2'
    } else if n == 3 {
        '3'
    } else if n == 4 {
        '4'
    } else if n == 5 {
        '5'
    } else if n == 6 {
        '6'
    } else if n == 7 {
        '7'
    } else if n == 8 {
        '8'
    } else if n == 9 {
        '9'
    } else if n == 10 {
        'a'
    } else if n == 11 {
        'b'
    } else if n == 12 {
        'c'
    } else if n == 13 {
        'd'
    } else if n == 14 {
        'e'
    } else {
        'f'
    }
}

/// The lowercase hexadecimal spelling of every byte, two characters each.
pub open spec fn hex_chars(bytes: Seq<u8>) -> Seq<char>
    decreases bytes.len(),
{
    if bytes.len() == 0 {
        Seq::empty()
    } else {
        hex_chars(bytes.drop_last()) + seq![
            hex_digit((bytes.last() / 16) as nat),
            hex_digit((bytes.last() % 16) as nat),
        ]
    }
}

/// A machine-id made out of `entropy`: its bytes in lowercase hexadecimal and a
/// line feed, as systemd writes one.
pub open spec fn machine_id_text(entropy: Seq<u8>) -> Seq<char> {
    hex_chars(entropy) + seq!['\n']
}

impl FieldKind {
    /// The spelling a schema uses for this type.
    pub open spec fn spec_name(self) -> Seq<char> {
        match self {
            FieldKind::MachineId => "machine-id"@,
            FieldKind::HashedPassword => "hashed-password"@,
        }
    }

    /// What this type's validator makes of a stored `value`: it must be UTF-8,
    /// and what is left once its line ends are trimmed must satisfy the type.
    pub open spec fn validity(self, value: Seq<u8>) -> Result<(), Invalid> {
        if !valid_utf8(value) {
            Err(Invalid::NotUtf8)
        } else {
            let text = trim_line_ends(decode_utf8(value));
            match self {
                FieldKind::MachineId => match machine_id_verdict(text) {
                    Ok(()) => Ok(()),
                    Err(e) => Err(Invalid::MachineId(e)),
                },
                FieldKind::HashedPassword => match crypt_record_verdict(text) {
                    Ok(()) => Ok(()),
                    Err(e) => Err(Invalid::HashedPassword(e)),
                },
            }
        }
    }

    /// The mode a value of this type is stored under.
    pub open spec fn spec_permissions(self) -> u32 {
        match self {
            FieldKind::MachineId => 0o644,
            FieldKind::HashedPassword => 0o600,
        }
    }

    /// How a value of this type is produced.
    pub open spec fn spec_recipe(self) -> Option<Recipe> {
        match self {
            FieldKind::MachineId => Some(
                Recipe::FromEntropy { bytes: 16, build: EntropyBuild::MachineId },
            ),
            FieldKind::HashedPassword => Some(Recipe::FromPassphrasePrompt),
        }
    }

    /// The spelling a schema uses, or `None` for a type orma does not know.
    pub fn parse(name: &str) -> (kind: Option<FieldKind>)
        ensures
            kind == kind_named(name@),
    {
        if str_eq(name, "machine-id") {
            Some(FieldKind::MachineId)
        } else if str_eq(name, "hashed-password") {
            Some(FieldKind::HashedPassword)
        } else {
            None
        }
    }

    /// The spelling a schema uses for this type.
    pub fn name(&self) -> (name: &'static str)
        ensures
            name@ == self.spec_name(),
    {
        match self {
            FieldKind::MachineId => "machine-id",
            FieldKind::HashedPassword => "hashed-password",
        }
    }

    /// Checks a stored value against this type.
    pub fn validate(&self, value: &[u8]) -> (verdict: Result<(), Invalid>)
        ensures
            verdict == self.validity(value@),
    {
        match decode_chars(value) {
            None => Err(Invalid::NotUtf8),
            Some(chars) => {
                let len = trimmed_len(&chars);
                let mut text = chars;
                text.truncate(len);
                match self {
                    FieldKind::MachineId => match validate_machine_id(&text) {
                        Ok(()) => Ok(()),
                        Err(e) => Err(Invalid::MachineId(e)),
                    },
                    FieldKind::HashedPassword => match validate_crypt_record(&text) {
                        Ok(()) => Ok(()),
                        Err(e) => Err(Invalid::HashedPassword(e)),
                    },
                }
            },
        }
    }

    /// The mode a value of this type is stored under.
    pub fn permissions(&self) -> (mode: u32)
        ensures
            mode == self.spec_permissions(),
    {
        match self {
            FieldKind::MachineId => 0o644,
            FieldKind::HashedPassword => 0o600,
        }
    }

    /// How a value of this type is produced, or `None` if orma cannot produce
    /// one.
    pub fn recipe(&self) -> (recipe: Option<Recipe>)
        ensures
            recipe == self.spec_recipe(),
    {
        match self {
            FieldKind::MachineId => Some(
                Recipe::FromEntropy { bytes: 16, build: EntropyBuild::MachineId },
            ),
            FieldKind::HashedPassword => Some(Recipe::FromPassphrasePrompt),
        }
    }
}

/// How a value is built out of drawn randomness.
#[derive(Debug, Clone, Copy, PartialEq, Eq)]
pub enum EntropyBuild {
    /// Lowercase hexadecimal, one pair of digits per byte, and a line feed.
    MachineId,
}

impl EntropyBuild {
    /// The value built out of `entropy`.
    pub open spec fn spec_apply(self, entropy: Seq<u8>) -> Seq<u8> {
        match self {
            EntropyBuild::MachineId => encode_utf8(machine_id_text(entropy)),
        }
    }

    /// Builds the value out of `entropy`.
    pub fn apply(&self, entropy: &[u8]) -> (value: Vec<u8>)
        ensures
            value@ == self.spec_apply(entropy@),
    {
        match self {
            EntropyBuild::MachineId => build_machine_id(entropy),
        }
    }
}

/// The recipe for the world to create a value.
#[derive(Debug, Clone, Copy, PartialEq, Eq)]
pub enum Recipe {
    /// Draw `bytes` bytes of randomness and build the value out of them.
    FromEntropy { bytes: usize, build: EntropyBuild },
    /// Ask the operator for a passphrase and store its crypt record.
    FromPassphrasePrompt,
}

/// The value did not satisfy the field type validator.
#[derive(Debug, Clone, Copy, PartialEq, Eq)]
pub enum Invalid {
    NotUtf8,
    MachineId(MachineIdInvalid),
    HashedPassword(HashedPasswordInvalid),
}

#[derive(Debug, Clone, Copy, PartialEq, Eq)]
pub enum MachineIdInvalid {
    WrongLength { found: usize },
    NotLowercaseHex,
}

#[derive(Debug, Clone, Copy, PartialEq, Eq)]
pub enum HashedPasswordInvalid {
    MissingPrefix,
    TooFewSections { found: usize },
    EmptySection { index: usize },
    SpansMoreThanOneLine,
}

impl From<MachineIdInvalid> for Invalid {
    fn from(e: MachineIdInvalid) -> (r: Invalid) {
        Invalid::MachineId(e)
    }
}

impl FromSpecImpl<MachineIdInvalid> for Invalid {
    open spec fn obeys_from_spec() -> bool {
        true
    }

    open spec fn from_spec(e: MachineIdInvalid) -> Invalid {
        Invalid::MachineId(e)
    }
}

impl From<HashedPasswordInvalid> for Invalid {
    fn from(e: HashedPasswordInvalid) -> (r: Invalid) {
        Invalid::HashedPassword(e)
    }
}

impl FromSpecImpl<HashedPasswordInvalid> for Invalid {
    open spec fn obeys_from_spec() -> bool {
        true
    }

    open spec fn from_spec(e: HashedPasswordInvalid) -> Invalid {
        Invalid::HashedPassword(e)
    }
}

impl MachineIdInvalid {
    /// How the fault reads to the operator.
    pub open spec fn spec_message(self) -> Seq<char> {
        match self {
            MachineIdInvalid::WrongLength { found } => "expected 32 characters, found "@ + decimal(
                found as nat,
            ),
            MachineIdInvalid::NotLowercaseHex => "expected lowercase hexadecimal characters"@,
        }
    }

    /// How the fault reads to the operator.
    pub fn message(&self) -> (text: String)
        ensures
            text@ == self.spec_message(),
    {
        match self {
            MachineIdInvalid::WrongLength { found } => {
                let mut text = String::from_str("expected 32 characters, found ");
                push_decimal(&mut text, *found as u64);
                text
            },
            MachineIdInvalid::NotLowercaseHex => String::from_str(
                "expected lowercase hexadecimal characters",
            ),
        }
    }
}

impl HashedPasswordInvalid {
    /// How the fault reads to the operator.
    pub open spec fn spec_message(self) -> Seq<char> {
        match self {
            HashedPasswordInvalid::MissingPrefix => "not a crypt record: missing leading '$'"@,
            HashedPasswordInvalid::TooFewSections {
                found,
            } => "not a crypt record: expected at least 3 sections, found "@ + decimal(
                found as nat,
            ),
            HashedPasswordInvalid::EmptySection { index } => "not a crypt record: section "@
                + decimal(index as nat) + " is empty"@,
            HashedPasswordInvalid::SpansMoreThanOneLine => "value spans more than one line"@,
        }
    }

    /// How the fault reads to the operator.
    pub fn message(&self) -> (text: String)
        ensures
            text@ == self.spec_message(),
    {
        match self {
            HashedPasswordInvalid::MissingPrefix => String::from_str(
                "not a crypt record: missing leading '$'",
            ),
            HashedPasswordInvalid::TooFewSections { found } => {
                let mut text = String::from_str(
                    "not a crypt record: expected at least 3 sections, found ",
                );
                push_decimal(&mut text, *found as u64);
                text
            },
            HashedPasswordInvalid::EmptySection { index } => {
                let mut text = String::from_str("not a crypt record: section ");
                push_decimal(&mut text, *index as u64);
                text.append(" is empty");
                text
            },
            HashedPasswordInvalid::SpansMoreThanOneLine => String::from_str(
                "value spans more than one line",
            ),
        }
    }
}

impl Invalid {
    /// How the fault reads to the operator.
    pub open spec fn spec_message(self) -> Seq<char> {
        match self {
            Invalid::NotUtf8 => "value is not valid UTF-8"@,
            Invalid::MachineId(e) => e.spec_message(),
            Invalid::HashedPassword(e) => e.spec_message(),
        }
    }

    /// How the fault reads to the operator.
    pub fn message(&self) -> (text: String)
        ensures
            text@ == self.spec_message(),
    {
        match self {
            Invalid::NotUtf8 => String::from_str("value is not valid UTF-8"),
            Invalid::MachineId(e) => e.message(),
            Invalid::HashedPassword(e) => e.message(),
        }
    }
}

fn validate_machine_id(text: &Vec<char>) -> (verdict: Result<(), MachineIdInvalid>)
    ensures
        verdict == machine_id_verdict(text@),
{
    let found = text.len();
    if found != 32 {
        return Err(MachineIdInvalid::WrongLength { found });
    }
    let mut i: usize = 0;
    while i < 32
        invariant
            text@.len() == 32,
            i <= 32,
            forall|j: int| 0 <= j < i ==> is_lower_hex(#[trigger] text@[j]),
        decreases 32 - i,
    {
        let c = text[i];
        if !(('0' <= c && c <= '9') || ('a' <= c && c <= 'f')) {
            assert(!is_lower_hex(text@[i as int]));
            return Err(MachineIdInvalid::NotLowercaseHex);
        }
        i = i + 1;
    }
    Ok(())
}

/// A crypt record is `$id$params$salt$hash`, with the section count varying
/// by scheme: yescrypt carries four, classic SHA-512 three, and `rounds=`
/// rides inside a section rather than adding one. So the shape is checked
/// and not the arity.
///
/// This is well-formedness, not authenticity; orma cannot tell a record that
/// opens a session from one that opens nothing. It catches what matters at
/// boot, where a truncated or half-written value locks the operator out of a
/// system that reports itself healthy.
fn validate_crypt_record(text: &Vec<char>) -> (verdict: Result<(), HashedPasswordInvalid>)
    ensures
        verdict == crypt_record_verdict(text@),
{
    // A record carrying a newline of its own would inject a line into
    // whatever line-oriented file it is copied into.
    let mut i: usize = 0;
    while i < text.len()
        invariant
            i <= text@.len(),
            forall|j: int| 0 <= j < i ==> text@[j] != '\n' && text@[j] != '\r',
        decreases text@.len() - i,
    {
        if text[i] == '\n' || text[i] == '\r' {
            assert(text@.contains(text@[i as int]));
            return Err(HashedPasswordInvalid::SpansMoreThanOneLine);
        }
        i = i + 1;
    }
    assert(!text@.contains('\n') && !text@.contains('\r'));
    if text.len() == 0 || text[0] != '$' {
        return Err(HashedPasswordInvalid::MissingPrefix);
    }
    let rest = tail(text);
    let sections = split_chars(rest.as_slice(), '$');
    let ghost pieces = sections@.map_values(|p: Vec<char>| p@);
    assert(pieces == crypt_sections(text@));
    let mut found: usize = 0;
    while found < sections.len()
        invariant
            pieces == sections@.map_values(|p: Vec<char>| p@),
            pieces == crypt_sections(text@),
            !text@.contains('\n') && !text@.contains('\r'),
            text@.len() > 0 && text@[0] == '$',
            found <= sections@.len(),
            forall|j: int| 0 <= j < found ==> !is_empty_piece()(#[trigger] pieces[j]),
        decreases sections@.len() - found,
    {
        if sections[found].len() == 0 {
            proof {
                assert(is_first_where(pieces, is_empty_piece(), found as int));
                lemma_first_where(pieces, is_empty_piece(), found as int);
            }
            return Err(HashedPasswordInvalid::EmptySection { index: found + 1 });
        }
        found = found + 1;
    }
    proof {
        lemma_first_where(pieces, is_empty_piece(), 0);
    }
    if found < 3 {
        return Err(HashedPasswordInvalid::TooFewSections { found });
    }
    Ok(())
}

/// The machine-id for `entropy`: each byte as two lowercase hexadecimal digits,
/// then a line feed.
fn build_machine_id(entropy: &[u8]) -> (value: Vec<u8>)
    ensures
        value@ == encode_utf8(machine_id_text(entropy@)),
{
    let mut chars: Vec<char> = Vec::new();
    let mut i: usize = 0;
    while i < entropy.len()
        invariant
            i <= entropy@.len(),
            chars@ == hex_chars(entropy@.take(i as int)),
        decreases entropy@.len() - i,
    {
        let byte = entropy[i];
        chars.push(hex_digit_exec(byte / 16));
        chars.push(hex_digit_exec(byte % 16));
        assert(entropy@.take(i + 1).drop_last() =~= entropy@.take(i as int));
        i = i + 1;
        assert(chars@ =~= hex_chars(entropy@.take(i as int)));
    }
    assert(entropy@.take(i as int) =~= entropy@);
    chars.push('\n');
    proof {
        lemma_hex_chars_ascii(entropy@);
        assert(chars@ =~= machine_id_text(entropy@));
        assert forall|j| 0 <= j < chars@.len() implies '\0' <= #[trigger] chars@[j] <= '\u{7f}' by {
            if j < chars@.len() - 1 {
                assert(chars@[j] == hex_chars(entropy@)[j]);
            }
        }
    }
    ascii_bytes(&chars)
}

/// The lowercase hexadecimal digit for `n`.
fn hex_digit_exec(n: u8) -> (digit: char)
    requires
        n < 16,
    ensures
        digit == hex_digit(n as nat),
        '\0' <= digit <= '\u{7f}',
{
    if n < 10 {
        match n {
            0 => '0',
            1 => '1',
            2 => '2',
            3 => '3',
            4 => '4',
            5 => '5',
            6 => '6',
            7 => '7',
            8 => '8',
            _ => '9',
        }
    } else {
        match n {
            10 => 'a',
            11 => 'b',
            12 => 'c',
            13 => 'd',
            14 => 'e',
            _ => 'f',
        }
    }
}

/// The hexadecimal spelling of any bytes is ASCII.
proof fn lemma_hex_chars_ascii(bytes: Seq<u8>)
    ensures
        is_ascii_chars(hex_chars(bytes)),
    decreases bytes.len(),
{
    if bytes.len() > 0 {
        lemma_hex_chars_ascii(bytes.drop_last());
        let h = hex_chars(bytes.drop_last());
        let t = seq![hex_digit((bytes.last() / 16) as nat), hex_digit((bytes.last() % 16) as nat)];
        assert forall|i| 0 <= i < (h + t).len() implies '\0' <= #[trigger] (h + t)[i] <= '\u{7f}' by {
            if i < h.len() {
                assert((h + t)[i] == h[i]);
            }
        }
    }
}

/// The UTF-8 encoding of the ASCII characters `chars`, byte per character.
fn ascii_bytes(chars: &Vec<char>) -> (bytes: Vec<u8>)
    requires
        is_ascii_chars(chars@),
    ensures
        bytes@ == encode_utf8(chars@),
{
    proof {
        is_ascii_chars_encode_utf8(chars@);
    }
    let mut bytes: Vec<u8> = Vec::new();
    let mut i: usize = 0;
    while i < chars.len()
        invariant
            i <= chars@.len(),
            is_ascii_chars(chars@),
            chars@.len() == encode_utf8(chars@).len(),
            forall|j: int| 0 <= j < chars@.len() ==> chars@[j] as u8 == encode_utf8(chars@)[j],
            bytes@ == encode_utf8(chars@).take(i as int),
        decreases chars@.len() - i,
    {
        let c = chars[i];
        bytes.push(c as u8);
        i = i + 1;
        assert(bytes@ =~= encode_utf8(chars@).take(i as int));
    }
    assert(encode_utf8(chars@).take(i as int) =~= encode_utf8(chars@));
    bytes
}

/// A type is known by the name a schema uses for it: parsing a type's name
/// gives back that type.
pub proof fn lemma_kind_named_by_its_name(kind: FieldKind)
    ensures
        kind_named(kind.spec_name()) == Some(kind),
{
    reveal_strlit("machine-id");
    reveal_strlit("hashed-password");
    assert("machine-id"@[0] != "hashed-password"@[0]);
}

/// The hexadecimal spelling of `bytes` has two lowercase hex digits per byte.
proof fn lemma_hex_chars_shape(bytes: Seq<u8>)
    ensures
        hex_chars(bytes).len() == 2 * bytes.len(),
        forall|i: int| 0 <= i < hex_chars(bytes).len() ==> is_lower_hex(#[trigger] hex_chars(bytes)[i]),
    decreases bytes.len(),
{
    if bytes.len() > 0 {
        lemma_hex_chars_shape(bytes.drop_last());
        let h = hex_chars(bytes.drop_last());
        let t = seq![hex_digit((bytes.last() / 16) as nat), hex_digit((bytes.last() % 16) as nat)];
        assert forall|i: int| 0 <= i < (h + t).len() implies is_lower_hex(#[trigger] (h + t)[i]) by {
            if i < h.len() {
                assert((h + t)[i] == h[i]);
            }
        }
    }
}

/// A value built out of randomness is judged by its own type on its length
/// alone: a machine-id made out of as many bytes as its recipe draws is valid,
/// and one made out of any other count is refused for its length (two
/// characters per byte drawn).
pub proof fn lemma_machine_id_built_from_entropy(entropy: Seq<u8>)
    requires
        2 * entropy.len() <= usize::MAX,
    ensures
        FieldKind::MachineId.validity(EntropyBuild::MachineId.spec_apply(entropy)) == if entropy.len()
            == 16 {
            Ok::<(), Invalid>(())
        } else {
            Err(
                Invalid::MachineId(
                    MachineIdInvalid::WrongLength { found: (2 * entropy.len()) as usize },
                ),
            )
        },
{
    let text = machine_id_text(entropy);
    encode_utf8_valid_utf8(text);
    encode_utf8_decode_utf8(text);
    lemma_hex_chars_shape(entropy);
    let h = hex_chars(entropy);
    assert(text.drop_last() =~= h);
    if h.len() > 0 {
        assert(is_lower_hex(h.last()));
    }
    assert(trim_line_ends(text) == trim_line_ends(h));
    assert(trim_line_ends(h) == h);
    if h.len() == 32 {
        assert(!exists|i: int| 0 <= i < 32 && !is_lower_hex(#[trigger] h[i]));
    }
}

/// What a type's recipe builds out of the randomness it asks for is a value
/// the type accepts.
pub proof fn lemma_recipe_builds_accepted_values(kind: FieldKind, entropy: Seq<u8>)
    requires
        kind.spec_recipe() matches Some(Recipe::FromEntropy { bytes, build }) && entropy.len()
            == bytes,
    ensures
        ({
            let build = kind.spec_recipe()->Some_0->build;
            kind.validity(build.spec_apply(entropy)) == Ok::<(), Invalid>(())
        }),
{
    lemma_machine_id_built_from_entropy(entropy);
}

} // verus!
