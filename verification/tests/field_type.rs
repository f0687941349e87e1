use orma::engine::field_type::{
    FieldKind, HashedPasswordInvalid, Invalid, MachineIdInvalid, Recipe,
};

fn machine_id(value: &[u8]) -> Result<(), Invalid> {
    FieldKind::MachineId.validate(value)
}

fn hashed_password(value: &[u8]) -> Result<(), Invalid> {
    FieldKind::HashedPassword.validate(value)
}

#[test]
fn a_type_is_known_by_the_name_a_schema_uses() {
    for kind in [FieldKind::MachineId, FieldKind::HashedPassword] {
        assert_eq!(FieldKind::parse(kind.name()), Some(kind));
    }
    assert_eq!(FieldKind::parse("ssh-host-key"), None);
}

#[test]
fn a_machine_id_is_made_out_of_sixteen_bytes_of_randomness() {
    let entropy = [
        0xd2, 0xc8, 0xe7, 0xe9, 0xa4, 0xb3, 0x4d, 0x62, //
        0xb8, 0xf8, 0xa0, 0xc5, 0xe9, 0xd7, 0xf3, 0xb1,
    ];
    let Some(Recipe::FromEntropy { bytes, build }) = FieldKind::MachineId.recipe() else {
        panic!("a machine-id is made out of randomness");
    };
    assert_eq!(bytes, entropy.len());

    let value = build.apply(&entropy);
    assert_eq!(value, b"d2c8e7e9a4b34d62b8f8a0c5e9d7f3b1\n");
    assert!(FieldKind::MachineId.validate(&value).is_ok());
}

#[test]
fn a_hashed_password_is_made_from_a_passphrase() {
    assert!(matches!(
        FieldKind::HashedPassword.recipe(),
        Some(Recipe::FromPassphrasePrompt)
    ));
}

#[test]
fn a_machine_id_is_32_lowercase_hex_characters() {
    assert!(machine_id(b"d2c8e7e9a4b34d62b8f8a0c5e9d7f3b1").is_ok());
}

/// systemd writes the file with a trailing newline.
#[test]
fn a_trailing_newline_is_allowed() {
    assert!(machine_id(b"d2c8e7e9a4b34d62b8f8a0c5e9d7f3b1\n").is_ok());
    assert!(hashed_password(b"$6$salt$hash\n").is_ok());
}

#[test]
fn a_machine_id_of_the_wrong_length_is_refused() {
    assert_eq!(
        machine_id(b"abcd"),
        Err(MachineIdInvalid::WrongLength { found: 4 }.into())
    );
}

#[test]
fn a_machine_id_outside_lowercase_hexadecimal_is_refused() {
    assert_eq!(
        machine_id(b"D2C8E7E9A4B34D62B8F8A0C5E9D7F3B1"),
        Err(MachineIdInvalid::NotLowercaseHex.into())
    );
    assert_eq!(
        machine_id(b"zzzzzzzzzzzzzzzzzzzzzzzzzzzzzzzz"),
        Err(MachineIdInvalid::NotLowercaseHex.into())
    );
}

#[test]
fn a_crypt_record_is_accepted_whatever_its_scheme() {
    assert!(hashed_password(b"$y$j9T$saltSaltSalt$hashHashHash").is_ok());
    assert!(hashed_password(b"$6$rounds=5000$saltsalt$hashhash").is_ok());
    assert!(hashed_password(b"$6$salt$hash").is_ok());
}

#[test]
fn something_that_is_not_a_crypt_record_is_refused() {
    assert_eq!(
        hashed_password(b"hunter2"),
        Err(HashedPasswordInvalid::MissingPrefix.into())
    );
    assert_eq!(
        hashed_password(b"$6$salt"),
        Err(HashedPasswordInvalid::TooFewSections { found: 2 }.into())
    );
    assert_eq!(
        hashed_password(b"$y$$j9T$hash"),
        Err(HashedPasswordInvalid::EmptySection { index: 2 }.into())
    );
}

#[test]
fn a_crypt_record_spanning_lines_is_refused() {
    assert_eq!(
        hashed_password(b"$6$salt$hash\nroot::0:0:::"),
        Err(HashedPasswordInvalid::SpansMoreThanOneLine.into())
    );
}

#[test]
fn a_value_that_is_not_text_is_refused() {
    assert_eq!(machine_id(&[0xff, 0xfe]), Err(Invalid::NotUtf8));
    assert_eq!(hashed_password(&[0xff, 0xfe]), Err(Invalid::NotUtf8));
}

// Edge cases and exact values of the validators and their messages.

#[test]
fn a_machine_id_length_counts_characters_not_bytes() {
    // 31 ASCII digits and one two-byte character: 32 characters, 33 bytes.
    let value = "d2c8e7e9a4b34d62b8f8a0c5e9d7f3bé";
    assert_eq!(
        machine_id(value.as_bytes()),
        Err(MachineIdInvalid::NotLowercaseHex.into())
    );
    assert_eq!(
        machine_id("ééé".as_bytes()),
        Err(MachineIdInvalid::WrongLength { found: 3 }.into())
    );
}

#[test]
fn every_trailing_line_end_is_trimmed() {
    assert!(machine_id(b"d2c8e7e9a4b34d62b8f8a0c5e9d7f3b1\r\n\n\r").is_ok());
    assert_eq!(
        machine_id(b"\n"),
        Err(MachineIdInvalid::WrongLength { found: 0 }.into())
    );
}

#[test]
fn an_empty_crypt_record_is_missing_its_prefix() {
    assert_eq!(
        hashed_password(b""),
        Err(HashedPasswordInvalid::MissingPrefix.into())
    );
}

#[test]
fn an_empty_section_is_reported_before_a_short_count() {
    assert_eq!(
        hashed_password(b"$"),
        Err(HashedPasswordInvalid::EmptySection { index: 1 }.into())
    );
    assert_eq!(
        hashed_password(b"$6$salt$"),
        Err(HashedPasswordInvalid::EmptySection { index: 3 }.into())
    );
    assert_eq!(
        hashed_password(b"$6"),
        Err(HashedPasswordInvalid::TooFewSections { found: 1 }.into())
    );
}

#[test]
fn a_carriage_return_inside_a_record_spans_lines() {
    assert_eq!(
        hashed_password(b"$6$sa\rlt$hash"),
        Err(HashedPasswordInvalid::SpansMoreThanOneLine.into())
    );
}

#[test]
fn every_fault_reads_as_documented() {
    assert_eq!(Invalid::NotUtf8.message(), "value is not valid UTF-8");
    assert_eq!(
        Invalid::from(MachineIdInvalid::WrongLength { found: 8 }).message(),
        "expected 32 characters, found 8"
    );
    assert_eq!(
        MachineIdInvalid::WrongLength { found: 1234 }.message(),
        "expected 32 characters, found 1234"
    );
    assert_eq!(
        MachineIdInvalid::NotLowercaseHex.message(),
        "expected lowercase hexadecimal characters"
    );
    assert_eq!(
        HashedPasswordInvalid::MissingPrefix.message(),
        "not a crypt record: missing leading '$'"
    );
    assert_eq!(
        HashedPasswordInvalid::TooFewSections { found: 2 }.message(),
        "not a crypt record: expected at least 3 sections, found 2"
    );
    assert_eq!(
        Invalid::from(HashedPasswordInvalid::EmptySection { index: 10 }).message(),
        "not a crypt record: section 10 is empty"
    );
    assert_eq!(
        HashedPasswordInvalid::SpansMoreThanOneLine.message(),
        "value spans more than one line"
    );
}

#[test]
fn each_type_is_stored_under_its_own_mode() {
    assert_eq!(FieldKind::MachineId.permissions(), 0o644);
    assert_eq!(FieldKind::HashedPassword.permissions(), 0o600);
}

#[test]
fn a_machine_id_of_too_little_randomness_is_refused_for_its_length() {
    let Some(Recipe::FromEntropy { build, .. }) = FieldKind::MachineId.recipe() else {
        panic!("a machine-id is made out of randomness");
    };
    let value = build.apply(&[0x00, 0x0f, 0xff]);
    assert_eq!(value, b"000fff\n");
    assert_eq!(
        FieldKind::MachineId.validate(&value),
        Err(MachineIdInvalid::WrongLength { found: 6 }.into())
    );
}

#[test]
fn the_first_empty_crypt_section_is_named_from_one() {
    assert_eq!(
        FieldKind::HashedPassword.validate(b"$6$salt$hash$"),
        Err(HashedPasswordInvalid::EmptySection { index: 4 }.into())
    );
    assert_eq!(
        FieldKind::HashedPassword.validate(b"$6$$hash$"),
        Err(HashedPasswordInvalid::EmptySection { index: 2 }.into())
    );
}
