use orma::engine::field_type::FieldKind;
use orma::field_types::hashed_password::HashedPassword;
use orma::field_types::machine_id::MachineId;
use orma::field_types::{parse, FieldType};
use orma::schema;

fn field(kind: &str) -> schema::Field {
    schema::Field {
        path: "/x".into(),
        declared_type: kind.into(),
        optional: false,
    }
}

#[test]
fn parse_known_type() {
    let f = field("hashed-password");
    assert!(matches!(parse(&f), Ok(FieldType::HashedPassword(_))));
}

#[test]
fn parse_unknown_type() {
    let f = field("ssh-host-key");
    let err = parse(&f).unwrap_err();
    assert!(err.contains("ssh-host-key"));
}

#[test]
fn yescrypt_is_valid() {
    let v = b"$y$j9T$saltSaltSalt$hashHashHashHashHash";
    assert!(HashedPassword.validate(v).is_ok());
}

#[test]
fn sha512_with_rounds_is_valid() {
    let v = b"$6$rounds=5000$saltsalt$hashhash";
    assert!(HashedPassword.validate(v).is_ok());
}

#[test]
fn hashed_password_trailing_newline_is_ok() {
    let v = b"$6$salt$hash\n";
    assert!(HashedPassword.validate(v).is_ok());
}

#[test]
fn missing_leading_dollar_fails() {
    assert!(HashedPassword.validate(b"notacrypthash").is_err());
}

#[test]
fn empty_section_fails() {
    assert!(HashedPassword.validate(b"$y$$j9T$hash").is_err());
}

#[test]
fn too_few_sections_fails() {
    assert!(HashedPassword.validate(b"$y").is_err());
}

#[test]
fn non_utf8_fails() {
    assert!(HashedPassword.validate(&[0xff, 0xfe]).is_err());
}

#[test]
fn canonical_is_valid() {
    let v = b"d2c8e7e9a4b34d62b8f8a0c5e9d7f3b1";
    assert!(MachineId.validate(v).is_ok());
}

#[test]
fn machine_id_trailing_newline_is_ok() {
    let v = b"d2c8e7e9a4b34d62b8f8a0c5e9d7f3b1\n";
    assert!(MachineId.validate(v).is_ok());
}

#[test]
fn uppercase_fails() {
    assert!(MachineId
        .validate(b"D2C8E7E9A4B34D62B8F8A0C5E9D7F3B1")
        .is_err());
}

#[test]
fn wrong_length_fails() {
    assert!(MachineId.validate(b"abcd").is_err());
    assert!(MachineId
        .validate(b"d2c8e7e9a4b34d62b8f8a0c5e9d7f3b100")
        .is_err());
}

#[test]
fn non_hex_fails() {
    assert!(MachineId
        .validate(b"zzzzzzzzzzzzzzzzzzzzzzzzzzzzzzzz")
        .is_err());
}

// Exact messages, and what tells the checks apart.

#[test]
fn each_refusal_says_why() {
    assert_eq!(
        HashedPassword.validate(&[0xff]),
        Err("value is not valid UTF-8")
    );
    assert_eq!(
        HashedPassword.validate(b"notacrypthash"),
        Err("not a crypt record: missing leading '$'")
    );
    assert_eq!(
        HashedPassword.validate(b"$6$salt"),
        Err("not a crypt record: too few sections")
    );
    assert_eq!(
        HashedPassword.validate(b"$y$$j9T$hash"),
        Err("not a crypt record: contains an empty section")
    );
    assert_eq!(
        MachineId.validate(b"abcd"),
        Err("machine-id must be exactly 32 hex characters")
    );
    assert_eq!(
        MachineId.validate(b"D2C8E7E9A4B34D62B8F8A0C5E9D7F3B1"),
        Err("machine-id must contain only lowercase hex characters")
    );
    assert_eq!(MachineId.validate(&[0xc3]), Err("value is not valid UTF-8"));
}

#[test]
fn too_few_sections_are_reported_before_an_empty_one() {
    assert_eq!(
        HashedPassword.validate(b"$$"),
        Err("not a crypt record: too few sections")
    );
    assert_eq!(
        HashedPassword.validate(b"$6$salt$"),
        Err("not a crypt record: contains an empty section")
    );
}

#[test]
fn a_machine_id_length_counts_bytes() {
    // 31 digits and a two-byte character: 33 bytes.
    assert_eq!(
        MachineId.validate("d2c8e7e9a4b34d62b8f8a0c5e9d7f3bé".as_bytes()),
        Err("machine-id must be exactly 32 hex characters")
    );
}

#[test]
fn a_field_type_checks_as_its_type_does() {
    let t = parse(&field("hashed-password")).unwrap();
    assert_eq!(t.validate(b"$6$salt$hash"), Ok(()));
    assert_eq!(
        t.validate(b"hunter2"),
        Err("not a crypt record: missing leading '$'")
    );
    assert_eq!(t.required_tools(), &["mkpasswd"]);
    assert_eq!(HashedPassword.required_tools(), &["mkpasswd"]);
    assert!(MachineId.required_tools().is_empty());
    assert_eq!(
        parse(&field("ssh-host-key")).unwrap_err(),
        "unknown field type 'ssh-host-key'"
    );
}

#[test]
fn a_machine_id_field_is_known() {
    let f = schema::Field {
        path: "/machine-id".into(),
        declared_type: "machine-id".into(),
        optional: false,
    };
    let t = parse(&f).unwrap();
    assert!(matches!(t, FieldType::MachineId(_)));
    assert!(t.required_tools().is_empty());
    assert_eq!(t.validate(b"d2c8e7e9a4b34d62b8f8a0c5e9d7f3b1\n"), Ok(()));
    assert_eq!(
        t.validate(b"D2C8E7E9A4B34D62B8F8A0C5E9D7F3B1"),
        Err("machine-id must contain only lowercase hex characters")
    );
    assert_eq!(
        t.validate(b"abcd"),
        Err("machine-id must be exactly 32 hex characters")
    );
}

#[test]
fn what_generate_accepts_resolve_accepts() {
    let machine_id = b"d2c8e7e9a4b34d62b8f8a0c5e9d7f3b1\n";
    assert!(FieldKind::MachineId.validate(machine_id).is_ok());
    assert!(parse(&field("machine-id")).unwrap().validate(machine_id).is_ok());
    let record = b"$y$j9T$saltSaltSalt$hashHashHashHashHash\n";
    assert!(FieldKind::HashedPassword.validate(record).is_ok());
    assert!(parse(&field("hashed-password")).unwrap().validate(record).is_ok());
}
