use orma::engine::field_type::{Invalid, MachineIdInvalid};
use orma::engine::generate::{Generate, GenerateError, Held, Mode, Step};
use orma::engine::schema::declared;
use orma::engine::schema::{FieldPath, Schema};

enum FieldValueHeld {
    Value(&'static [u8]),
    Nothing,
}

fn field(path: &str, declared_type: &str) -> declared::Field {
    declared::Field {
        path: path.to_owned(),
        declared_type: declared_type.to_owned(),
        optional: false,
        description: None,
    }
}

fn optional_field(path: &str, declared_type: &str) -> declared::Field {
    declared::Field {
        optional: true,
        ..field(path, declared_type)
    }
}

fn schema(fields: Vec<declared::Field>) -> Schema {
    Schema::new(declared::Schema { version: 1, fields }).unwrap()
}

/// The path and bytes a run produced.
type Produced = Vec<(String, Vec<u8>)>;

/// Drive a generate to its end, answering each check from `held` and every
/// draw with `entropy`. Returns the outcome alongside what was written.
fn drive(
    schema: &Schema,
    mode: Mode,
    held: Vec<FieldValueHeld>,
    entropy: &[u8],
) -> (Result<(), GenerateError>, Produced) {
    let mut held = held.into_iter();
    let mut written = Vec::new();
    let mut generate = Generate::new(schema, mode);
    loop {
        match generate.step() {
            Step::CheckValue(check) => match held.next().unwrap() {
                FieldValueHeld::Value(value) => check.present(value),
                FieldValueHeld::Nothing => check.absent(),
            },
            Step::DrawEntropy(draw) => {
                assert_eq!(draw.wanted(), entropy.len());
                draw.filled(entropy);
            }
            Step::HashPassphrase(hash) => hash.hashed(CRYPT_RECORD),
            Step::WriteValue(write) => {
                written.push((write.path().as_str().to_owned(), write.value().to_vec()));
                write.written();
            }
            Step::Done(outcome) => return (outcome, written),
        }
    }
}

const CRYPT_RECORD: &[u8] = b"$y$j9T$saltSaltSalt$hashHashHash";

const MACHINE_ID: &[u8] = b"d2c8e7e9a4b34d62b8f8a0c5e9d7f3b1";

const ENTROPY: &[u8] = &[
    0xd2, 0xc8, 0xe7, 0xe9, 0xa4, 0xb3, 0x4d, 0x62, //
    0xb8, 0xf8, 0xa0, 0xc5, 0xe9, 0xd7, 0xf3, 0xb1,
];

#[test]
fn a_schema_declaring_nothing_produces_nothing() {
    let schema = schema(vec![]);
    let (outcome, written) = drive(&schema, Mode::Populate, vec![], ENTROPY);
    assert!(outcome.is_ok());
    assert!(written.is_empty());
}

#[test]
fn a_machine_id_is_made_out_of_the_randomness_drawn() {
    let schema = schema(vec![field("/machine-id", "machine-id")]);
    let (outcome, written) = drive(
        &schema,
        Mode::Populate,
        vec![FieldValueHeld::Nothing],
        ENTROPY,
    );

    assert!(outcome.is_ok());
    assert_eq!(
        written,
        vec![(
            "/machine-id".to_owned(),
            b"d2c8e7e9a4b34d62b8f8a0c5e9d7f3b1\n".to_vec()
        )]
    );
}

#[test]
fn a_volume_already_holding_a_value_is_refused() {
    let schema = schema(vec![
        field("/machine-id", "machine-id"),
        field("/other-id", "machine-id"),
    ]);
    let (outcome, written) = drive(
        &schema,
        Mode::Populate,
        vec![FieldValueHeld::Nothing, FieldValueHeld::Value(MACHINE_ID)],
        ENTROPY,
    );

    assert_eq!(
        outcome.unwrap_err().message(),
        "the volume already holds:\n/other-id"
    );
    assert!(written.is_empty());
}

#[test]
fn a_hashed_password_is_asked_for_and_accepted_as_produced() {
    let schema = schema(vec![field("/user.passwd", "hashed-password")]);
    let (outcome, written) = drive(
        &schema,
        Mode::Populate,
        vec![FieldValueHeld::Nothing],
        ENTROPY,
    );

    assert!(outcome.is_ok());
    assert_eq!(
        written,
        vec![("/user.passwd".to_owned(), CRYPT_RECORD.to_vec())]
    );
}

#[test]
fn a_hashing_that_produces_nonsense_is_refused() {
    let schema = schema(vec![field("/user.passwd", "hashed-password")]);
    let mut generate = Generate::new(&schema, Mode::Populate);
    let outcome = loop {
        match generate.step() {
            Step::CheckValue(check) => check.absent(),
            Step::HashPassphrase(hash) => hash.hashed(b"hunter2"),
            Step::WriteValue(write) => write.written(),
            Step::DrawEntropy(_) => panic!("unexpected step for this test"),
            Step::Done(outcome) => break outcome,
        }
    };
    assert!(outcome
        .unwrap_err()
        .message()
        .contains("produced a value its own type refuses"));
}

#[test]
fn an_optional_field_is_not_produced() {
    let schema = schema(vec![
        field("/machine-id", "machine-id"),
        optional_field("/sudo.passwd", "hashed-password"),
    ]);
    let (outcome, written) = drive(
        &schema,
        Mode::Populate,
        vec![FieldValueHeld::Nothing, FieldValueHeld::Nothing],
        ENTROPY,
    );

    assert!(outcome.is_ok());
    assert_eq!(written.len(), 1);
    assert_eq!(written[0].0, "/machine-id");
}

#[test]
fn an_optional_value_already_held_stops_the_run() {
    let schema = schema(vec![
        field("/machine-id", "machine-id"),
        optional_field("/sudo.passwd", "hashed-password"),
    ]);
    let (outcome, written) = drive(
        &schema,
        Mode::Populate,
        vec![FieldValueHeld::Nothing, FieldValueHeld::Value(CRYPT_RECORD)],
        ENTROPY,
    );
    assert_eq!(
        outcome.unwrap_err().message(),
        "the volume already holds:\n/sudo.passwd"
    );
    assert!(written.is_empty());
}

#[test]
fn a_held_value_its_type_refuses_is_named_with_its_fault() {
    let schema = schema(vec![field("/machine-id", "machine-id")]);
    let (outcome, written) = drive(
        &schema,
        Mode::Populate,
        vec![FieldValueHeld::Value(b"nonsense")],
        ENTROPY,
    );

    assert_eq!(
        outcome.unwrap_err().message(),
        "the volume already holds:\n\
         /machine-id: expected 32 characters, found 8"
    );
    assert!(written.is_empty());
}

#[test]
fn upgrading_produces_only_what_the_volume_lacks() {
    let schema = schema(vec![
        field("/machine-id", "machine-id"),
        field("/user.passwd", "hashed-password"),
    ]);
    let (outcome, written) = drive(
        &schema,
        Mode::Upgrade,
        vec![FieldValueHeld::Value(MACHINE_ID), FieldValueHeld::Nothing],
        ENTROPY,
    );

    assert!(outcome.is_ok());
    assert_eq!(
        written,
        vec![("/user.passwd".to_owned(), CRYPT_RECORD.to_vec())]
    );
}

#[test]
fn upgrading_a_volume_that_lacks_nothing_produces_nothing() {
    let schema = schema(vec![field("/machine-id", "machine-id")]);
    let (outcome, written) = drive(
        &schema,
        Mode::Upgrade,
        vec![FieldValueHeld::Value(MACHINE_ID)],
        ENTROPY,
    );

    assert!(outcome.is_ok());
    assert!(written.is_empty());
}

#[test]
fn upgrading_refuses_a_volume_holding_an_invalid_value() {
    let schema = schema(vec![
        field("/machine-id", "machine-id"),
        field("/user.passwd", "hashed-password"),
    ]);
    let (outcome, written) = drive(
        &schema,
        Mode::Upgrade,
        vec![FieldValueHeld::Value(b"nonsense"), FieldValueHeld::Nothing],
        ENTROPY,
    );

    assert_eq!(
        outcome.unwrap_err().message(),
        "the volume holds invalid values:\n\
         /machine-id: expected 32 characters, found 8"
    );
    assert!(written.is_empty());
}

#[test]
fn the_whole_volume_is_surveyed_before_anything_is_produced() {
    let schema = schema(vec![
        field("/machine-id", "machine-id"),
        field("/other-id", "machine-id"),
    ]);
    let mut generate = Generate::new(&schema, Mode::Populate);
    let mut checked = Vec::new();

    while let Step::CheckValue(check) = generate.step() {
        checked.push(check.path().as_str().to_owned());
        check.absent();
    }
    assert_eq!(checked, vec!["/machine-id", "/other-id"]);
}

#[test]
fn a_write_that_fails_ends_the_run() {
    let schema = schema(vec![field("/machine-id", "machine-id")]);
    let mut generate = Generate::new(&schema, Mode::Populate);

    let outcome = loop {
        match generate.step() {
            Step::CheckValue(check) => check.absent(),
            Step::DrawEntropy(draw) => draw.filled(ENTROPY),
            Step::WriteValue(write) => write.failed("disk full".to_owned()),
            Step::HashPassphrase(_) => panic!("unexpected step for this test"),
            Step::Done(outcome) => break outcome,
        }
    };

    assert_eq!(outcome.unwrap_err().message(), "/machine-id: disk full");
}

#[test]
fn randomness_that_falls_short_is_refused() {
    let schema = schema(vec![field("/machine-id", "machine-id")]);
    let mut generate = Generate::new(&schema, Mode::Populate);

    let outcome = loop {
        match generate.step() {
            Step::CheckValue(check) => check.absent(),
            Step::DrawEntropy(draw) => draw.filled(&[0x01, 0x02]),
            Step::WriteValue(write) => write.written(),
            Step::HashPassphrase(_) => panic!("unexpected step for this test"),
            Step::Done(outcome) => break outcome,
        }
    };

    assert!(outcome
        .unwrap_err()
        .message()
        .starts_with("/machine-id: produced a value its own type refuses"));
}

// Further runs: what the requests carry, and how a run ends.

#[test]
fn the_requests_carry_what_the_world_needs() {
    let mut declared = vec![
        field("/machine-id", "machine-id"),
        field("/user.passwd", "hashed-password"),
    ];
    declared[1].description = Some("Device user password".to_owned());
    let schema = schema(declared);
    let mut generate = Generate::new(&schema, Mode::Populate);
    let mut modes = Vec::new();
    let outcome = loop {
        match generate.step() {
            Step::CheckValue(check) => check.absent(),
            Step::DrawEntropy(draw) => {
                assert_eq!(draw.wanted(), 16);
                draw.filled(ENTROPY);
            }
            Step::HashPassphrase(hash) => {
                assert_eq!(hash.path().as_str(), "/user.passwd");
                assert_eq!(hash.description(), Some("Device user password"));
                hash.hashed(CRYPT_RECORD);
            }
            Step::WriteValue(write) => {
                modes.push((write.path().as_str().to_owned(), write.permissions()));
                write.written();
            }
            Step::Done(outcome) => break outcome,
        }
    };
    assert!(outcome.is_ok());
    assert_eq!(
        modes,
        vec![
            ("/machine-id".to_owned(), 0o644),
            ("/user.passwd".to_owned(), 0o600)
        ]
    );
    assert!(matches!(generate.step(), Step::Done(Ok(()))));
}

#[test]
fn a_check_that_fails_ends_the_run_before_anything_is_produced() {
    let schema = schema(vec![
        field("/machine-id", "machine-id"),
        field("/user.passwd", "hashed-password"),
    ]);
    let mut generate = Generate::new(&schema, Mode::Upgrade);
    let outcome = match generate.step() {
        Step::CheckValue(check) => {
            check.failed("permission denied".to_owned());
            match generate.step() {
                Step::Done(outcome) => outcome,
                _ => panic!("a failed check ends the run"),
            }
        }
        _ => panic!("the first field is checked first"),
    };
    assert_eq!(
        outcome.unwrap_err().message(),
        "/machine-id: permission denied"
    );
}

#[test]
fn upgrading_names_every_invalid_value_and_only_those() {
    let schema = schema(vec![
        field("/a", "machine-id"),
        field("/b", "machine-id"),
        field("/c", "hashed-password"),
    ]);
    let (outcome, written) = drive(
        &schema,
        Mode::Upgrade,
        vec![
            FieldValueHeld::Value(b"xyz"),
            FieldValueHeld::Value(MACHINE_ID),
            FieldValueHeld::Value(b"$6$salt"),
        ],
        ENTROPY,
    );
    assert_eq!(
        outcome.unwrap_err().message(),
        "the volume holds invalid values:\n\
         /a: expected 32 characters, found 3\n\
         /c: not a crypt record: expected at least 3 sections, found 2"
    );
    assert!(written.is_empty());
}

#[test]
fn a_held_value_is_named_with_its_fault_if_any() {
    let path = FieldPath::parse("/machine-id").unwrap();
    let fine = Held { path: path.clone(), invalid: None };
    assert_eq!(fine.line(), "/machine-id");
    let faulty = Held {
        path,
        invalid: Some(Invalid::MachineId(MachineIdInvalid::NotLowercaseHex)),
    };
    assert_eq!(
        faulty.line(),
        "/machine-id: expected lowercase hexadecimal characters"
    );
}

#[test]
fn a_run_checks_then_produces_then_writes_in_declaration_order() {
    let schema = schema(vec![
        field("/machine-id", "machine-id"),
        optional_field("/sudo.passwd", "hashed-password"),
        field("/user.passwd", "hashed-password"),
        field("/root.passwd", "hashed-password"),
    ]);
    let mut answers = vec![
        FieldValueHeld::Nothing,
        FieldValueHeld::Nothing,
        FieldValueHeld::Value(CRYPT_RECORD),
        FieldValueHeld::Nothing,
    ]
    .into_iter();
    let mut trace: Vec<String> = Vec::new();
    let mut generate = Generate::new(&schema, Mode::Upgrade);
    let outcome = loop {
        match generate.step() {
            Step::CheckValue(check) => {
                trace.push(format!("check {}", check.path().as_str()));
                match answers.next().unwrap() {
                    FieldValueHeld::Value(value) => check.present(value),
                    FieldValueHeld::Nothing => check.absent(),
                }
            }
            Step::DrawEntropy(draw) => {
                trace.push(format!("draw {}", draw.wanted()));
                draw.filled(ENTROPY);
            }
            Step::HashPassphrase(hash) => {
                trace.push(format!("hash {}", hash.path().as_str()));
                hash.hashed(CRYPT_RECORD);
            }
            Step::WriteValue(write) => {
                trace.push(format!(
                    "write {} {}",
                    write.path().as_str(),
                    String::from_utf8(write.value().to_vec()).unwrap().trim_end()
                ));
                write.written();
            }
            Step::Done(outcome) => break outcome,
        }
    };
    assert!(outcome.is_ok());
    assert_eq!(
        trace,
        vec![
            "check /machine-id".to_owned(),
            "check /sudo.passwd".to_owned(),
            "check /user.passwd".to_owned(),
            "check /root.passwd".to_owned(),
            "draw 16".to_owned(),
            "hash /root.passwd".to_owned(),
            "write /machine-id d2c8e7e9a4b34d62b8f8a0c5e9d7f3b1".to_owned(),
            "write /root.passwd $y$j9T$saltSaltSalt$hashHashHash".to_owned(),
        ]
    );
}
