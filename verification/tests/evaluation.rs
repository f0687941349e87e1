use orma::field_types::parse;
use orma::generate::tools_needed;
use orma::resolve::resolve_writes;
use orma::generate::{preflight, refuse_overwrites};
use orma::resolve::{evaluate_all, evaluate_one, ReadOutcome};
use orma::schema::{Field, Version};

const VALID_CRYPT_HASH: &[u8] = b"$y$j9T$saltSaltSalt$hashHashHashHashHash";

fn field(path: &str, declared_type: &str, optional: bool) -> Field {
    Field {
        path: path.to_owned(),
        declared_type: declared_type.to_owned(),
        optional,
    }
}

#[test]
fn a_required_value_that_is_missing_is_reported() {
    let f = field("/passwd.hash", "hashed-password", false);
    assert_eq!(
        evaluate_one(&f, &ReadOutcome::Missing),
        Err("/passwd.hash: required but missing".to_owned())
    );
}

#[test]
fn an_optional_value_may_be_missing() {
    let f = field("/sudo.hash", "hashed-password", true);
    assert_eq!(evaluate_one(&f, &ReadOutcome::Missing), Ok(()));
}

#[test]
fn a_value_that_cannot_be_read_is_reported() {
    let f = field("/sudo.hash", "hashed-password", true);
    assert_eq!(
        evaluate_one(&f, &ReadOutcome::IoError("permission denied".to_owned())),
        Err("/sudo.hash: read failed: permission denied".to_owned())
    );
}

#[test]
fn a_present_value_is_checked_by_its_type() {
    let f = field("/passwd.hash", "hashed-password", false);
    assert_eq!(
        evaluate_one(&f, &ReadOutcome::Present(VALID_CRYPT_HASH.to_vec())),
        Ok(())
    );
    assert_eq!(
        evaluate_one(&f, &ReadOutcome::Present(b"hunter2".to_vec())),
        Err("/passwd.hash: not a crypt record: missing leading '$'".to_owned())
    );
    let g = field("/host_key", "ssh-host-key", false);
    assert_eq!(
        evaluate_one(&g, &ReadOutcome::Present(b"key".to_vec())),
        Err("/host_key: unknown field type 'ssh-host-key'".to_owned())
    );
}

#[test]
fn every_failing_field_is_reported_in_order() {
    let fields = vec![
        field("/machine-id", "machine-id", false),
        field("/passwd.hash", "hashed-password", false),
        field("/sudo.hash", "hashed-password", true),
    ];
    let reads = vec![
        ReadOutcome::Present(b"deadbeefdeadbeefdeadbeefdeadbeef".to_vec()),
        ReadOutcome::Missing,
        ReadOutcome::Missing,
    ];
    assert_eq!(
        evaluate_all(&fields, &reads),
        Err(vec!["/passwd.hash: required but missing".to_owned()])
    );
}

#[test]
fn a_volume_is_accepted_when_every_field_is() {
    let fields = vec![
        field("/passwd.hash", "hashed-password", false),
        field("/sudo.hash", "hashed-password", true),
    ];
    let reads = vec![
        ReadOutcome::Present(VALID_CRYPT_HASH.to_vec()),
        ReadOutcome::Missing,
    ];
    assert_eq!(evaluate_all(&fields, &reads), Ok(()));
    assert_eq!(evaluate_all(&[], &[]), Ok(()));
}

#[test]
fn every_missing_tool_is_named_once() {
    assert_eq!(
        preflight(
            &["mkpasswd", "systemd-ask-password", "mkpasswd"],
            &[false, false, false]
        ),
        Err(vec![
            "mkpasswd".to_owned(),
            "systemd-ask-password".to_owned()
        ])
    );
    assert_eq!(preflight(&["mkpasswd", "mkpasswd"], &[true, true]), Ok(()));
    assert_eq!(preflight(&[], &[]), Ok(()));
}

#[test]
fn values_already_held_are_not_overwritten() {
    let fields = vec![
        field("/machine-id", "machine-id", false),
        field("/passwd.hash", "hashed-password", false),
        field("/sudo.hash", "hashed-password", true),
    ];
    assert_eq!(
        refuse_overwrites(&fields, &[false, true, true]),
        Err(vec!["/passwd.hash".to_owned(), "/sudo.hash".to_owned()])
    );
    assert_eq!(refuse_overwrites(&fields, &[false, false, false]), Ok(()));
}

#[test]
fn only_version_one_is_read() {
    assert_eq!(Version::from_number(1), Ok(Version::V1));
    assert_eq!(
        Version::from_number(2),
        Err("unsupported schema version: 2".to_owned())
    );
    assert_eq!(Version::V1.number(), 1);
}

#[test]
fn the_example_volume_is_accepted() {
    let fields = vec![
        field("/machine-id", "machine-id", false),
        field("/passwd.hash", "hashed-password", false),
        field("/sudo.hash", "hashed-password", true),
    ];
    let reads = vec![
        ReadOutcome::Present(b"deadbeefdeadbeefdeadbeefdeadbeef".to_vec()),
        ReadOutcome::Present(VALID_CRYPT_HASH.to_vec()),
        ReadOutcome::Present(VALID_CRYPT_HASH.to_vec()),
    ];
    assert_eq!(evaluate_all(&fields, &reads), Ok(()));
}

#[test]
fn a_malformed_machine_id_is_reported_with_its_path() {
    let fields = vec![
        field("/machine-id", "machine-id", false),
        field("/passwd.hash", "hashed-password", false),
    ];
    let reads = vec![
        ReadOutcome::Present(b"not-a-machine-id".to_vec()),
        ReadOutcome::Missing,
    ];
    assert_eq!(
        evaluate_all(&fields, &reads),
        Err(vec![
            "/machine-id: machine-id must be exactly 32 hex characters".to_owned(),
            "/passwd.hash: required but missing".to_owned(),
        ])
    );
}

#[test]
fn only_an_accepted_volume_is_written_and_only_what_it_holds() {
    let fields = vec![
        field("/machine-id", "machine-id", false),
        field("/passwd.hash", "hashed-password", false),
        field("/sudo.hash", "hashed-password", true),
    ];
    let accepted = vec![
        ReadOutcome::Present(b"deadbeefdeadbeefdeadbeefdeadbeef".to_vec()),
        ReadOutcome::Present(VALID_CRYPT_HASH.to_vec()),
        ReadOutcome::Missing,
    ];
    assert_eq!(resolve_writes(&fields, &accepted), Ok(vec![0, 1]));
    let refused = vec![
        ReadOutcome::Present(b"deadbeefdeadbeefdeadbeefdeadbeef".to_vec()),
        ReadOutcome::Missing,
        ReadOutcome::Present(b"hunter2".to_vec()),
    ];
    assert_eq!(
        resolve_writes(&fields, &refused),
        Err(vec![
            "/passwd.hash: required but missing".to_owned(),
            "/sudo.hash: not a crypt record: missing leading '$'".to_owned(),
        ])
    );
}

#[test]
fn the_tools_needed_are_listed_in_the_order_required() {
    let types = vec![
        parse(&field("/machine-id", "machine-id", false)).unwrap(),
        parse(&field("/passwd.hash", "hashed-password", false)).unwrap(),
    ];
    let tools = tools_needed(&types, &["systemd-ask-password"]);
    assert_eq!(tools, vec!["mkpasswd", "systemd-ask-password"]);
    assert_eq!(
        preflight(&tools, &[true, false]),
        Err(vec!["systemd-ask-password".to_owned()])
    );
}
