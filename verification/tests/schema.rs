use orma::engine::field_type::FieldKind;
use orma::engine::schema::declared;
use orma::engine::schema::{FieldPath, PathError, Schema, SchemaError};

fn field(path: &str, declared_type: &str) -> declared::Field {
    declared::Field {
        path: path.to_owned(),
        declared_type: declared_type.to_owned(),
        optional: false,
        description: None,
    }
}

fn schema(fields: Vec<declared::Field>) -> Result<Schema, SchemaError> {
    Schema::new(declared::Schema { version: 1, fields })
}

#[test]
fn a_schema_may_declare_nothing() {
    assert!(schema(vec![]).unwrap().fields().is_empty());
}

#[test]
fn unsupported_version_is_refused() {
    assert!(matches!(
        Schema::new(declared::Schema {
            version: 2,
            fields: vec![]
        }),
        Err(SchemaError::UnsupportedVersion(2))
    ));
}

#[test]
fn duplicate_paths_are_refused() {
    let declared = vec![field("/a", "machine-id"), field("/a", "machine-id")];
    assert!(matches!(
        schema(declared),
        Err(SchemaError::DuplicatePath(p)) if p == "/a"
    ));
}

#[test]
fn a_traversing_path_refuses_the_schema() {
    let declared = vec![field("/../../etc/shadow", "machine-id")];
    assert!(matches!(
        schema(declared),
        Err(SchemaError::Path {
            source: PathError::RelativeComponent,
            ..
        })
    ));
}

#[test]
fn paths_that_would_leave_the_volume_are_refused() {
    let cases = [
        ("", PathError::Empty),
        ("user.passwd", PathError::NotAbsolute),
        ("./user.passwd", PathError::NotAbsolute),
        ("../user.passwd", PathError::NotAbsolute),
        ("/", PathError::EmptyComponent),
        ("//user.passwd", PathError::EmptyComponent),
        ("/a//b", PathError::EmptyComponent),
        ("/a/", PathError::EmptyComponent),
        ("/..", PathError::RelativeComponent),
        ("/a/../../etc", PathError::RelativeComponent),
        ("/a/./b", PathError::RelativeComponent),
        ("/a\0b", PathError::Nul),
    ];
    for (declared, expected) in cases {
        assert_eq!(
            FieldPath::parse(declared),
            Err(expected),
            "path {declared:?}"
        );
    }
}

#[test]
fn a_dot_inside_a_component_is_not_a_traversal() {
    assert!(FieldPath::parse("/user.passwd").is_ok());
    assert!(FieldPath::parse("/..hidden").is_ok());
    assert!(FieldPath::parse("/ssh/host_ed25519_key").is_ok());
}

// Further cases of admission, and the messages of its errors.

#[test]
fn admitted_fields_keep_what_was_declared() {
    let mut declared = vec![
        field("/machine-id", "machine-id"),
        field("/sudo.passwd", "hashed-password"),
    ];
    declared[1].optional = true;
    declared[1].description = Some("Administrative password".to_owned());
    let schema = schema(declared).unwrap();
    let fields = schema.fields();
    assert_eq!(fields.len(), 2);
    assert_eq!(fields[0].path().as_str(), "/machine-id");
    assert_eq!(fields[0].declared_type(), "machine-id");
    assert_eq!(fields[0].kind(), FieldKind::MachineId);
    assert!(!fields[0].is_optional());
    assert_eq!(fields[0].description(), None);
    assert_eq!(fields[1].kind(), FieldKind::HashedPassword);
    assert!(fields[1].is_optional());
    assert_eq!(fields[1].description(), Some("Administrative password"));
}

#[test]
fn an_unknown_field_type_refuses_the_schema() {
    let declared = vec![field("/ssh/host_key", "ssh-host-key")];
    let err = schema(declared).unwrap_err();
    assert!(matches!(
        &err,
        SchemaError::UnknownFieldType { path, declared_type }
            if path == "/ssh/host_key" && declared_type == "ssh-host-key"
    ));
    assert_eq!(
        err.message(),
        "field '/ssh/host_key': unknown field type 'ssh-host-key'"
    );
}

#[test]
fn the_first_faulty_field_decides_the_error() {
    let declared = vec![
        field("/a", "machine-id"),
        field("b", "machine-id"),
        field("/a", "machine-id"),
    ];
    assert!(matches!(
        schema(declared),
        Err(SchemaError::Path { path, source: PathError::NotAbsolute }) if path == "b"
    ));
}

#[test]
fn the_first_faulty_component_decides_the_error() {
    assert_eq!(FieldPath::parse("/a\0/.."), Err(PathError::Nul));
    assert_eq!(FieldPath::parse("/../a\0"), Err(PathError::RelativeComponent));
    assert_eq!(FieldPath::parse("/./"), Err(PathError::RelativeComponent));
}

#[test]
fn schema_errors_read_as_documented() {
    assert_eq!(
        Schema::new(declared::Schema { version: 2, fields: vec![] })
            .unwrap_err()
            .message(),
        "unsupported schema version: 2"
    );
    assert_eq!(
        schema(vec![field("/a", "machine-id"), field("/a", "hashed-password")])
            .unwrap_err()
            .message(),
        "duplicate field path: /a"
    );
    assert_eq!(
        schema(vec![field("/a/../b", "machine-id")])
            .unwrap_err()
            .message(),
        "field '/a/../b': path contains a '.' or '..' component"
    );
    assert_eq!(PathError::Empty.message(), "path is empty");
    assert_eq!(PathError::NotAbsolute.message(), "path must start with '/'");
    assert_eq!(
        PathError::EmptyComponent.message(),
        "path contains an empty component"
    );
    assert_eq!(PathError::Nul.message(), "path contains a NUL byte");
}

#[test]
fn a_parsed_path_reads_as_written() {
    let path = FieldPath::parse("/ssh/host_key").unwrap();
    assert_eq!(path.as_str(), "/ssh/host_key");
    assert_eq!(path.clone(), path);
}

#[test]
fn a_field_is_looked_for_under_the_mount_point() {
    let field = FieldPath::parse("/ssh/host_key").unwrap();
    assert_eq!(field.components(), vec!["ssh".to_owned(), "host_key".to_owned()]);
    let mut located = std::path::PathBuf::from("/run/identity");
    located.extend(field.components());
    assert_eq!(located, std::path::PathBuf::from("/run/identity/ssh/host_key"));
}
