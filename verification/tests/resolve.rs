use orma::engine::resolve::{resolve, ResolveError};
use orma::engine::schema::declared;
use orma::engine::schema::Schema;

fn field(path: &str, declared_type: &str) -> declared::Field {
    declared::Field {
        path: path.to_owned(),
        declared_type: declared_type.to_owned(),
        optional: false,
        description: None,
    }
}

fn schema(fields: Vec<declared::Field>) -> Schema {
    Schema::new(declared::Schema { version: 1, fields }).unwrap()
}

#[test]
fn resolve_a_schema_declaring_nothing_is_satisfied() {
    assert!(resolve(&schema(vec![])).is_ok());
}

#[test]
fn a_declared_field_cannot_be_evaluated_yet() {
    let schema = schema(vec![field("/machine-id", "machine-id")]);

    assert!(matches!(
        resolve(&schema).unwrap_err(),
        ResolveError::UnimplementedFieldType { ref path, ref declared_type }
            if path == "/machine-id" && declared_type == "machine-id"
    ));
}

#[test]
fn the_first_declared_field_is_named() {
    let schema = schema(vec![
        field("/user.passwd", "hashed-password"),
        field("/machine-id", "machine-id"),
    ]);
    assert_eq!(
        resolve(&schema).unwrap_err().message(),
        "/user.passwd: field type 'hashed-password' is not implemented"
    );
}
