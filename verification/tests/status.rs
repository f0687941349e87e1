use orma::engine::generate::GenerateError;
use orma::engine::schema::FieldPath;
use orma::platform::status::{generate_exit, resolve_exit, ResolveFailure};

#[test]
fn a_failed_generate_reports_why_through_its_status() {
    let path = FieldPath::parse("/machine-id").unwrap();
    assert_eq!(generate_exit(&GenerateError::AlreadyHeld(vec![])), 2);
    assert_eq!(generate_exit(&GenerateError::InvalidValues(vec![])), 2);
    assert_eq!(
        generate_exit(&GenerateError::Unable {
            path: path.clone(),
            kind_name: "machine-id"
        }),
        3
    );
    assert_eq!(
        generate_exit(&GenerateError::Failed {
            path,
            why: "disk full".to_owned()
        }),
        1
    );
}

#[test]
fn a_failed_resolve_reports_why_through_its_status() {
    assert_eq!(resolve_exit(ResolveFailure::Unusable), 1);
    assert_eq!(resolve_exit(ResolveFailure::Unsatisfied), 2);
    assert_eq!(resolve_exit(ResolveFailure::Unsupported), 3);
}
