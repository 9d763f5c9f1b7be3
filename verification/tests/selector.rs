use interval_store::selector::BackendKind;
use interval_store::selector::DbType;
use interval_store::selector::SelectorError;
use interval_store::selector::match_database_type;

fn args(values: &[&str]) -> Vec<String> {
    values.iter().map(|v| v.to_string()).collect()
}

#[test]
fn relational_needs_a_connection_string() {
    let r = match_database_type("relational", &args(&[]));
    assert_eq!(r, Err(SelectorError::NotEnoughArguments(BackendKind::Relational)));
}

#[test]
fn relational_accepts_a_connection_string() {
    let r = match_database_type("relational", &args(&["conn"]));
    assert_eq!(r, Ok(DbType::Relational("conn".to_string())));
}

#[test]
fn relational_ignores_extra_arguments() {
    let r = match_database_type("relational", &args(&["conn", "spare"]));
    assert_eq!(r, Ok(DbType::Relational("conn".to_string())));
}

#[test]
fn document_needs_two_arguments() {
    let r = match_database_type("document", &args(&["uri"]));
    assert_eq!(r, Err(SelectorError::NotEnoughArguments(BackendKind::Document)));
}

#[test]
fn document_accepts_uri_and_database_name() {
    let r = match_database_type("document", &args(&["uri", "metrics"]));
    assert_eq!(r, Ok(DbType::Document("uri".to_string(), "metrics".to_string())));
}

#[test]
fn multimodel_needs_three_arguments() {
    let r = match_database_type("multimodel", &args(&["url", "user"]));
    assert_eq!(r, Err(SelectorError::NotEnoughArguments(BackendKind::MultiModel)));
}

#[test]
fn multimodel_accepts_endpoint_and_credentials() {
    let r = match_database_type("multimodel", &args(&["url", "user", "pass"]));
    assert_eq!(
        r,
        Ok(DbType::MultiModel("url".to_string(), "user".to_string(), "pass".to_string()))
    );
}

#[test]
fn unknown_backend_is_rejected_whatever_the_arguments() {
    assert_eq!(
        match_database_type("unknown", &args(&[])),
        Err(SelectorError::UnknownBackend)
    );
    assert_eq!(
        match_database_type("unknown", &args(&["a", "b", "c", "d"])),
        Err(SelectorError::UnknownBackend)
    );
    assert_eq!(
        match_database_type("", &args(&["a"])),
        Err(SelectorError::UnknownBackend)
    );
}
