use firestore_core::error::Error;
use firestore_core::join::JoinableIterator;
use firestore_core::path::{
    abs_to_rel, firebase_base_url, firebase_url, firebase_url_base, firebase_url_extended,
    firebase_url_query, read, rel_to_abs, Endpoint, Scheme,
};

#[test]
fn abs_to_rel_test() {
    assert_eq!(
        abs_to_rel("projects/{PROJECT_ID}/databases/(default)/documents/my_collection/document_id")
            .unwrap(),
        "my_collection/document_id"
    );
}

#[test]
fn abs_to_rel_short_form() {
    assert_eq!(
        abs_to_rel("projects/P/databases/(default)/documents/col/doc").unwrap(),
        "col/doc"
    );
}

#[test]
fn abs_to_rel_without_segment_is_error() {
    assert_eq!(abs_to_rel("projects/P/databases/other/documents/col/doc"), Err(Error::PathFormat));
    assert_eq!(abs_to_rel(""), Err(Error::PathFormat));
    assert_eq!(abs_to_rel("(default)"), Err(Error::PathFormat));
}

#[test]
fn abs_to_rel_takes_first_segment() {
    assert_eq!(
        abs_to_rel("x/(default)/documents/a/(default)/documents/b").unwrap(),
        "a/(default)/documents/b"
    );
}

#[test]
fn rel_to_abs_composes() {
    assert_eq!(
        rel_to_abs("P", "col/doc").unwrap(),
        "projects/P/databases/(default)/documents/col/doc"
    );
}

#[test]
fn rel_to_abs_rejects_empty_project() {
    assert_eq!(rel_to_abs("", "col/doc"), Err(Error::EmptyProjectId));
}

#[test]
fn relative_round_trip() {
    for rel in ["col/doc", "a/b/c/d", "", "weird(name)/x", "a/(default)/documents/b"] {
        for project in ["my-project", "(default)", "x(default)/docs"] {
            let abs = rel_to_abs(project, rel).unwrap();
            assert_eq!(abs_to_rel(&abs).unwrap(), rel);
        }
    }
}

#[test]
fn relative_round_trip_needs_plain_project() {
    let abs = rel_to_abs("p(default)/documents/q", "col/doc").unwrap();
    assert_eq!(abs_to_rel(&abs).unwrap(), "q/databases/(default)/documents/col/doc");
}

#[test]
fn endpoint_from_emulator_host() {
    let prod = Endpoint::from_emulator_host(None);
    assert_eq!(prod.scheme, Scheme::HTTPS);
    assert_eq!(prod.host, "firestore.googleapis.com");
    assert_eq!(firebase_base_url(&prod), "https://firestore.googleapis.com");
    let emu = Endpoint::from_emulator_host(Some("localhost:8080".to_string()));
    assert_eq!(emu.scheme, Scheme::HTTP);
    assert_eq!(firebase_base_url(&emu), "http://localhost:8080");
    assert_eq!(Scheme::HTTPS.as_str(), "https");
    assert_eq!(Scheme::HTTP.as_str(), "http");
}

#[test]
fn urls_are_composed() {
    let e = Endpoint::from_emulator_host(None);
    assert_eq!(
        firebase_url_query(&e, "P"),
        "https://firestore.googleapis.com/v1/projects/P/databases/(default)/documents:runQuery"
    );
    assert_eq!(
        firebase_url_base(&e, "projects/P/databases/(default)/documents/c/d"),
        "https://firestore.googleapis.com/v1/projects/P/databases/(default)/documents/c/d"
    );
    assert_eq!(
        firebase_url_extended(&e, "P", "c", "d"),
        "https://firestore.googleapis.com/v1/projects/P/databases/(default)/documents/c/d"
    );
    assert_eq!(
        firebase_url(&e, "P", "c"),
        "https://firestore.googleapis.com/v1/projects/P/databases/(default)/documents/c?"
    );
}

#[test]
fn read_url_names_the_document() {
    let e = Endpoint::from_emulator_host(Some("127.0.0.1:9000".to_string()));
    assert_eq!(
        read(&e, "my_project", "tests", "test").unwrap(),
        "http://127.0.0.1:9000/v1/projects/my_project/databases/(default)/documents/tests/test"
    );
    assert_eq!(read(&e, "", "tests", "test"), Err(Error::EmptyProjectId));
}

#[test]
fn join_pieces() {
    let mut v = vec!["a".to_string(), "bc".to_string(), "d".to_string()];
    assert_eq!(JoinableIterator::join(&mut v, ","), "a,bc,d");
    assert!(v.is_empty());
    let mut one = vec!["only".to_string()];
    assert_eq!(JoinableIterator::join(&mut one, ", "), "only");
    let mut none: Vec<String> = Vec::new();
    assert_eq!(JoinableIterator::join(&mut none, ","), "");
}
