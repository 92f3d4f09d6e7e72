use firestore_core::envelope::{Document, FieldSpec};
use firestore_core::error::Error;
use firestore_core::results::{decode_stream, Frame, ResultDecoder};
use firestore_core::value::{Shape, TypedValue, Value};

fn doc(name: &str) -> Document {
    Document {
        name: None,
        fields: vec![("name".to_string(), TypedValue::StringValue(name.to_string()))],
        create_time: None,
        update_time: None,
    }
}

fn shape() -> Vec<FieldSpec> {
    vec![FieldSpec { name: "name".to_string(), shape: Shape::Text, required: true }]
}

fn frame(document: Option<Document>, skipped: Option<u64>, t: &str) -> Frame {
    Frame { document, read_time: Some(t.to_string()), skipped_results: skipped }
}

#[test]
fn documents_and_skip_markers() {
    let frames = vec![
        frame(Some(doc("first")), None, "2024-01-01T00:00:00Z"),
        frame(None, Some(2), "2024-01-01T00:00:01Z"),
        frame(Some(doc("second")), None, "2024-01-01T00:00:02Z"),
    ];
    let (recs, skipped, error) = decode_stream(&frames, &shape());
    assert_eq!(error, None);
    assert_eq!(skipped, 2);
    assert_eq!(
        recs,
        vec![
            vec![("name".to_string(), Some(Value::Text("first".to_string())))],
            vec![("name".to_string(), Some(Value::Text("second".to_string())))],
        ]
    );
}

#[test]
fn decoder_steps_frame_by_frame() {
    let mut d = ResultDecoder::new();
    assert_eq!(d.skipped, 0);
    let r = d.feed(&frame(None, Some(3), "2024-01-01T00:00:01Z"), &shape()).unwrap();
    assert!(r.is_none());
    assert_eq!(d.skipped, 3);
    assert_eq!(d.read_time.as_deref(), Some("2024-01-01T00:00:01Z"));
    let r = d.feed(&frame(Some(doc("a")), Some(u64::MAX), "2024-01-01T00:00:02Z"), &shape()).unwrap();
    assert_eq!(r, Some(vec![("name".to_string(), Some(Value::Text("a".to_string())))]));
    assert_eq!(d.skipped, u64::MAX);
}

#[test]
fn bad_document_ends_the_stream() {
    let bad = Document { name: None, fields: vec![], create_time: None, update_time: None };
    let frames = vec![
        frame(Some(doc("first")), None, "t"),
        frame(Some(bad), None, "t"),
        frame(Some(doc("third")), None, "t"),
    ];
    let (recs, skipped, error) = decode_stream(&frames, &shape());
    assert_eq!(error, Some(Error::MissingField("name".to_string())));
    assert_eq!(recs, vec![vec![("name".to_string(), Some(Value::Text("first".to_string())))]]);
    assert_eq!(skipped, 0);
    let mut d = ResultDecoder::new();
    let bad2 = Document { name: None, fields: vec![], create_time: None, update_time: None };
    assert_eq!(
        d.feed(&frame(Some(bad2), Some(4), "t"), &shape()),
        Err(Error::MissingField("name".to_string()))
    );
    assert_eq!(d.skipped, 0);
    assert_eq!(d.read_time, None);
    assert_eq!(d.failed, Some(Error::MissingField("name".to_string())));
    assert_eq!(
        d.feed(&frame(Some(doc("later")), Some(1), "u"), &shape()),
        Err(Error::MissingField("name".to_string()))
    );
    assert_eq!(d.skipped, 0);
}

#[test]
fn empty_stream() {
    let (recs, skipped, error) = decode_stream(&vec![], &shape());
    assert!(error.is_none());
    assert!(recs.is_empty());
    assert_eq!(skipped, 0);
}
