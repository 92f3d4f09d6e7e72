use firestore_core::envelope::{
    from_envelope, is_well_formed_record, to_envelope, Document, FieldSpec, Record,
};
use firestore_core::error::Error;
use firestore_core::value::{decode, encode, is_well_formed, Shape, TypedValue, Value};

fn sample_values() -> Vec<Value> {
    vec![
        Value::Null,
        Value::Bool(true),
        Value::Int(-42),
        Value::Int(i64::MAX),
        Value::Float(2.5f64.to_bits()),
        Value::Timestamp("2024-01-02T03:04:05Z".to_string()),
        Value::Timestamp("2024-01-02T03:04:05.123456+02:00".to_string()),
        Value::Text("hello".to_string()),
        Value::Bytes(vec![0, 1, 255]),
        Value::Reference("projects/P/databases/(default)/documents/c/d".to_string()),
        Value::GeoPoint { latitude: 48.85f64.to_bits(), longitude: 2.35f64.to_bits() },
        Value::List(vec![]),
        Value::Record(vec![]),
    ]
}

#[test]
fn every_variant_round_trips() {
    for v in sample_values() {
        let wire = encode(&v);
        assert_eq!(decode(&wire, &Shape::Any).unwrap(), v);
    }
}

#[test]
fn nested_values_round_trip() {
    let v = Value::Record(vec![
        ("list".to_string(), Value::List(sample_values())),
        (
            "inner".to_string(),
            Value::Record(vec![
                ("n".to_string(), Value::Int(7)),
                ("deep".to_string(), Value::List(vec![Value::List(vec![Value::Null])])),
            ]),
        ),
    ]);
    let wire = encode(&v);
    assert_eq!(decode(&wire, &Shape::Any).unwrap(), v);
}

#[test]
fn encode_uses_wire_tags() {
    assert_eq!(encode(&Value::Int(4)), TypedValue::IntegerValue(4));
    assert_eq!(encode(&Value::Text("x".to_string())), TypedValue::StringValue("x".to_string()));
    assert_eq!(
        encode(&Value::List(vec![Value::Bool(false)])),
        TypedValue::ArrayValue(vec![TypedValue::BooleanValue(false)])
    );
    assert_eq!(
        encode(&Value::Record(vec![("k".to_string(), Value::Null)])),
        TypedValue::MapValue(vec![("k".to_string(), TypedValue::NullValue)])
    );
}

#[test]
fn integral_double_stays_double() {
    let four = 4.0f64.to_bits();
    let wire = encode(&Value::Float(four));
    assert_eq!(wire, TypedValue::DoubleValue(four));
    assert_eq!(decode(&wire, &Shape::Any).unwrap(), Value::Float(four));
    assert_eq!(f64::from_bits(four), 4.0);
    assert_eq!(decode(&wire, &Shape::Integer), Err(Error::TypeMismatch(String::new())));
    let int_wire = encode(&Value::Int(4));
    assert_eq!(int_wire, TypedValue::IntegerValue(4));
    assert_eq!(decode(&int_wire, &Shape::Any).unwrap(), Value::Int(4));
    assert_eq!(decode(&int_wire, &Shape::Double), Err(Error::TypeMismatch(String::new())));
}

#[test]
fn decode_into_wrong_shape_is_type_mismatch() {
    let map = TypedValue::MapValue(vec![("a".to_string(), TypedValue::IntegerValue(1))]);
    assert_eq!(decode(&map, &Shape::Text), Err(Error::TypeMismatch(String::new())));
    let arr = TypedValue::ArrayValue(vec![
        TypedValue::IntegerValue(1),
        TypedValue::StringValue("x".to_string()),
    ]);
    assert_eq!(decode(&arr, &Shape::Array(Box::new(Shape::Integer))), Err(Error::TypeMismatch(String::new())));
    let ints = TypedValue::ArrayValue(vec![TypedValue::IntegerValue(1), TypedValue::IntegerValue(2)]);
    assert_eq!(
        decode(&ints, &Shape::Array(Box::new(Shape::Integer))).unwrap(),
        Value::List(vec![Value::Int(1), Value::Int(2)])
    );
    assert_eq!(
        decode(&map, &Shape::Fields(Box::new(Shape::Integer))).unwrap(),
        Value::Record(vec![("a".to_string(), Value::Int(1))])
    );
}

#[test]
fn malformed_timestamp_is_refused() {
    for bad in [
        "",
        "yesterday",
        "2024-01-02 03:04:05Z",
        "2024-01-02T03:04:05",
        "2024-01-02T03:04:05.Z",
        "2024-13-01T00:00:00Z",
        "2024-00-01T00:00:00Z",
        "2023-02-29T00:00:00Z",
        "2100-02-29T00:00:00Z",
        "2024-04-31T00:00:00Z",
        "2024-01-00T00:00:00Z",
        "2024-01-01T24:00:00Z",
        "2024-01-01T00:60:00Z",
        "2024-01-01T00:00:61Z",
        "2024-01-01T00:00:00+24:00",
        "2024-01-01T00:00:00+01:60",
    ] {
        let wire = TypedValue::TimestampValue(bad.to_string());
        assert_eq!(decode(&wire, &Shape::Timestamp), Err(Error::MalformedTimestamp(String::new())));
    }
    let nested = TypedValue::ArrayValue(vec![TypedValue::TimestampValue("nope".to_string())]);
    assert_eq!(decode(&nested, &Shape::Any), Err(Error::MalformedTimestamp(String::new())));
    let good = TypedValue::TimestampValue("1999-12-31t23:59:59.5-07:30".to_string());
    assert_eq!(
        decode(&good, &Shape::Timestamp).unwrap(),
        Value::Timestamp("1999-12-31t23:59:59.5-07:30".to_string())
    );
}

#[test]
fn reference_kept_verbatim() {
    let name = "projects/P/databases/(default)/documents/c/d".to_string();
    let wire = TypedValue::ReferenceValue(name.clone());
    assert_eq!(decode(&wire, &Shape::Reference).unwrap(), Value::Reference(name));
}

fn slot(name: &str, shape: Shape, required: bool) -> FieldSpec {
    FieldSpec { name: name.to_string(), shape, required }
}

#[test]
fn to_envelope_leaves_out_absent_fields() {
    let record: Record = vec![
        ("name".to_string(), Some(Value::Text("Ann".to_string()))),
        ("email".to_string(), None),
        ("age".to_string(), Some(Value::Int(30))),
        ("note".to_string(), Some(Value::Null)),
    ];
    let doc = to_envelope(&record);
    assert_eq!(doc.name, None);
    assert_eq!(doc.create_time, None);
    assert_eq!(doc.update_time, None);
    assert_eq!(
        doc.fields,
        vec![
            ("name".to_string(), TypedValue::StringValue("Ann".to_string())),
            ("age".to_string(), TypedValue::IntegerValue(30)),
            ("note".to_string(), TypedValue::NullValue),
        ]
    );
}

#[test]
fn missing_required_field_is_reported() {
    let doc = Document {
        name: Some("projects/P/databases/(default)/documents/users/u1".to_string()),
        fields: vec![("name".to_string(), TypedValue::StringValue("Ann".to_string()))],
        create_time: None,
        update_time: None,
    };
    let shape = vec![slot("name", Shape::Text, true), slot("email", Shape::Text, true)];
    assert_eq!(from_envelope(&doc, &shape), Err(Error::MissingField("email".to_string())));
}

#[test]
fn from_envelope_reads_slots_in_order() {
    let doc = Document {
        name: None,
        fields: vec![
            ("extra".to_string(), TypedValue::BooleanValue(true)),
            ("age".to_string(), TypedValue::IntegerValue(30)),
            ("name".to_string(), TypedValue::StringValue("Ann".to_string())),
        ],
        create_time: Some("2024-01-02T03:04:05Z".to_string()),
        update_time: None,
    };
    let shape = vec![
        slot("name", Shape::Text, true),
        slot("age", Shape::Integer, true),
        slot("email", Shape::Text, false),
    ];
    assert_eq!(
        from_envelope(&doc, &shape).unwrap(),
        vec![
            ("name".to_string(), Some(Value::Text("Ann".to_string()))),
            ("age".to_string(), Some(Value::Int(30))),
            ("email".to_string(), None),
        ]
    );
    let wrong = vec![slot("age", Shape::Text, true)];
    assert_eq!(from_envelope(&doc, &wrong), Err(Error::TypeMismatch("age".to_string())));
}

#[test]
fn record_round_trips_through_envelope() {
    let record: Record = vec![
        ("a".to_string(), Some(Value::Float(4.0f64.to_bits()))),
        ("b".to_string(), Some(Value::List(vec![Value::Int(1), Value::Text("x".to_string())]))),
    ];
    let doc = to_envelope(&record);
    let shape = vec![slot("a", Shape::Any, true), slot("b", Shape::Any, true)];
    assert_eq!(from_envelope(&doc, &shape).unwrap(), record);
}

#[test]
fn calendar_edges_are_accepted() {
    for good in [
        "2024-02-29T00:00:00Z",
        "2000-02-29T12:00:00Z",
        "2023-12-31T23:59:60Z",
        "2024-04-30T00:00:00+23:59",
    ] {
        let wire = TypedValue::TimestampValue(good.to_string());
        assert_eq!(decode(&wire, &Shape::Timestamp).unwrap(), Value::Timestamp(good.to_string()));
    }
}

#[test]
fn mismatch_wins_over_bad_timestamp() {
    let wire = TypedValue::ArrayValue(vec![
        TypedValue::TimestampValue("bad".to_string()),
        TypedValue::IntegerValue(1),
    ]);
    assert_eq!(
        decode(&wire, &Shape::Array(Box::new(Shape::Timestamp))),
        Err(Error::TypeMismatch(String::new()))
    );
    let doc = Document {
        name: None,
        fields: vec![("when".to_string(), TypedValue::TimestampValue("2024-13-01T00:00:00Z".to_string()))],
        create_time: None,
        update_time: None,
    };
    let shape = vec![slot("when", Shape::Timestamp, true)];
    assert_eq!(from_envelope(&doc, &shape), Err(Error::MalformedTimestamp("when".to_string())));
}

#[test]
fn well_formedness_checks() {
    for v in sample_values() {
        assert!(is_well_formed(&v));
    }
    assert!(!is_well_formed(&Value::Timestamp("2024-02-30T00:00:00Z".to_string())));
    let dup = Value::Record(vec![
        ("a".to_string(), Value::Int(1)),
        ("a".to_string(), Value::Int(2)),
    ]);
    assert!(!is_well_formed(&dup));
    assert!(!is_well_formed(&Value::List(vec![Value::Null, dup])));
    let record: Record = vec![
        ("a".to_string(), Some(Value::Int(1))),
        ("b".to_string(), None),
    ];
    assert!(is_well_formed_record(&record));
    let repeated: Record = vec![
        ("a".to_string(), Some(Value::Int(1))),
        ("a".to_string(), None),
    ];
    assert!(!is_well_formed_record(&repeated));
    let bad_time: Record = vec![("t".to_string(), Some(Value::Timestamp("x".to_string())))];
    assert!(!is_well_formed_record(&bad_time));
}
