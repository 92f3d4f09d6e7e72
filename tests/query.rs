use firestore_core::error::{CompileError, Error};
use firestore_core::query::{
    compile, CompositeFilter, CompositeOp, Condition, Cursor, Direction, FieldFilter, Filter,
    Operator, Order, QuerySpec, WireFilter,
};
use firestore_core::value::{TypedValue, Value};

fn base() -> QuerySpec {
    QuerySpec {
        collection: "users".to_string(),
        all_descendants: false,
        filters: vec![],
        order_by: vec![],
        start_at: None,
        end_at: None,
        limit: None,
        offset: None,
    }
}

fn cond(field: &str, op: Operator, value: Value) -> Filter {
    Filter::Where(Condition { field: field.to_string(), op, value })
}

fn order(field: &str, direction: Direction) -> Order {
    Order { field: field.to_string(), direction }
}

#[test]
fn two_filters_become_one_and_composite() {
    let mut q = base();
    q.filters = vec![
        cond("age", Operator::GreaterThan, Value::Int(18)),
        cond("city", Operator::Equal, Value::Text("Oslo".to_string())),
    ];
    let w = compile(&q).unwrap();
    let c = w.where_filter.unwrap();
    assert_eq!(c.op, CompositeOp::And);
    assert_eq!(
        c.filters,
        vec![
            WireFilter::Field(FieldFilter {
                field: "age".to_string(),
                op: Operator::GreaterThan,
                value: TypedValue::IntegerValue(18),
            }),
            WireFilter::Field(FieldFilter {
                field: "city".to_string(),
                op: Operator::Equal,
                value: TypedValue::StringValue("Oslo".to_string()),
            }),
        ]
    );
}

#[test]
fn single_filter_is_still_wrapped() {
    let mut q = base();
    q.filters = vec![cond("x", Operator::Equal, Value::Bool(true))];
    let c = compile(&q).unwrap().where_filter.unwrap();
    assert_eq!(c.op, CompositeOp::And);
    assert_eq!(c.filters.len(), 1);
}

#[test]
fn no_filters_means_no_where() {
    let w = compile(&base()).unwrap();
    assert!(w.where_filter.is_none());
    assert_eq!(w.from.collection_id, "users");
    assert!(!w.from.all_descendants);
    assert_eq!(w.limit, None);
    assert_eq!(w.offset, None);
}

#[test]
fn orderings_keep_their_order() {
    let mut q = base();
    q.order_by = vec![order("b", Direction::Ascending), order("a", Direction::Descending)];
    let w = compile(&q).unwrap();
    assert_eq!(
        w.order_by,
        vec![order("b", Direction::Ascending), order("a", Direction::Descending)]
    );
    let mut q2 = base();
    q2.order_by = vec![order("a", Direction::Ascending), order("b", Direction::Descending)];
    assert_eq!(
        compile(&q2).unwrap().order_by,
        vec![order("a", Direction::Ascending), order("b", Direction::Descending)]
    );
}

#[test]
fn cursors_limit_and_offset_pass_through() {
    let mut q = base();
    q.all_descendants = true;
    q.order_by = vec![order("a", Direction::Ascending), order("b", Direction::Descending)];
    q.start_at = Some(Cursor { values: vec![Value::Int(1)], before: true });
    q.end_at = Some(Cursor { values: vec![Value::Int(9), Value::Text("z".to_string())], before: false });
    q.limit = Some(10);
    q.offset = Some(0);
    let w = compile(&q).unwrap();
    assert!(w.from.all_descendants);
    let s = w.start_at.unwrap();
    assert_eq!(s.values, vec![TypedValue::IntegerValue(1)]);
    assert!(s.before);
    let e = w.end_at.unwrap();
    assert_eq!(
        e.values,
        vec![TypedValue::IntegerValue(9), TypedValue::StringValue("z".to_string())]
    );
    assert!(!e.before);
    assert_eq!(w.limit, Some(10));
    assert_eq!(w.offset, Some(0));
}

#[test]
fn cursor_longer_than_orderings_is_refused() {
    let mut q = base();
    q.order_by = vec![order("a", Direction::Ascending)];
    q.start_at = Some(Cursor { values: vec![Value::Int(1), Value::Int(2)], before: true });
    assert_eq!(compile(&q), Err(Error::Compile(CompileError::CursorTooLong)));
    let mut q2 = base();
    q2.end_at = Some(Cursor { values: vec![Value::Int(1)], before: false });
    assert_eq!(compile(&q2), Err(Error::Compile(CompileError::CursorTooLong)));
}

#[test]
fn negative_limit_or_offset_is_refused() {
    let mut q = base();
    q.limit = Some(-1);
    assert_eq!(compile(&q), Err(Error::Compile(CompileError::NegativeLimit)));
    let mut q2 = base();
    q2.offset = Some(-5);
    assert_eq!(compile(&q2), Err(Error::Compile(CompileError::NegativeOffset)));
}

#[test]
fn empty_field_path_is_refused() {
    let mut q = base();
    q.filters = vec![cond("", Operator::Equal, Value::Null)];
    assert_eq!(compile(&q), Err(Error::Compile(CompileError::EmptyFieldPath)));
    let mut q2 = base();
    q2.order_by = vec![order("", Direction::Ascending)];
    assert_eq!(compile(&q2), Err(Error::Compile(CompileError::EmptyFieldPath)));
    for bad in ["a..b", ".a", "a."] {
        let mut q3 = base();
        q3.order_by = vec![order(bad, Direction::Ascending)];
        assert_eq!(compile(&q3), Err(Error::Compile(CompileError::EmptyFieldPath)));
        let mut q4 = base();
        q4.filters = vec![cond(bad, Operator::Equal, Value::Null)];
        assert_eq!(compile(&q4), Err(Error::Compile(CompileError::EmptyFieldPath)));
    }
    let mut ok = base();
    ok.filters = vec![cond("address.city", Operator::Equal, Value::Null)];
    assert!(compile(&ok).is_ok());
}

#[test]
fn nested_groups_become_nested_composites() {
    let mut q = base();
    q.filters = vec![
        cond("a", Operator::Equal, Value::Int(1)),
        Filter::All(vec![
            cond("b", Operator::LessThan, Value::Int(2)),
            cond("c", Operator::In, Value::List(vec![Value::Int(3)])),
        ]),
    ];
    let c = compile(&q).unwrap().where_filter.unwrap();
    assert_eq!(
        c.filters[1],
        WireFilter::Composite(CompositeFilter {
            op: CompositeOp::And,
            filters: vec![
                WireFilter::Field(FieldFilter {
                    field: "b".to_string(),
                    op: Operator::LessThan,
                    value: TypedValue::IntegerValue(2),
                }),
                WireFilter::Field(FieldFilter {
                    field: "c".to_string(),
                    op: Operator::In,
                    value: TypedValue::ArrayValue(vec![TypedValue::IntegerValue(3)]),
                }),
            ],
        })
    );
    let mut bad = base();
    bad.filters = vec![Filter::All(vec![Filter::All(vec![cond("", Operator::Equal, Value::Null)])])];
    assert_eq!(compile(&bad), Err(Error::Compile(CompileError::EmptyFieldPath)));
}
