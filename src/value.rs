use vstd::prelude::*;
use crate::error::Error;
use crate::timestamp::{is_rfc3339, check_timestamp};

verus! {

/// What a value is, apart from how it is held: the model of both the native
/// and the wire representation. Doubles are kept as their IEEE 754 bits.
pub enum Model {
    Null,
    Boolean(bool),
    Integer(i64),
    Double(u64),
    Timestamp(Seq<char>),
    Text(Seq<char>),
    Bytes(Seq<u8>),
    Reference(Seq<char>),
    GeoPoint(u64, u64),
    Array(Seq<Model>),
    Fields(Seq<(Seq<char>, Model)>),
}

/// A native value, as application code holds it. A floating-point number is
/// held as its IEEE 754 bit pattern (`f64::to_bits`), so that it is never
/// confused with an integer.
#[derive(Debug, PartialEq)]
pub enum Value {
    Null,
    Bool(bool),
    Int(i64),
    Float(u64),
    Timestamp(String),
    Text(String),
    Bytes(Vec<u8>),
    Reference(String),
    GeoPoint { latitude: u64, longitude: u64 },
    List(Vec<Value>),
    Record(Vec<(String, Value)>),
}

/// A typed value of the wire format: one variant per wire tag.
#[derive(Debug, PartialEq)]
pub enum TypedValue {
    NullValue,
    BooleanValue(bool),
    IntegerValue(i64),
    DoubleValue(u64),
    TimestampValue(String),
    StringValue(String),
    BytesValue(Vec<u8>),
    ReferenceValue(String),
    GeoPointValue { latitude: u64, longitude: u64 },
    ArrayValue(Vec<TypedValue>),
    MapValue(Vec<(String, TypedValue)>),
}

/// The shape that a decoded value is asked to have.
#[derive(Debug, PartialEq)]
pub enum Shape {
    Any,
    Null,
    Boolean,
    Integer,
    Double,
    Timestamp,
    Text,
    Bytes,
    Reference,
    GeoPoint,
    /// An array whose every element has the given shape.
    Array(Box<Shape>),
    /// A map whose every member has the given shape.
    Fields(Box<Shape>),
}

impl Value {
    /// What the value is.
    pub open spec fn model(self) -> Model
        decreases self,
    {
        match self {
            Value::Null => Model::Null,
            Value::Bool(b) => Model::Boolean(b),
            Value::Int(n) => Model::Integer(n),
            Value::Float(bits) => Model::Double(bits),
            Value::Timestamp(t) => Model::Timestamp(t@),
            Value::Text(t) => Model::Text(t@),
            Value::Bytes(b) => Model::Bytes(b@),
            Value::Reference(r) => Model::Reference(r@),
            Value::GeoPoint { latitude, longitude } => Model::GeoPoint(latitude, longitude),
            Value::List(items) => Model::Array(
                Seq::new(
                    items@.len(),
                    |i: int| if 0 <= i < items@.len() { items@[i].model() } else { Model::Null },
                ),
            ),
            Value::Record(entries) => Model::Fields(
                Seq::new(
                    entries@.len(),
                    |i: int|
                        if 0 <= i < entries@.len() {
                            (entries@[i].0@, entries@[i].1.model())
                        } else {
                            (Seq::empty(), Model::Null)
                        },
                ),
            ),
        }
    }
}

impl TypedValue {
    /// What the value is.
    pub open spec fn model(self) -> Model
        decreases self,
    {
        match self {
            TypedValue::NullValue => Model::Null,
            TypedValue::BooleanValue(b) => Model::Boolean(b),
            TypedValue::IntegerValue(n) => Model::Integer(n),
            TypedValue::DoubleValue(bits) => Model::Double(bits),
            TypedValue::TimestampValue(t) => Model::Timestamp(t@),
            TypedValue::StringValue(t) => Model::Text(t@),
            TypedValue::BytesValue(b) => Model::Bytes(b@),
            TypedValue::ReferenceValue(r) => Model::Reference(r@),
            TypedValue::GeoPointValue { latitude, longitude } => Model::GeoPoint(latitude, longitude),
            TypedValue::ArrayValue(items) => Model::Array(
                Seq::new(
                    items@.len(),
                    |i: int| if 0 <= i < items@.len() { items@[i].model() } else { Model::Null },
                ),
            ),
            TypedValue::MapValue(entries) => Model::Fields(
                Seq::new(
                    entries@.len(),
                    |i: int|
                        if 0 <= i < entries@.len() {
                            (entries@[i].0@, entries@[i].1.model())
                        } else {
                            (Seq::empty(), Model::Null)
                        },
                ),
            ),
        }
    }
}

/// `m` has shape `s`: its tag is the one that `s` asks for, and so are those
/// of its members, as deep as `s` goes. Every value has the shape `Any`.
pub open spec fn fits(m: Model, s: Shape) -> bool
    decreases m,
{
    match s {
        Shape::Any => true,
        Shape::Null => m is Null,
        Shape::Boolean => m is Boolean,
        Shape::Integer => m is Integer,
        Shape::Double => m is Double,
        Shape::Timestamp => m is Timestamp,
        Shape::Text => m is Text,
        Shape::Bytes => m is Bytes,
        Shape::Reference => m is Reference,
        Shape::GeoPoint => m is GeoPoint,
        Shape::Array(e) => match m {
            Model::Array(items) => forall|i: int| #![trigger items[i]]
                0 <= i < items.len() ==> fits(items[i], *e),
            _ => false,
        },
        Shape::Fields(e) => match m {
            Model::Fields(entries) => forall|i: int| #![trigger entries[i]]
                0 <= i < entries.len() ==> fits(entries[i].1, *e),
            _ => false,
        },
    }
}

/// Every timestamp within `m` is an RFC 3339 instant.
pub open spec fn valid(m: Model) -> bool
    decreases m,
{
    match m {
        Model::Timestamp(t) => is_rfc3339(t),
        Model::Array(items) => forall|i: int| #![trigger items[i]]
            0 <= i < items.len() ==> valid(items[i]),
        Model::Fields(entries) => forall|i: int| #![trigger entries[i]]
            0 <= i < entries.len() ==> valid(entries[i].1),
        _ => true,
    }
}

/// No two entries of a map share a name.
pub open spec fn names_unique(entries: Seq<(Seq<char>, Model)>) -> bool {
    forall|i: int, j: int|
        0 <= i < j < entries.len() ==> (#[trigger] entries[i]).0 != (#[trigger] entries[j]).0
}

/// Every map within `m` has unique names.
pub open spec fn unique_names(m: Model) -> bool
    decreases m,
{
    match m {
        Model::Array(items) => forall|i: int| #![trigger items[i]]
            0 <= i < items.len() ==> unique_names(items[i]),
        Model::Fields(entries) => names_unique(entries) && forall|i: int| #![trigger entries[i]]
            0 <= i < entries.len() ==> unique_names(entries[i].1),
        _ => true,
    }
}

/// A well-formed value: its timestamps are RFC 3339 instants and the names of
/// each of its maps are unique.
pub open spec fn well_formed(m: Model) -> bool {
    valid(m) && unique_names(m)
}

/// What decoding a wire value of model `m` into shape `s` gives: the same
/// value, where it has the shape and its timestamps are well formed.
pub open spec fn decoded(m: Model, s: Shape) -> Option<Model> {
    if fits(m, s) && valid(m) {
        Some(m)
    } else {
        None
    }
}

fn copy_bytes(b: &Vec<u8>) -> (r: Vec<u8>)
    ensures
        r@ == b@,
{
    let mut r: Vec<u8> = Vec::new();
    let mut i: usize = 0;
    while i < b.len()
        invariant
            i <= b@.len(),
            r@ == b@.subrange(0, i as int),
        decreases b@.len() - i,
    {
        r.push(b[i]);
        i = i + 1;
        assert(r@ =~= b@.subrange(0, i as int));
    }
    assert(b@.subrange(0, i as int) =~= b@);
    r
}

/// Encodes a native value as a wire typed value, tag for tag: integers as
/// integers, doubles as doubles (an integral double stays a double), arrays
/// and maps member by member, in order.
pub fn encode(v: &Value) -> (r: TypedValue)
    ensures
        r.model() == v.model(),
    decreases v,
{
    match v {
        Value::Null => TypedValue::NullValue,
        Value::Bool(b) => TypedValue::BooleanValue(*b),
        Value::Int(n) => TypedValue::IntegerValue(*n),
        Value::Float(bits) => TypedValue::DoubleValue(*bits),
        Value::Timestamp(t) => TypedValue::TimestampValue(t.clone()),
        Value::Text(t) => TypedValue::StringValue(t.clone()),
        Value::Bytes(b) => TypedValue::BytesValue(copy_bytes(b)),
        Value::Reference(t) => TypedValue::ReferenceValue(t.clone()),
        Value::GeoPoint { latitude, longitude } => TypedValue::GeoPointValue {
            latitude: *latitude,
            longitude: *longitude,
        },
        Value::List(items) => {
            let mut out: Vec<TypedValue> = Vec::new();
            let mut i: usize = 0;
            while i < items.len()
                invariant
                    decreases_to!(*v => *items),
                    i <= items@.len(),
                    out@.len() == i,
                    forall|j: int| 0 <= j < i ==> #[trigger] out@[j].model() == items@[j].model(),
                decreases items@.len() - i,
            {
                proof {
                    vstd::std_specs::vec::axiom_vec_index_decreases(*items, i as int);
                    assert(decreases_to!(*v => items[i as int]));
                }
                let e = encode(&items[i]);
                out.push(e);
                i = i + 1;
            }
            let r = TypedValue::ArrayValue(out);
            proof {
                assert(r.model()->Array_0 =~= v.model()->Array_0) by {
                    assert forall|j: int| 0 <= j < out@.len() implies r.model()->Array_0[j]
                        == v.model()->Array_0[j] by {
                        assert(out@[j].model() == items@[j].model());
                    }
                }
            }
            r
        },
        Value::Record(entries) => {
            let mut out: Vec<(String, TypedValue)> = Vec::new();
            let mut i: usize = 0;
            while i < entries.len()
                invariant
                    decreases_to!(*v => *entries),
                    i <= entries@.len(),
                    out@.len() == i,
                    forall|j: int|
                        0 <= j < i ==> #[trigger] out@[j].0@ == entries@[j].0@ && out@[j].1.model()
                            == entries@[j].1.model(),
                decreases entries@.len() - i,
            {
                proof {
                    vstd::std_specs::vec::axiom_vec_index_decreases(*entries, i as int);
                    assert(decreases_to!(entries[i as int] => entries[i as int].1));
                    assert(decreases_to!(*v => entries[i as int].1));
                }
                let e = encode(&entries[i].1);
                out.push((entries[i].0.clone(), e));
                i = i + 1;
            }
            let r = TypedValue::MapValue(out);
            proof {
                assert(r.model()->Fields_0 =~= v.model()->Fields_0);
            }
            r
        },
    }
}

/// `e` is the error of decoding a value of model `m`, held by field `field`,
/// into shape `s`, where it cannot be decoded: a value whose tags do not fit
/// the shape is a `TypeMismatch`, else one with a timestamp that is not
/// RFC 3339 is a `MalformedTimestamp`; either names the field.
pub open spec fn is_decode_error(e: Error, m: Model, s: Shape, field: Seq<char>) -> bool {
    if !fits(m, s) {
        e is TypeMismatch && e->TypeMismatch_0@ == field
    } else {
        e is MalformedTimestamp && e->MalformedTimestamp_0@ == field
    }
}

/// Whether the tags of `t` fit `shape`, as deep as `shape` goes.
fn fits_exec(t: &TypedValue, shape: &Shape) -> (r: bool)
    ensures
        r == fits(t.model(), *shape),
    decreases t,
{
    match shape {
        Shape::Any => true,
        Shape::Null => matches!(t, TypedValue::NullValue),
        Shape::Boolean => matches!(t, TypedValue::BooleanValue(_)),
        Shape::Integer => matches!(t, TypedValue::IntegerValue(_)),
        Shape::Double => matches!(t, TypedValue::DoubleValue(_)),
        Shape::Timestamp => matches!(t, TypedValue::TimestampValue(_)),
        Shape::Text => matches!(t, TypedValue::StringValue(_)),
        Shape::Bytes => matches!(t, TypedValue::BytesValue(_)),
        Shape::Reference => matches!(t, TypedValue::ReferenceValue(_)),
        Shape::GeoPoint => matches!(t, TypedValue::GeoPointValue { .. }),
        Shape::Array(elem) => match t {
            TypedValue::ArrayValue(items) => {
                let mut i: usize = 0;
                while i < items.len()
                    invariant
                        decreases_to!(*t => *items),
                        t.model() == TypedValue::ArrayValue(*items).model(),
                        *shape == Shape::Array(Box::new(**elem)),
                        i <= items@.len(),
                        forall|j: int| 0 <= j < i ==> fits(#[trigger] items@[j].model(), **elem),
                    decreases items@.len() - i,
                {
                    proof {
                        vstd::std_specs::vec::axiom_vec_index_decreases(*items, i as int);
                    }
                    if !fits_exec(&items[i], elem) {
                        proof {
                            assert(t.model()->Array_0[i as int] == items@[i as int].model());
                            if fits(t.model(), *shape) {
                                lemma_array_member_fits(t.model(), *shape, **elem, i as int);
                            }
                        }
                        return false;
                    }
                    i = i + 1;
                }
                proof {
                    assert forall|j: int| 0 <= j < items@.len() implies fits(
                        #[trigger] t.model()->Array_0[j],
                        **elem,
                    ) by {
                        assert(t.model()->Array_0[j] == items@[j].model());
                    }
                }
                true
            },
            _ => false,
        },
        Shape::Fields(elem) => match t {
            TypedValue::MapValue(entries) => {
                let mut i: usize = 0;
                while i < entries.len()
                    invariant
                        decreases_to!(*t => *entries),
                        t.model() == TypedValue::MapValue(*entries).model(),
                        *shape == Shape::Fields(Box::new(**elem)),
                        i <= entries@.len(),
                        forall|j: int|
                            0 <= j < i ==> fits(#[trigger] entries@[j].1.model(), **elem),
                    decreases entries@.len() - i,
                {
                    proof {
                        vstd::std_specs::vec::axiom_vec_index_decreases(*entries, i as int);
                        assert(decreases_to!(entries[i as int] => entries[i as int].1));
                    }
                    if !fits_exec(&entries[i].1, elem) {
                        proof {
                            assert(t.model()->Fields_0[i as int].1 == entries@[i as int].1.model());
                            if fits(t.model(), *shape) {
                                lemma_fields_member_fits(t.model(), *shape, **elem, i as int);
                            }
                        }
                        return false;
                    }
                    i = i + 1;
                }
                proof {
                    assert forall|j: int| 0 <= j < entries@.len() implies fits(
                        #[trigger] t.model()->Fields_0[j].1,
                        **elem,
                    ) by {
                        assert(t.model()->Fields_0[j].1 == entries@[j].1.model());
                    }
                }
                true
            },
            _ => false,
        },
    }
}

/// Decodes a wire typed value into a native value of shape `shape`. The
/// value keeps its model; a reference keeps its absolute name verbatim. A
/// value whose tags do not fit the shape is a `TypeMismatch`; else a
/// timestamp in it that is not RFC 3339 is a `MalformedTimestamp`.
pub fn decode(t: &TypedValue, shape: &Shape) -> (r: Result<Value, Error>)
    ensures
        match r {
            Ok(v) => decoded(t.model(), *shape) == Some(v.model()),
            Err(e) => decoded(t.model(), *shape) is None && is_decode_error(
                e,
                t.model(),
                *shape,
                Seq::empty(),
            ),
        },
{
    if !fits_exec(t, shape) {
        return Err(Error::TypeMismatch(String::new()));
    }
    match decode_members(t, shape) {
        Ok(v) => Ok(v),
        Err(_) => Err(Error::MalformedTimestamp(String::new())),
    }
}

fn decode_members(t: &TypedValue, shape: &Shape) -> (r: Result<Value, Error>)
    ensures
        match r {
            Ok(v) => decoded(t.model(), *shape) == Some(v.model()),
            Err(e) => decoded(t.model(), *shape) is None && ((e is TypeMismatch && !fits(
                t.model(),
                *shape,
            )) || (e is MalformedTimestamp && !valid(t.model()))),
        },
    decreases t,
{
    match t {
        TypedValue::NullValue => match shape {
            Shape::Any | Shape::Null => Ok(Value::Null),
            _ => Err(Error::TypeMismatch(String::new())),
        },
        TypedValue::BooleanValue(b) => match shape {
            Shape::Any | Shape::Boolean => Ok(Value::Bool(*b)),
            _ => Err(Error::TypeMismatch(String::new())),
        },
        TypedValue::IntegerValue(n) => match shape {
            Shape::Any | Shape::Integer => Ok(Value::Int(*n)),
            _ => Err(Error::TypeMismatch(String::new())),
        },
        TypedValue::DoubleValue(bits) => match shape {
            Shape::Any | Shape::Double => Ok(Value::Float(*bits)),
            _ => Err(Error::TypeMismatch(String::new())),
        },
        TypedValue::TimestampValue(ts) => match shape {
            Shape::Any | Shape::Timestamp => {
                if check_timestamp(ts.as_str()) {
                    Ok(Value::Timestamp(ts.clone()))
                } else {
                    Err(Error::MalformedTimestamp(String::new()))
                }
            },
            _ => Err(Error::TypeMismatch(String::new())),
        },
        TypedValue::StringValue(text) => match shape {
            Shape::Any | Shape::Text => Ok(Value::Text(text.clone())),
            _ => Err(Error::TypeMismatch(String::new())),
        },
        TypedValue::BytesValue(b) => match shape {
            Shape::Any | Shape::Bytes => Ok(Value::Bytes(copy_bytes(b))),
            _ => Err(Error::TypeMismatch(String::new())),
        },
        TypedValue::ReferenceValue(name) => match shape {
            Shape::Any | Shape::Reference => Ok(Value::Reference(name.clone())),
            _ => Err(Error::TypeMismatch(String::new())),
        },
        TypedValue::GeoPointValue { latitude, longitude } => match shape {
            Shape::Any | Shape::GeoPoint => Ok(
                Value::GeoPoint { latitude: *latitude, longitude: *longitude },
            ),
            _ => Err(Error::TypeMismatch(String::new())),
        },
        TypedValue::ArrayValue(items) => {
            let elem: &Shape = match shape {
                Shape::Any => &Shape::Any,
                Shape::Array(e) => e,
                _ => {
                    return Err(Error::TypeMismatch(String::new()));
                },
            };
            let mut out: Vec<Value> = Vec::new();
            let mut i: usize = 0;
            while i < items.len()
                invariant
                    decreases_to!(*t => *items),
                    t.model() == TypedValue::ArrayValue(*items).model(),
                    *shape is Any ==> *elem == Shape::Any,
                    *shape is Any || *shape == Shape::Array(Box::new(*elem)),
                    i <= items@.len(),
                    out@.len() == i,
                    forall|j: int| 0 <= j < i ==> #[trigger] out@[j].model() == items@[j].model(),
                    forall|j: int|
                        0 <= j < i ==> fits(#[trigger] items@[j].model(), *elem) && valid(
                            items@[j].model(),
                        ),
                decreases items@.len() - i,
            {
                proof {
                    vstd::std_specs::vec::axiom_vec_index_decreases(*items, i as int);
                }
                let d = decode_members(&items[i], elem);
                match d {
                    Ok(e) => {
                        out.push(e);
                    },
                    Err(e) => {
                        proof {
                            let child = t.model()->Array_0[i as int];
                            assert(child == items@[i as int].model());
                            if fits(t.model(), *shape) {
                                lemma_array_member_fits(t.model(), *shape, *elem, i as int);
                            }
                            if valid(t.model()) {
                                lemma_array_member_valid(t.model(), i as int);
                            }
                            if e is TypeMismatch {
                                assert(!fits(child, *elem));
                                assert(!fits(t.model(), *shape));
                            } else {
                                assert(!valid(child));
                                assert(!valid(t.model()));
                            }
                        }
                        return Err(e);
                    },
                }
                i = i + 1;
            }
            let r = Value::List(out);
            proof {
                assert(r.model()->Array_0 =~= t.model()->Array_0) by {
                    assert forall|j: int| 0 <= j < out@.len() implies r.model()->Array_0[j]
                        == t.model()->Array_0[j] by {
                        assert(out@[j].model() == items@[j].model());
                    }
                }
                assert forall|j: int| 0 <= j < items@.len() implies fits(
                    #[trigger] t.model()->Array_0[j],
                    *elem,
                ) && valid(t.model()->Array_0[j]) by {
                    assert(t.model()->Array_0[j] == items@[j].model());
                }
            }
            Ok(r)
        },
        TypedValue::MapValue(entries) => {
            let elem: &Shape = match shape {
                Shape::Any => &Shape::Any,
                Shape::Fields(e) => e,
                _ => {
                    return Err(Error::TypeMismatch(String::new()));
                },
            };
            let mut out: Vec<(String, Value)> = Vec::new();
            let mut i: usize = 0;
            while i < entries.len()
                invariant
                    decreases_to!(*t => *entries),
                    t.model() == TypedValue::MapValue(*entries).model(),
                    *shape is Any ==> *elem == Shape::Any,
                    *shape is Any || *shape == Shape::Fields(Box::new(*elem)),
                    i <= entries@.len(),
                    out@.len() == i,
                    forall|j: int|
                        0 <= j < i ==> #[trigger] out@[j].0@ == entries@[j].0@ && out@[j].1.model()
                            == entries@[j].1.model(),
                    forall|j: int|
                        0 <= j < i ==> fits(#[trigger] entries@[j].1.model(), *elem) && valid(
                            entries@[j].1.model(),
                        ),
                decreases entries@.len() - i,
            {
                proof {
                    vstd::std_specs::vec::axiom_vec_index_decreases(*entries, i as int);
                    assert(decreases_to!(entries[i as int] => entries[i as int].1));
                }
                let d = decode_members(&entries[i].1, elem);
                match d {
                    Ok(e) => {
                        out.push((entries[i].0.clone(), e));
                    },
                    Err(e) => {
                        proof {
                            let child = t.model()->Fields_0[i as int].1;
                            assert(child == entries@[i as int].1.model());
                            if fits(t.model(), *shape) {
                                lemma_fields_member_fits(t.model(), *shape, *elem, i as int);
                            }
                            if valid(t.model()) {
                                lemma_fields_member_valid(t.model(), i as int);
                            }
                            if e is TypeMismatch {
                                assert(!fits(child, *elem));
                                assert(!fits(t.model(), *shape));
                            } else {
                                assert(!valid(child));
                                assert(!valid(t.model()));
                            }
                        }
                        return Err(e);
                    },
                }
                i = i + 1;
            }
            let r = Value::Record(out);
            proof {
                assert(r.model()->Fields_0 =~= t.model()->Fields_0);
                assert forall|j: int| 0 <= j < entries@.len() implies fits(
                    #[trigger] t.model()->Fields_0[j].1,
                    *elem,
                ) && valid(t.model()->Fields_0[j].1) by {
                    assert(t.model()->Fields_0[j].1 == entries@[j].1.model());
                }
            }
            Ok(r)
        },
    }
}

proof fn lemma_array_member_valid(m: Model, i: int)
    requires
        m is Array,
        0 <= i < m->Array_0.len(),
        valid(m),
    ensures
        valid(m->Array_0[i]),
{
}

proof fn lemma_array_member_fits(m: Model, s: Shape, e: Shape, i: int)
    requires
        m is Array,
        0 <= i < m->Array_0.len(),
        s is Any ==> e == Shape::Any,
        s is Any || s == Shape::Array(Box::new(e)),
        fits(m, s),
    ensures
        fits(m->Array_0[i], e),
{
}

proof fn lemma_fields_member_valid(m: Model, i: int)
    requires
        m is Fields,
        0 <= i < m->Fields_0.len(),
        valid(m),
    ensures
        valid(m->Fields_0[i].1),
{
}

proof fn lemma_fields_member_fits(m: Model, s: Shape, e: Shape, i: int)
    requires
        m is Fields,
        0 <= i < m->Fields_0.len(),
        s is Any ==> e == Shape::Any,
        s is Any || s == Shape::Fields(Box::new(e)),
        fits(m, s),
    ensures
        fits(m->Fields_0[i].1, e),
{
}

/// The shallow shape of a value: its own tag, with members of any shape.
pub open spec fn kind_of(m: Model) -> Shape {
    match m {
        Model::Null => Shape::Null,
        Model::Boolean(_) => Shape::Boolean,
        Model::Integer(_) => Shape::Integer,
        Model::Double(_) => Shape::Double,
        Model::Timestamp(_) => Shape::Timestamp,
        Model::Text(_) => Shape::Text,
        Model::Bytes(_) => Shape::Bytes,
        Model::Reference(_) => Shape::Reference,
        Model::GeoPoint(_, _) => Shape::GeoPoint,
        Model::Array(_) => Shape::Array(Box::new(Shape::Any)),
        Model::Fields(_) => Shape::Fields(Box::new(Shape::Any)),
    }
}

/// Decoding what `encode` made of a native value, whose timestamps are well
/// formed (as in every value that `is_well_formed` accepts), gives that value
/// back, whether any shape or the value's own kind
/// is asked for; `encode` keeps the model, so this holds of nested arrays and
/// maps at every depth.
pub proof fn lemma_round_trip(v: Value)
    requires
        valid(v.model()),
    ensures
        decoded(v.model(), Shape::Any) == Some(v.model()),
        decoded(v.model(), kind_of(v.model())) == Some(v.model()),
{
    match v.model() {
        Model::Array(items) => {
            assert forall|i: int| 0 <= i < items.len() implies fits(items[i], Shape::Any) by {}
        },
        Model::Fields(entries) => {
            assert forall|i: int| 0 <= i < entries.len() implies fits(entries[i].1, Shape::Any) by {}
        },
        _ => {},
    }
}

/// A double, integral or not, decodes as a double and never as an integer;
/// an integer decodes as an integer and never as a double.
pub proof fn lemma_number_kinds_kept(bits: u64, n: i64)
    ensures
        decoded(Model::Double(bits), Shape::Any) == Some(Model::Double(bits)),
        decoded(Model::Double(bits), Shape::Integer) is None,
        decoded(Model::Integer(n), Shape::Any) == Some(Model::Integer(n)),
        decoded(Model::Integer(n), Shape::Double) is None,
{
}

proof fn lemma_array_member_unique(m: Model, i: int)
    requires
        m is Array,
        0 <= i < m->Array_0.len(),
        unique_names(m),
    ensures
        unique_names(m->Array_0[i]),
{
}

proof fn lemma_fields_member_unique(m: Model, i: int)
    requires
        m is Fields,
        0 <= i < m->Fields_0.len(),
        unique_names(m),
    ensures
        unique_names(m->Fields_0[i].1),
{
}

/// Whether a native value is well formed: every timestamp in it is an
/// RFC 3339 instant and no map in it repeats a name.
pub fn is_well_formed(v: &Value) -> (r: bool)
    ensures
        r == well_formed(v.model()),
    decreases v,
{
    match v {
        Value::Timestamp(t) => check_timestamp(t.as_str()),
        Value::List(items) => {
            let mut i: usize = 0;
            while i < items.len()
                invariant
                    decreases_to!(*v => *items),
                    v.model() == Value::List(*items).model(),
                    i <= items@.len(),
                    forall|j: int| 0 <= j < i ==> well_formed(#[trigger] items@[j].model()),
                decreases items@.len() - i,
            {
                proof {
                    vstd::std_specs::vec::axiom_vec_index_decreases(*items, i as int);
                }
                if !is_well_formed(&items[i]) {
                    proof {
                        assert(v.model()->Array_0[i as int] == items@[i as int].model());
                        if valid(v.model()) {
                            lemma_array_member_valid(v.model(), i as int);
                        }
                        if unique_names(v.model()) {
                            lemma_array_member_unique(v.model(), i as int);
                        }
                    }
                    return false;
                }
                i = i + 1;
            }
            proof {
                assert forall|j: int| 0 <= j < items@.len() implies well_formed(
                    #[trigger] v.model()->Array_0[j],
                ) by {
                    assert(v.model()->Array_0[j] == items@[j].model());
                }
            }
            true
        },
        Value::Record(entries) => {
            let mut i: usize = 0;
            while i < entries.len()
                invariant
                    decreases_to!(*v => *entries),
                    v.model() == Value::Record(*entries).model(),
                    i <= entries@.len(),
                    forall|j: int| 0 <= j < i ==> well_formed(#[trigger] entries@[j].1.model()),
                    forall|a: int, b: int|
                        0 <= a < b < i ==> (#[trigger] entries@[a]).0@ != (#[trigger] entries@[b]).0@,
                decreases entries@.len() - i,
            {
                proof {
                    vstd::std_specs::vec::axiom_vec_index_decreases(*entries, i as int);
                    assert(decreases_to!(entries[i as int] => entries[i as int].1));
                }
                if !is_well_formed(&entries[i].1) {
                    proof {
                        assert(v.model()->Fields_0[i as int].1 == entries@[i as int].1.model());
                        if valid(v.model()) {
                            lemma_fields_member_valid(v.model(), i as int);
                        }
                        if unique_names(v.model()) {
                            lemma_fields_member_unique(v.model(), i as int);
                        }
                    }
                    return false;
                }
                let mut k: usize = 0;
                while k < i
                    invariant
                        v.model() == Value::Record(*entries).model(),
                        k <= i < entries@.len(),
                        forall|a: int| 0 <= a < k ==> entries@[a].0@ != entries@[i as int].0@,
                    decreases i - k,
                {
                    if entries[k].0.eq(&entries[i].0) {
                        proof {
                            let f = v.model()->Fields_0;
                            assert(f[k as int].0 == entries@[k as int].0@);
                            assert(f[i as int].0 == entries@[i as int].0@);
                            assert(!names_unique(f));
                        }
                        return false;
                    }
                    k = k + 1;
                }
                i = i + 1;
            }
            proof {
                let f = v.model()->Fields_0;
                assert forall|j: int| 0 <= j < entries@.len() implies well_formed(
                    #[trigger] f[j].1,
                ) by {
                    assert(f[j].1 == entries@[j].1.model());
                }
                assert forall|a: int, b: int| 0 <= a < b < f.len() implies (#[trigger] f[a]).0
                    != (#[trigger] f[b]).0 by {
                    assert(f[a].0 == entries@[a].0@);
                    assert(f[b].0 == entries@[b].0@);
                }
            }
            true
        },
        _ => true,
    }
}

} // verus!
