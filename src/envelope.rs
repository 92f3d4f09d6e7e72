use vstd::prelude::*;
use crate::error::Error;
use crate::value::{
    Model, Shape, TypedValue, Value, decode, decoded, encode, is_decode_error, is_well_formed, valid,
    well_formed,
};

verus! {

/// A document as the store sends and receives it: its absolute name (unset
/// until the document exists), its fields, and its timestamps.
#[derive(Debug, PartialEq)]
pub struct Document {
    pub name: Option<String>,
    pub fields: Vec<(String, TypedValue)>,
    pub create_time: Option<String>,
    pub update_time: Option<String>,
}

/// A native record: its fields in order, each with a value or absent.
pub type Record = Vec<(String, Option<Value>)>;

/// One slot of a record shape: a field's name, the shape of its value, and
/// whether a document must hold it.
#[derive(Debug, PartialEq)]
pub struct FieldSpec {
    pub name: String,
    pub shape: Shape,
    pub required: bool,
}

/// The model of a list of wire fields.
pub open spec fn fields_model(v: Seq<(String, TypedValue)>) -> Seq<(Seq<char>, Model)> {
    Seq::new(v.len(), |i: int| (v[i].0@, v[i].1.model()))
}

/// The model of the present fields of a native record, in order: a field
/// whose value is absent (`None`) is left out.
pub open spec fn present(r: Seq<(String, Option<Value>)>) -> Seq<(Seq<char>, Model)>
    decreases r.len(),
{
    if r.len() == 0 {
        Seq::empty()
    } else {
        let last = r.last();
        let rest = present(r.drop_last());
        match last.1 {
            Some(v) => rest.push((last.0@, v.model())),
            None => rest,
        }
    }
}

/// The index of the first field named `name` at or after `i`.
pub open spec fn find_from(f: Seq<(Seq<char>, Model)>, name: Seq<char>, i: int) -> Option<int>
    decreases f.len() - i,
{
    if i < 0 || i >= f.len() {
        None
    } else if f[i].0 == name {
        Some(i)
    } else {
        find_from(f, name, i + 1)
    }
}

/// The index of the first field named `name`.
pub open spec fn find(f: Seq<(Seq<char>, Model)>, name: Seq<char>) -> Option<int> {
    find_from(f, name, 0)
}

/// The slot `s` can be filled from the wire fields `f`.
pub open spec fn slot_ok(f: Seq<(Seq<char>, Model)>, s: FieldSpec) -> bool {
    match find(f, s.name@) {
        Some(k) => decoded(f[k].1, s.shape) is Some,
        None => !s.required,
    }
}

/// `e` is the error of filling slot `s` from the wire fields `f`.
pub open spec fn slot_error(f: Seq<(Seq<char>, Model)>, s: FieldSpec, e: Error) -> bool {
    match find(f, s.name@) {
        Some(k) => is_decode_error(e, f[k].1, s.shape, s.name@),
        None => s.required && e is MissingField && e->MissingField_0@ == s.name@,
    }
}

/// Slot `s` is filled with `v` from the wire fields `f`.
pub open spec fn slot_filled(f: Seq<(Seq<char>, Model)>, s: FieldSpec, v: (String, Option<Value>)) -> bool {
    &&& v.0@ == s.name@
    &&& match find(f, s.name@) {
        Some(k) => v.1 is Some && decoded(f[k].1, s.shape) == Some(v.1->0.model()),
        None => v.1 is None,
    }
}

/// `rec` is the record read with `shape` from the wire fields `f`.
pub open spec fn record_decoded(
    f: Seq<(Seq<char>, Model)>,
    shape: Seq<FieldSpec>,
    rec: Seq<(String, Option<Value>)>,
) -> bool {
    &&& rec.len() == shape.len()
    &&& forall|i: int| 0 <= i < shape.len() ==> #[trigger] slot_filled(f, shape[i], rec[i])
}

/// Every slot of `shape` can be filled from the wire fields `f`.
pub open spec fn all_slots_ok(f: Seq<(Seq<char>, Model)>, shape: Seq<FieldSpec>) -> bool {
    forall|i: int| 0 <= i < shape.len() ==> #[trigger] slot_ok(f, shape[i])
}

/// `e` is the error of the first slot of `shape` that cannot be filled.
pub open spec fn first_slot_error(f: Seq<(Seq<char>, Model)>, shape: Seq<FieldSpec>, e: Error) -> bool {
    exists|i: int|
        0 <= i < shape.len() && (forall|j: int| 0 <= j < i ==> #[trigger] slot_ok(f, shape[j]))
            && !slot_ok(f, shape[i]) && slot_error(f, shape[i], e)
}

proof fn lemma_find_from_bounds(f: Seq<(Seq<char>, Model)>, name: Seq<char>, i: int)
    ensures
        find_from(f, name, i) matches Some(k) ==> i <= k < f.len() && f[k].0 == name,
    decreases f.len() - i,
{
    if 0 <= i < f.len() && f[i].0 != name {
        lemma_find_from_bounds(f, name, i + 1);
    }
}

fn find_field(fields: &Vec<(String, TypedValue)>, name: &String) -> (r: Option<usize>)
    ensures
        r matches Some(k) ==> find(fields_model(fields@), name@) == Some(k as int),
        r is None ==> find(fields_model(fields@), name@) is None,
{
    let ghost f = fields_model(fields@);
    let mut i: usize = 0;
    while i < fields.len()
        invariant
            i <= fields@.len(),
            f == fields_model(fields@),
            find(f, name@) == find_from(f, name@, i as int),
        decreases fields@.len() - i,
    {
        if fields[i].0.eq(name) {
            assert(f[i as int].0 == name@);
            return Some(i);
        }
        i = i + 1;
    }
    None
}

/// Turns a native record into a document: each present field encoded, in
/// order; a field whose value is absent is left out (not written as null).
/// The name and the timestamps are left unset.
pub fn to_envelope(record: &Record) -> (r: Document)
    ensures
        r.name is None,
        r.create_time is None,
        r.update_time is None,
        fields_model(r.fields@) == present(record@),
{
    let mut out: Vec<(String, TypedValue)> = Vec::new();
    let mut i: usize = 0;
    while i < record.len()
        invariant
            i <= record@.len(),
            fields_model(out@) == present(record@.subrange(0, i as int)),
        decreases record@.len() - i,
    {
        let ghost before = out@;
        match &record[i].1 {
            Some(v) => {
                let e = encode(v);
                out.push((record[i].0.clone(), e));
                proof {
                    assert(fields_model(out@) =~= fields_model(before).push(
                        (record@[i as int].0@, v.model()),
                    ));
                }
            },
            None => {},
        }
        proof {
            assert(record@.subrange(0, i + 1).drop_last() =~= record@.subrange(0, i as int));
        }
        i = i + 1;
    }
    proof {
        assert(record@.subrange(0, i as int) =~= record@);
    }
    Document { name: None, fields: out, create_time: None, update_time: None }
}

/// Reads a native record of the shape `shape` from a document: for each slot,
/// in order, the first wire field of that name, decoded to the slot's shape.
/// A required slot without a field is `MissingField`; an optional one is left
/// absent. Wire fields that no slot names are ignored. The first slot that
/// cannot be filled gives the error.
pub fn from_envelope(doc: &Document, shape: &Vec<FieldSpec>) -> (r: Result<Record, Error>)
    ensures
        match r {
            Ok(rec) => record_decoded(fields_model(doc.fields@), shape@, rec@),
            Err(e) => first_slot_error(fields_model(doc.fields@), shape@, e),
        },
        r is Ok <==> all_slots_ok(fields_model(doc.fields@), shape@),
{
    let ghost f = fields_model(doc.fields@);
    let mut out: Vec<(String, Option<Value>)> = Vec::new();
    let mut i: usize = 0;
    while i < shape.len()
        invariant
            f == fields_model(doc.fields@),
            i <= shape@.len(),
            out@.len() == i,
            forall|j: int| 0 <= j < i ==> #[trigger] slot_filled(f, shape@[j], out@[j]),
            forall|j: int| 0 <= j < i ==> #[trigger] slot_ok(f, shape@[j]),
        decreases shape@.len() - i,
    {
        let spec = &shape[i];
        match find_field(&doc.fields, &spec.name) {
            Some(k) => {
                proof {
                    lemma_find_from_bounds(f, spec.name@, 0);
                }
                match decode(&doc.fields[k].1, &spec.shape) {
                    Ok(v) => {
                        out.push((spec.name.clone(), Some(v)));
                    },
                    Err(e) => {
                        let named = match e {
                            Error::TypeMismatch(_) => Error::TypeMismatch(spec.name.clone()),
                            _ => Error::MalformedTimestamp(spec.name.clone()),
                        };
                        proof {
                            assert(slot_error(f, shape@[i as int], named));
                            assert(!slot_ok(f, shape@[i as int]));
                        }
                        return Err(named);
                    },
                }
            },
            None => {
                if spec.required {
                    let e = Error::MissingField(spec.name.clone());
                    proof {
                        assert(slot_error(f, shape@[i as int], e));
                        assert(!slot_ok(f, shape@[i as int]));
                    }
                    return Err(e);
                }
                out.push((spec.name.clone(), None));
            },
        }
        proof {
            assert(slot_filled(f, shape@[i as int], out@[i as int]));
        }
        i = i + 1;
    }
    Ok(out)
}

/// A well-formed record: no two fields share a name, and every present value
/// is well formed.
pub open spec fn record_well_formed(r: Seq<(String, Option<Value>)>) -> bool {
    &&& forall|i: int, j: int| 0 <= i < j < r.len() ==> (#[trigger] r[i]).0@ != (#[trigger] r[j]).0@
    &&& forall|i: int| 0 <= i < r.len() ==> ((#[trigger] r[i]).1 matches Some(v) ==> well_formed(v.model()))
}

/// Whether a native record is well formed.
pub fn is_well_formed_record(r: &Record) -> (ok: bool)
    ensures
        ok == record_well_formed(r@),
{
    let mut i: usize = 0;
    while i < r.len()
        invariant
            i <= r@.len(),
            forall|a: int, b: int| 0 <= a < b < i ==> (#[trigger] r@[a]).0@ != (#[trigger] r@[b]).0@,
            forall|a: int| 0 <= a < i ==> ((#[trigger] r@[a]).1 matches Some(v) ==> well_formed(v.model())),
        decreases r@.len() - i,
    {
        if let Some(v) = &r[i].1 {
            if !is_well_formed(v) {
                return false;
            }
        }
        let mut k: usize = 0;
        while k < i
            invariant
                k <= i < r@.len(),
                forall|a: int| 0 <= a < k ==> r@[a].0@ != r@[i as int].0@,
            decreases i - k,
        {
            if r[k].0.eq(&r[i].0) {
                return false;
            }
            k = k + 1;
        }
        i = i + 1;
    }
    true
}

proof fn lemma_present_all(r: Seq<(String, Option<Value>)>)
    requires
        forall|i: int| 0 <= i < r.len() ==> (#[trigger] r[i]).1 is Some,
    ensures
        present(r).len() == r.len(),
        forall|i: int|
            0 <= i < r.len() ==> #[trigger] present(r)[i] == (r[i].0@, r[i].1->0.model()),
    decreases r.len(),
{
    if r.len() > 0 {
        lemma_present_all(r.drop_last());
        assert forall|i: int| 0 <= i < r.len() - 1 implies r.drop_last()[i] == r[i] by {}
    }
}

proof fn lemma_find_distinct(f: Seq<(Seq<char>, Model)>, name: Seq<char>, j: int, i: int)
    requires
        0 <= j <= i < f.len(),
        f[i].0 == name,
        forall|k: int| j <= k < i ==> (#[trigger] f[k]).0 != name,
    ensures
        find_from(f, name, j) == Some(i),
    decreases i - j,
{
    if j < i {
        lemma_find_distinct(f, name, j + 1, i);
    }
}

/// Writing a record whose fields are all present, with distinct names and
/// well-formed timestamps (as in every record with no absent field that
/// `is_well_formed_record` accepts), and reading it back with a slot of any shape for
/// each of its fields, in order, gives the record back.
pub proof fn lemma_record_round_trip(r: Seq<(String, Option<Value>)>, shape: Seq<FieldSpec>)
    requires
        shape.len() == r.len(),
        forall|i: int|
            0 <= i < r.len() ==> (#[trigger] r[i]).1 is Some && valid(r[i].1->0.model())
                && shape[i].name@ == r[i].0@ && shape[i].shape == Shape::Any,
        forall|i: int, j: int| 0 <= i < j < r.len() ==> (#[trigger] r[i]).0@ != (#[trigger] r[j]).0@,
    ensures
        all_slots_ok(present(r), shape),
        forall|rec: Seq<(String, Option<Value>)>|
            #[trigger] record_decoded(present(r), shape, rec) ==> forall|i: int|
                0 <= i < r.len() ==> (#[trigger] rec[i]).0@ == r[i].0@ && rec[i].1 is Some
                    && rec[i].1->0.model() == r[i].1->0.model(),
{
    lemma_present_all(r);
    let f = present(r);
    assert forall|i: int| 0 <= i < r.len() implies find(f, #[trigger] shape[i].name@) == Some(i) by {
        assert forall|k: int| 0 <= k < i implies (#[trigger] f[k]).0 != shape[i].name@ by {
            assert(f[k] == (r[k].0@, r[k].1->0.model()));
            assert(r[k].0@ != r[i].0@);
        }
        assert(f[i] == (r[i].0@, r[i].1->0.model()));
        lemma_find_distinct(f, shape[i].name@, 0, i);
    }
    assert forall|i: int| 0 <= i < shape.len() implies #[trigger] slot_ok(f, shape[i]) by {
        assert(find(f, shape[i].name@) == Some(i));
        assert(f[i].1 == r[i].1->0.model());
    }
    assert forall|rec: Seq<(String, Option<Value>)>| #[trigger] record_decoded(f, shape, rec)
        implies forall|i: int|
        0 <= i < r.len() ==> (#[trigger] rec[i]).0@ == r[i].0@ && rec[i].1 is Some
            && rec[i].1->0.model() == r[i].1->0.model() by {
        assert forall|i: int| 0 <= i < r.len() implies (#[trigger] rec[i]).0@ == r[i].0@
            && rec[i].1 is Some && rec[i].1->0.model() == r[i].1->0.model() by {
            assert(slot_filled(f, shape[i], rec[i]));
            assert(find(f, shape[i].name@) == Some(i));
            assert(f[i].1 == r[i].1->0.model());
        }
    }
}

} // verus!
