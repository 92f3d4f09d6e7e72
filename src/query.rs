use vstd::prelude::*;
use crate::error::{CompileError, Error};
use crate::value::{TypedValue, Value, encode};

verus! {

/// The comparison of a field filter, as the wire names it.
#[derive(Clone, Copy, Debug, PartialEq, Eq, Structural)]
pub enum Operator {
    LessThan,
    LessThanOrEqual,
    GreaterThan,
    GreaterThanOrEqual,
    Equal,
    NotEqual,
    ArrayContains,
    In,
    ArrayContainsAny,
    NotIn,
}

/// The direction of an ordering.
#[derive(Clone, Copy, Debug, PartialEq, Eq, Structural)]
pub enum Direction {
    Ascending,
    Descending,
}

/// The operator of a composite filter.
#[derive(Clone, Copy, Debug, PartialEq, Eq, Structural)]
pub enum CompositeOp {
    And,
}

/// A condition on one field: `field op value`.
#[derive(Debug, PartialEq)]
pub struct Condition {
    pub field: String,
    pub op: Operator,
    pub value: Value,
}

/// An ordering on one field.
#[derive(Debug, PartialEq)]
pub struct Order {
    pub field: String,
    pub direction: Direction,
}

/// A pagination boundary: values aligned with the orderings, and whether
/// the boundary lies before them.
#[derive(Debug, PartialEq)]
pub struct Cursor {
    pub values: Vec<Value>,
    pub before: bool,
}

/// A filter of a query: one condition, or a group of filters that all must
/// hold; groups may nest.
#[derive(Debug, PartialEq)]
pub enum Filter {
    Where(Condition),
    All(Vec<Filter>),
}

/// A declarative query: a collection, a list of filters that all must hold,
/// orderings, cursors, a limit and an offset.
#[derive(Debug, PartialEq)]
pub struct QuerySpec {
    pub collection: String,
    pub all_descendants: bool,
    pub filters: Vec<Filter>,
    pub order_by: Vec<Order>,
    pub start_at: Option<Cursor>,
    pub end_at: Option<Cursor>,
    pub limit: Option<i64>,
    pub offset: Option<i64>,
}

/// The wire form of a condition.
#[derive(Debug, PartialEq)]
pub struct FieldFilter {
    pub field: String,
    pub op: Operator,
    pub value: TypedValue,
}

/// The wire form of a filter: a field filter or a composite one.
#[derive(Debug, PartialEq)]
pub enum WireFilter {
    Field(FieldFilter),
    Composite(CompositeFilter),
}

/// The wire form of a composite filter.
#[derive(Debug, PartialEq)]
pub struct CompositeFilter {
    pub op: CompositeOp,
    pub filters: Vec<WireFilter>,
}

/// The wire form of a collection selector.
#[derive(Debug, PartialEq)]
pub struct CollectionSelector {
    pub collection_id: String,
    pub all_descendants: bool,
}

/// The wire form of a cursor.
#[derive(Debug, PartialEq)]
pub struct WireCursor {
    pub values: Vec<TypedValue>,
    pub before: bool,
}

/// The structured query of the wire format.
#[derive(Debug, PartialEq)]
pub struct StructuredQuery {
    pub from: CollectionSelector,
    pub where_filter: Option<CompositeFilter>,
    pub order_by: Vec<Order>,
    pub start_at: Option<WireCursor>,
    pub end_at: Option<WireCursor>,
    pub limit: Option<i64>,
    pub offset: Option<i64>,
}

/// A cursor holds no more values than there are orderings.
pub open spec fn cursor_fits(c: Option<Cursor>, n: nat) -> bool {
    match c {
        Some(c) => c.values@.len() <= n,
        None => true,
    }
}

/// `p` is a dotted field path: one or more non-empty segments joined by `.`.
pub open spec fn is_field_path(p: Seq<char>) -> bool {
    &&& p.len() > 0
    &&& p[0] != '.'
    &&& p.last() != '.'
    &&& forall|i: int| 0 <= i < p.len() - 1 ==> !(#[trigger] p[i] == '.' && p[i + 1] == '.')
}

fn field_path_ok(p: &String) -> (r: bool)
    ensures
        r == is_field_path(p@),
{
    let s = p.as_str();
    let n = s.unicode_len();
    if n == 0 || s.get_char(0) == '.' || s.get_char(n - 1) == '.' {
        return false;
    }
    let mut i: usize = 0;
    while i < n - 1
        invariant
            n == p@.len(),
            n > 0,
            s@ == p@,
            forall|j: int| 0 <= j < i && j < n - 1 ==> !(#[trigger] p@[j] == '.' && p@[j + 1] == '.'),
        decreases n - i,
    {
        if s.get_char(i) == '.' && s.get_char(i + 1) == '.' {
            return false;
        }
        i = i + 1;
    }
    true
}

/// Some condition within `f` names something that is not a dotted field path.
pub open spec fn has_bad_field_path(f: Filter) -> bool
    decreases f,
{
    match f {
        Filter::Where(c) => !is_field_path(c.field@),
        Filter::All(fs) => exists|i: int| #![trigger fs@[i]]
            0 <= i < fs@.len() && has_bad_field_path(fs@[i]),
    }
}

/// Why `q` cannot be compiled, checked in this order: a condition or an
/// ordering on something that is not a dotted field path, a cursor longer
/// than the orderings, a negative limit, a negative offset.
pub open spec fn query_fault(q: QuerySpec) -> Option<CompileError> {
    if exists|i: int| 0 <= i < q.filters@.len() && has_bad_field_path(#[trigger] q.filters@[i]) {
        Some(CompileError::EmptyFieldPath)
    } else if exists|i: int|
        0 <= i < q.order_by@.len() && !is_field_path((#[trigger] q.order_by@[i]).field@) {
        Some(CompileError::EmptyFieldPath)
    } else if !cursor_fits(q.start_at, q.order_by@.len()) || !cursor_fits(
        q.end_at,
        q.order_by@.len(),
    ) {
        Some(CompileError::CursorTooLong)
    } else if q.limit matches Some(l) && l < 0 {
        Some(CompileError::NegativeLimit)
    } else if q.offset matches Some(o) && o < 0 {
        Some(CompileError::NegativeOffset)
    } else {
        None
    }
}

/// `w` holds the encoded values of `v`, in order.
pub open spec fn encodes_all(w: Seq<TypedValue>, v: Seq<Value>) -> bool {
    &&& w.len() == v.len()
    &&& forall|i: int| 0 <= i < v.len() ==> #[trigger] w[i].model() == v[i].model()
}

/// `w` is the compiled form of cursor `c`.
pub open spec fn cursor_compiled(w: Option<WireCursor>, c: Option<Cursor>) -> bool {
    match (w, c) {
        (None, None) => true,
        (Some(w), Some(c)) => encodes_all(w.values@, c.values@) && w.before == c.before,
        _ => false,
    }
}

/// `w` is the compiled form of condition `c`.
pub open spec fn condition_compiled(w: FieldFilter, c: Condition) -> bool {
    w.field@ == c.field@ && w.op == c.op && w.value.model() == c.value.model()
}

/// `w` is the compiled form of filter `f`: a condition becomes a field
/// filter; a group becomes an AND composite of its members, in order.
pub open spec fn filter_compiled(w: WireFilter, f: Filter) -> bool
    decreases f,
{
    match f {
        Filter::Where(c) => w matches WireFilter::Field(ff) && condition_compiled(ff, c),
        Filter::All(fs) => match w {
            WireFilter::Composite(cf) => {
                &&& cf.op == CompositeOp::And
                &&& cf.filters@.len() == fs@.len()
                &&& forall|i: int| #![trigger fs@[i]]
                    0 <= i < fs@.len() ==> filter_compiled(cf.filters@[i], fs@[i])
            },
            _ => false,
        },
    }
}

/// `w` is the compiled form of the filters `c`: no filter for none, else one
/// AND composite holding each of them, in order.
pub open spec fn filters_compiled(w: Option<CompositeFilter>, c: Seq<Filter>) -> bool {
    match w {
        None => c.len() == 0,
        Some(w) => {
            &&& c.len() > 0
            &&& w.op == CompositeOp::And
            &&& w.filters@.len() == c.len()
            &&& forall|i: int| 0 <= i < c.len() ==> #[trigger] filter_compiled(w.filters@[i], c[i])
        },
    }
}

/// `w` is the compiled form of the orderings `o`, in the same order.
pub open spec fn orders_compiled(w: Seq<Order>, o: Seq<Order>) -> bool {
    &&& w.len() == o.len()
    &&& forall|i: int|
        0 <= i < o.len() ==> (#[trigger] w[i]).field@ == o[i].field@ && w[i].direction
            == o[i].direction
}

/// `w` is the compiled form of `q`.
pub open spec fn compiled(w: StructuredQuery, q: QuerySpec) -> bool {
    &&& w.from.collection_id@ == q.collection@
    &&& w.from.all_descendants == q.all_descendants
    &&& filters_compiled(w.where_filter, q.filters@)
    &&& orders_compiled(w.order_by@, q.order_by@)
    &&& cursor_compiled(w.start_at, q.start_at)
    &&& cursor_compiled(w.end_at, q.end_at)
    &&& w.limit == q.limit
    &&& w.offset == q.offset
}

fn has_bad_field_path_exec(f: &Filter) -> (r: bool)
    ensures
        r == has_bad_field_path(*f),
    decreases f,
{
    match f {
        Filter::Where(c) => !field_path_ok(&c.field),
        Filter::All(fs) => {
            let mut i: usize = 0;
            while i < fs.len()
                invariant
                    decreases_to!(*f => *fs),
                    *f == Filter::All(*fs),
                    i <= fs@.len(),
                    forall|j: int| 0 <= j < i ==> !has_bad_field_path(#[trigger] fs@[j]),
                decreases fs@.len() - i,
            {
                proof {
                    vstd::std_specs::vec::axiom_vec_index_decreases(*fs, i as int);
                }
                if has_bad_field_path_exec(&fs[i]) {
                    proof {
                        lemma_member_bad_field_path(*f, i as int);
                    }
                    return true;
                }
                i = i + 1;
            }
            false
        },
    }
}

proof fn lemma_member_bad_field_path(f: Filter, i: int)
    requires
        f is All,
        0 <= i < f->All_0@.len(),
        has_bad_field_path(f->All_0@[i]),
    ensures
        has_bad_field_path(f),
{
    let fs = f->All_0;
    assert(0 <= i < fs@.len() && has_bad_field_path(fs@[i]));
}

fn compile_filter(f: &Filter) -> (r: WireFilter)
    ensures
        filter_compiled(r, *f),
    decreases f,
{
    match f {
        Filter::Where(c) => {
            let ff = FieldFilter { field: c.field.clone(), op: c.op, value: encode(&c.value) };
            let r = WireFilter::Field(ff);
            r
        },
        Filter::All(fs) => WireFilter::Composite(
            CompositeFilter { op: CompositeOp::And, filters: compile_filters(fs, Ghost(*f)) },
        ),
    }
}

fn compile_filters(fs: &Vec<Filter>, Ghost(parent): Ghost<Filter>) -> (r: Vec<WireFilter>)
    requires
        decreases_to!(parent => *fs),
    ensures
        r@.len() == fs@.len(),
        forall|i: int| #![trigger fs@[i]] 0 <= i < fs@.len() ==> filter_compiled(r@[i], fs@[i]),
    decreases parent, 0nat,
{
    let mut out: Vec<WireFilter> = Vec::new();
    let mut i: usize = 0;
    while i < fs.len()
        invariant
            decreases_to!(parent => *fs),
            i <= fs@.len(),
            out@.len() == i,
            forall|j: int| #![trigger fs@[j]] 0 <= j < i ==> filter_compiled(out@[j], fs@[j]),
        decreases fs@.len() - i,
    {
        proof {
            vstd::std_specs::vec::axiom_vec_index_decreases(*fs, i as int);
        }
        out.push(compile_filter(&fs[i]));
        i = i + 1;
    }
    out
}

fn encode_all(v: &Vec<Value>) -> (r: Vec<TypedValue>)
    ensures
        encodes_all(r@, v@),
{
    let mut r: Vec<TypedValue> = Vec::new();
    let mut i: usize = 0;
    while i < v.len()
        invariant
            i <= v@.len(),
            r@.len() == i,
            forall|j: int| 0 <= j < i ==> #[trigger] r@[j].model() == v@[j].model(),
        decreases v@.len() - i,
    {
        r.push(encode(&v[i]));
        i = i + 1;
    }
    r
}

fn compile_cursor(c: &Option<Cursor>) -> (r: Option<WireCursor>)
    ensures
        cursor_compiled(r, *c),
{
    match c {
        Some(c) => Some(WireCursor { values: encode_all(&c.values), before: c.before }),
        None => None,
    }
}

fn cursor_len_ok(c: &Option<Cursor>, n: usize) -> (r: bool)
    ensures
        r == cursor_fits(*c, n as nat),
{
    match c {
        Some(c) => c.values.len() <= n,
        None => true,
    }
}

/// Compiles a declarative query into the wire's structured query. The
/// conditions become one AND composite, in the given order, or no filter at
/// all when there are none; the orderings keep their order; each cursor
/// value is encoded; limit and offset pass through.
pub fn compile(q: &QuerySpec) -> (r: Result<StructuredQuery, Error>)
    ensures
        match r {
            Ok(w) => query_fault(*q) is None && compiled(w, *q),
            Err(e) => query_fault(*q) matches Some(c) && e == Error::Compile(c),
        },
{
    let mut i: usize = 0;
    while i < q.filters.len()
        invariant
            i <= q.filters@.len(),
            forall|j: int| 0 <= j < i ==> !has_bad_field_path(#[trigger] q.filters@[j]),
        decreases q.filters@.len() - i,
    {
        if has_bad_field_path_exec(&q.filters[i]) {
            return Err(Error::Compile(CompileError::EmptyFieldPath));
        }
        i = i + 1;
    }
    let mut i: usize = 0;
    while i < q.order_by.len()
        invariant
            i <= q.order_by@.len(),
            forall|j: int| 0 <= j < i ==> is_field_path((#[trigger] q.order_by@[j]).field@),
        decreases q.order_by@.len() - i,
    {
        if !field_path_ok(&q.order_by[i].field) {
            return Err(Error::Compile(CompileError::EmptyFieldPath));
        }
        i = i + 1;
    }
    let n = q.order_by.len();
    if !cursor_len_ok(&q.start_at, n) || !cursor_len_ok(&q.end_at, n) {
        return Err(Error::Compile(CompileError::CursorTooLong));
    }
    if let Some(l) = q.limit {
        if l < 0 {
            return Err(Error::Compile(CompileError::NegativeLimit));
        }
    }
    if let Some(o) = q.offset {
        if o < 0 {
            return Err(Error::Compile(CompileError::NegativeOffset));
        }
    }
    let where_filter = if q.filters.len() == 0 {
        None
    } else {
        let mut fs: Vec<WireFilter> = Vec::new();
        let mut i: usize = 0;
        while i < q.filters.len()
            invariant
                i <= q.filters@.len(),
                fs@.len() == i,
                forall|j: int| 0 <= j < i ==> #[trigger] filter_compiled(fs@[j], q.filters@[j]),
            decreases q.filters@.len() - i,
        {
            fs.push(compile_filter(&q.filters[i]));
            i = i + 1;
        }
        Some(CompositeFilter { op: CompositeOp::And, filters: fs })
    };
    let mut order_by: Vec<Order> = Vec::new();
    let mut i: usize = 0;
    while i < q.order_by.len()
        invariant
            i <= q.order_by@.len(),
            order_by@.len() == i,
            forall|j: int|
                0 <= j < i ==> (#[trigger] order_by@[j]).field@ == q.order_by@[j].field@
                    && order_by@[j].direction == q.order_by@[j].direction,
        decreases q.order_by@.len() - i,
    {
        let o = &q.order_by[i];
        order_by.push(Order { field: o.field.clone(), direction: o.direction });
        i = i + 1;
    }
    Ok(
        StructuredQuery {
            from: CollectionSelector {
                collection_id: q.collection.clone(),
                all_descendants: q.all_descendants,
            },
            where_filter,
            order_by,
            start_at: compile_cursor(&q.start_at),
            end_at: compile_cursor(&q.end_at),
            limit: q.limit,
            offset: q.offset,
        },
    )
}

} // verus!
