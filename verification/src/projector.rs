//! Executing a plan against the in-memory store and packaging rows into
//! the declared find shape: relation, tuple, collection or scalar.
//!
//! Pattern, predicate and ground clauses evaluate here, and orderings
//! sort the output; fulltext and transaction-log clauses need the
//! storage collaborator's primitives and `avg` needs floating point, so
//! those are refused. Duplicate rows are eliminated over the projected
//! and `:with` variables before aggregation; a row whose non-`count`
//! aggregate is over zero groups is rejected entirely. What a
//! successful run returns is pinned, value for value, by
//! `spec_query_results`.

use vstd::prelude::*;
use vstd::string::StringExecFns;
use crate::algebrize::{
    algebrize, algebrize_model, fail_corresponds, EmptyBecause, QueryOut, ResolvedClause,
    ResolvedPlace, ResolvedValuePlace,
};
use crate::errors::CoreError;
use crate::query::{AggregateOp, Element, FindSpec, OrderBy, ParsedQuery, PredicateOp};
use crate::store::{Datom, Store};
use crate::values::{TypedValue, ValueTypeSet};

verus! {

/// Plan output packaged into one of the four shape families.
#[derive(Clone, Debug, PartialEq, Eq)]
pub enum QueryResults {
    Scalar(Option<TypedValue>),
    Tuple(Option<Vec<TypedValue>>),
    Coll(Vec<TypedValue>),
    Rel(Vec<Vec<TypedValue>>),
}

/// The shape family a find specification declares.
pub open spec fn shape_matches(find: FindSpec, r: QueryResults) -> bool {
    match find {
        FindSpec::FindRel(_) => r is Rel,
        FindSpec::FindTuple(_) => r is Tuple,
        FindSpec::FindColl(_) => r is Coll,
        FindSpec::FindScalar(_) => r is Scalar,
    }
}

/// The empty value of each shape.
pub open spec fn result_is_empty(r: QueryResults) -> bool {
    match r {
        QueryResults::Scalar(o) => o is None,
        QueryResults::Tuple(o) => o is None,
        QueryResults::Coll(v) => v@.len() == 0,
        QueryResults::Rel(v) => v@.len() == 0,
    }
}

/// The model of a packaged result.
pub enum ResultsModel {
    RScalar(Option<crate::values::Value>),
    RTuple(Option<Seq<crate::values::Value>>),
    RColl(Seq<crate::values::Value>),
    RRel(Seq<Seq<crate::values::Value>>),
}

/// The model of a result value.
pub open spec fn results_view(qr: QueryResults) -> ResultsModel {
    match qr {
        QueryResults::Scalar(o) => ResultsModel::RScalar(
            match o {
                Some(tv) => Some(tv@),
                None => None,
            },
        ),
        QueryResults::Tuple(o) => ResultsModel::RTuple(
            match o {
                Some(v) => Some(vals_view(v@)),
                None => None,
            },
        ),
        QueryResults::Coll(v) => ResultsModel::RColl(vals_view(v@)),
        QueryResults::Rel(v) => ResultsModel::RRel(rows_view(v@)),
    }
}

/// The model of the empty result of each shape.
pub open spec fn spec_empty_model(find: FindSpec) -> ResultsModel {
    match find {
        FindSpec::FindRel(_) => ResultsModel::RRel(Seq::empty()),
        FindSpec::FindTuple(_) => ResultsModel::RTuple(None),
        FindSpec::FindColl(_) => ResultsModel::RColl(Seq::empty()),
        FindSpec::FindScalar(_) => ResultsModel::RScalar(None),
    }
}

/// The names of a variable list.
pub open spec fn names_view(s: Seq<String>) -> Seq<Seq<char>> {
    Seq::new(s.len(), |i: int| s[i]@)
}

/// Whether the inputs carry a value for this name.
pub open spec fn inputs_have(inputs: Seq<(String, TypedValue)>, name: Seq<char>) -> bool {
    exists|i: int| 0 <= i < inputs.len() && (#[trigger] inputs[i]).0@ == name
}

/// The declared `:in` variables the inputs leave unbound, in order.
pub open spec fn missing_names(
    in_vars: Seq<String>,
    inputs: Seq<(String, TypedValue)>,
) -> Seq<Seq<char>>
    decreases in_vars.len(),
{
    if in_vars.len() == 0 {
        Seq::empty()
    } else if inputs_have(inputs, in_vars[0]@) {
        missing_names(in_vars.drop_first(), inputs)
    } else {
        seq![in_vars[0]@] + missing_names(in_vars.drop_first(), inputs)
    }
}

/// Whether the inputs carry a value for this name, at runtime.
fn inputs_have_exec(inputs: &Vec<(String, TypedValue)>, name: &String) -> (r: bool)
    ensures
        r == inputs_have(inputs@, name@),
{
    let mut i: usize = 0;
    while i < inputs.len()
        invariant
            i <= inputs@.len(),
            forall|j: int| 0 <= j < i ==> (#[trigger] inputs@[j]).0@ != name@,
        decreases inputs@.len() - i,
    {
        if String::eq(&inputs[i].0, name) {
            return true;
        }
        i += 1;
    }
    false
}

/// The empty result of a find shape.
fn empty_result(find: &FindSpec) -> (r: QueryResults)
    ensures
        shape_matches(*find, r),
        result_is_empty(r),
        results_view(r) == spec_empty_model(*find),
{
    let r = match find {
        FindSpec::FindRel(_) => QueryResults::Rel(Vec::new()),
        FindSpec::FindTuple(_) => QueryResults::Tuple(None),
        FindSpec::FindColl(_) => QueryResults::Coll(Vec::new()),
        FindSpec::FindScalar(_) => QueryResults::Scalar(None),
    };
    proof {
        match r {
            QueryResults::Rel(ref v) => {
                assert(rows_view(v@) =~= Seq::<Seq<crate::values::Value>>::empty());
            },
            QueryResults::Coll(ref v) => {
                assert(vals_view(v@) =~= Seq::<crate::values::Value>::empty());
            },
            _ => {},
        }
    }
    r
}

/// A partial binding of the plan's columns.
type Row = Vec<Option<TypedValue>>;

/// The model of a partial row.
pub open spec fn row_view(r: Seq<Option<TypedValue>>) -> Seq<Option<crate::values::Value>> {
    Seq::new(
        r.len(),
        |i: int|
            match r[i] {
                Some(tv) => Some(tv@),
                None => None,
            },
    )
}

/// The model of a list of partial rows.
pub open spec fn prows_view(rs: Seq<Vec<Option<TypedValue>>>) -> Seq<
    Seq<Option<crate::values::Value>>,
> {
    Seq::new(rs.len(), |i: int| row_view(rs[i]@))
}

/// The model of a value row.
pub open spec fn vals_view(r: Seq<TypedValue>) -> Seq<crate::values::Value> {
    Seq::new(r.len(), |i: int| r[i]@)
}

/// The model of a list of value rows.
pub open spec fn rows_view(rs: Seq<Vec<TypedValue>>) -> Seq<Seq<crate::values::Value>> {
    Seq::new(rs.len(), |i: int| vals_view(rs[i]@))
}

/// Copy a partial row.
fn copy_row(row: &Row) -> (r: Row)
    ensures
        row_view(r@) == row_view(row@),
{
    let mut r: Row = Vec::new();
    let mut i: usize = 0;
    while i < row.len()
        invariant
            i <= row@.len(),
            r@.len() == i,
            forall|j: int|
                0 <= j < i ==> row_view(r@)[j] == row_view(row@)[j],
        decreases row@.len() - i,
    {
        match &row[i] {
            Some(tv) => r.push(Some(tv.duplicate())),
            None => r.push(None),
        }
        i += 1;
    }
    proof {
        assert(row_view(r@) =~= row_view(row@));
    }
    r
}

/// What matching a datom field against a non-value place yields: the
/// row, possibly extended at the place's column; `None` is no match.
pub open spec fn spec_match_place(
    row: Seq<Option<crate::values::Value>>,
    place: ResolvedPlace,
    field: i64,
) -> Option<Seq<Option<crate::values::Value>>> {
    match place {
        ResolvedPlace::Wildcard => Some(row),
        ResolvedPlace::Entid(e) => if e == field {
            Some(row)
        } else {
            None
        },
        ResolvedPlace::Column(c) => if c >= row.len() {
            None
        } else {
            match row[c as int] {
                Some(v) => if v == crate::values::Value::Ref(field as int) {
                    Some(row)
                } else {
                    None
                },
                None => Some(
                    row.update(c as int, Some(crate::values::Value::Ref(field as int))),
                ),
            }
        },
    }
}

/// Match one datom field against a non-value place, extending the row.
/// `None` means no match.
fn match_place(row: Row, place: &ResolvedPlace, field: i64) -> (r: Option<Row>)
    ensures
        match spec_match_place(row_view(row@), *place, field) {
            Some(rv) => r matches Some(r2) && row_view(r2@) == rv,
            None => r is None,
        },
{
    match place {
        ResolvedPlace::Wildcard => Some(row),
        ResolvedPlace::Entid(e) => {
            if *e == field {
                Some(row)
            } else {
                None
            }
        },
        ResolvedPlace::Column(c) => {
            if *c >= row.len() {
                return None;
            }
            let mut row = row;
            let bound = match &row[*c] {
                Some(tv) => Some(tv.same(&TypedValue::Ref(field))),
                None => None,
            };
            match bound {
                Some(true) => Some(row),
                Some(false) => None,
                None => {
                    let ghost before = row_view(row@);
                    row[*c] = Some(TypedValue::Ref(field));
                    proof {
                        assert(row_view(row@) =~= before.update(
                            *c as int,
                            Some(crate::values::Value::Ref(field as int)),
                        ));
                    }
                    Some(row)
                },
            }
        },
    }
}

/// What matching a value against a value place yields.
pub open spec fn spec_match_value_place(
    row: Seq<Option<crate::values::Value>>,
    place: ResolvedValuePlace,
    value: crate::values::Value,
) -> Option<Seq<Option<crate::values::Value>>> {
    match place {
        ResolvedValuePlace::Wildcard => Some(row),
        ResolvedValuePlace::Value(tv) => if tv@ == value {
            Some(row)
        } else {
            None
        },
        ResolvedValuePlace::Column(c) => if c >= row.len() {
            None
        } else {
            match row[c as int] {
                Some(v) => if v == value {
                    Some(row)
                } else {
                    None
                },
                None => Some(row.update(c as int, Some(value))),
            }
        },
    }
}

/// Match a datom's value against a value place, extending the row.
fn match_value_place(row: Row, place: &ResolvedValuePlace, value: &TypedValue) -> (r: Option<
    Row,
>)
    ensures
        match spec_match_value_place(row_view(row@), *place, value@) {
            Some(rv) => r matches Some(r2) && row_view(r2@) == rv,
            None => r is None,
        },
{
    match place {
        ResolvedValuePlace::Wildcard => Some(row),
        ResolvedValuePlace::Value(tv) => {
            if tv.same(value) {
                Some(row)
            } else {
                None
            }
        },
        ResolvedValuePlace::Column(c) => {
            if *c >= row.len() {
                return None;
            }
            let mut row = row;
            let bound = match &row[*c] {
                Some(tv) => Some(tv.same(value)),
                None => None,
            };
            match bound {
                Some(true) => Some(row),
                Some(false) => None,
                None => {
                    let ghost before = row_view(row@);
                    row[*c] = Some(value.duplicate());
                    proof {
                        assert(row_view(row@) =~= before.update(*c as int, Some(value@)));
                    }
                    Some(row)
                },
            }
        },
    }
}

/// The value model an operand denotes under a row, if defined.
pub open spec fn spec_operand_value(
    row: Seq<Option<crate::values::Value>>,
    place: ResolvedValuePlace,
) -> Option<crate::values::Value> {
    match place {
        ResolvedValuePlace::Wildcard => None,
        ResolvedValuePlace::Value(tv) => Some(tv@),
        ResolvedValuePlace::Column(c) => if c >= row.len() {
            None
        } else {
            row[c as int]
        },
    }
}

/// The value an operand denotes under a row, if defined.
fn operand_value(row: &Row, place: &ResolvedValuePlace) -> (r: Option<TypedValue>)
    ensures
        match spec_operand_value(row_view(row@), *place) {
            Some(v) => r matches Some(tv) && tv@ == v,
            None => r is None,
        },
{
    match place {
        ResolvedValuePlace::Wildcard => None,
        ResolvedValuePlace::Value(tv) => Some(tv.duplicate()),
        ResolvedValuePlace::Column(c) => {
            if *c >= row.len() {
                return None;
            }
            match &row[*c] {
                Some(tv) => Some(tv.duplicate()),
                None => None,
            }
        },
    }
}

/// The position of a value's type in the total order over typed
/// values.
pub open spec fn spec_rank(v: crate::values::Value) -> int {
    match v {
        crate::values::Value::Ref(_) => 0,
        crate::values::Value::Boolean(_) => 1,
        crate::values::Value::Instant(_) => 2,
        crate::values::Value::Long(_) => 3,
        crate::values::Value::Double(_) => 4,
        crate::values::Value::Text(_) => 5,
        crate::values::Value::Keyword(_) => 6,
        crate::values::Value::Uuid(_) => 7,
        crate::values::Value::Bytes(_) => 8,
    }
}

/// The IEEE-754 total-order key of a double's bit pattern, as a value.
pub open spec fn spec_double_key(bits: u64) -> int {
    if bits < 0x8000_0000_0000_0000 {
        bits + 0x8000_0000_0000_0000
    } else {
        0xFFFF_FFFF_FFFF_FFFF - bits
    }
}

/// Lexicographic order over character sequences.
pub open spec fn spec_lex_chars(a: Seq<char>, b: Seq<char>) -> bool
    decreases a.len(),
{
    if a.len() == 0 {
        true
    } else if b.len() == 0 {
        false
    } else if a[0] == b[0] {
        spec_lex_chars(a.drop_first(), b.drop_first())
    } else {
        (a[0] as int) < (b[0] as int)
    }
}

/// Lexicographic order over byte sequences.
pub open spec fn spec_lex_bytes(a: Seq<u8>, b: Seq<u8>) -> bool
    decreases a.len(),
{
    if a.len() == 0 {
        true
    } else if b.len() == 0 {
        false
    } else if a[0] == b[0] {
        spec_lex_bytes(a.drop_first(), b.drop_first())
    } else {
        a[0] < b[0]
    }
}

/// The total order over value models: by type rank first, within a type
/// by its own order; text by character, doubles by the total-order key
/// of their bits.
pub open spec fn spec_value_le(a: crate::values::Value, b: crate::values::Value) -> bool {
    if spec_rank(a) != spec_rank(b) {
        spec_rank(a) < spec_rank(b)
    } else {
        match (a, b) {
            (crate::values::Value::Ref(x), crate::values::Value::Ref(y)) => x <= y,
            (crate::values::Value::Boolean(x), crate::values::Value::Boolean(y)) => !x || y,
            (crate::values::Value::Instant(x), crate::values::Value::Instant(y)) => x <= y,
            (crate::values::Value::Long(x), crate::values::Value::Long(y)) => x <= y,
            (crate::values::Value::Double(x), crate::values::Value::Double(y)) => spec_double_key(
                x,
            ) <= spec_double_key(y),
            (crate::values::Value::Text(x), crate::values::Value::Text(y)) => spec_lex_chars(x, y),
            (crate::values::Value::Keyword(x), crate::values::Value::Keyword(y)) => if x.0 == y.0 {
                spec_lex_chars(x.1, y.1)
            } else {
                spec_lex_chars(x.0, y.0)
            },
            (crate::values::Value::Uuid(x), crate::values::Value::Uuid(y)) => x <= y,
            (crate::values::Value::Bytes(x), crate::values::Value::Bytes(y)) => spec_lex_bytes(
                x,
                y,
            ),
            _ => true,
        }
    }
}

/// Lexicographic comparison of two strings, character by character.
fn lex_le_str(x: &str, y: &str) -> (r: bool)
    ensures
        r == spec_lex_chars(x@, y@),
{
    let la = x.unicode_len();
    let lb = y.unicode_len();
    let mut i: usize = 0;
    proof {
        assert(x@.skip(0) =~= x@);
        assert(y@.skip(0) =~= y@);
    }
    while i < la && i < lb
        invariant
            i <= la,
            i <= lb,
            la == x@.len(),
            lb == y@.len(),
            spec_lex_chars(x@, y@) == spec_lex_chars(x@.skip(i as int), y@.skip(i as int)),
        decreases la - i,
    {
        proof {
            assert(x@.skip(i as int)[0] == x@[i as int]);
            assert(y@.skip(i as int)[0] == y@[i as int]);
            assert(x@.skip(i as int).drop_first() =~= x@.skip(i as int + 1));
            assert(y@.skip(i as int).drop_first() =~= y@.skip(i as int + 1));
        }
        let ca = x.get_char(i);
        let cb = y.get_char(i);
        if ca != cb {
            return (ca as u32) < (cb as u32);
        }
        i += 1;
    }
    proof {
        if i >= la {
            assert(x@.skip(i as int) =~= Seq::<char>::empty());
        } else {
            assert(y@.skip(i as int) =~= Seq::<char>::empty());
            assert(x@.skip(i as int).len() > 0);
        }
    }
    la <= lb
}

/// Lexicographic comparison of two byte vectors.
fn lex_le_bytes(a: &Vec<u8>, b: &Vec<u8>) -> (r: bool)
    ensures
        r == spec_lex_bytes(a@, b@),
{
    let la = a.len();
    let lb = b.len();
    let mut i: usize = 0;
    proof {
        assert(a@.skip(0) =~= a@);
        assert(b@.skip(0) =~= b@);
    }
    while i < la && i < lb
        invariant
            i <= la,
            i <= lb,
            la == a@.len(),
            lb == b@.len(),
            spec_lex_bytes(a@, b@) == spec_lex_bytes(a@.skip(i as int), b@.skip(i as int)),
        decreases la - i,
    {
        proof {
            assert(a@.skip(i as int)[0] == a@[i as int]);
            assert(b@.skip(i as int)[0] == b@[i as int]);
            assert(a@.skip(i as int).drop_first() =~= a@.skip(i as int + 1));
            assert(b@.skip(i as int).drop_first() =~= b@.skip(i as int + 1));
        }
        if a[i] != b[i] {
            return a[i] < b[i];
        }
        i += 1;
    }
    proof {
        if i >= la {
            assert(a@.skip(i as int) =~= Seq::<u8>::empty());
        } else {
            assert(b@.skip(i as int) =~= Seq::<u8>::empty());
            assert(a@.skip(i as int).len() > 0);
        }
    }
    la <= lb
}

/// A total order over typed values: first by type, then within the
/// type; `Double` orders by the IEEE-754 total-order key of its bits,
/// text lexicographically by character.
pub fn value_le(a: &TypedValue, b: &TypedValue) -> (r: bool)
    ensures
        r == spec_value_le(a@, b@),
{
    let ra = rank(a);
    let rb = rank(b);
    if ra != rb {
        return ra < rb;
    }
    match (a, b) {
        (TypedValue::Ref(x), TypedValue::Ref(y)) => x <= y,
        (TypedValue::Boolean(x), TypedValue::Boolean(y)) => !*x || *y,
        (TypedValue::Instant(x), TypedValue::Instant(y)) => x <= y,
        (TypedValue::Long(x), TypedValue::Long(y)) => x <= y,
        (TypedValue::Double(x), TypedValue::Double(y)) => double_key(*x) <= double_key(*y),
        (TypedValue::String(x), TypedValue::String(y)) => lex_le_str(x.as_str(), y.as_str()),
        (TypedValue::Keyword(x), TypedValue::Keyword(y)) => {
            if String::eq(&x.namespace, &y.namespace) {
                lex_le_str(x.name.as_str(), y.name.as_str())
            } else {
                lex_le_str(x.namespace.as_str(), y.namespace.as_str())
            }
        },
        (TypedValue::Uuid(x), TypedValue::Uuid(y)) => x <= y,
        (TypedValue::Bytes(x), TypedValue::Bytes(y)) => lex_le_bytes(x, y),
        _ => true,
    }
}

/// The rank of a value's type in the total order.
fn rank(v: &TypedValue) -> (r: u8)
    ensures
        r as int == spec_rank(v@),
{
    match v {
        TypedValue::Ref(_) => 0,
        TypedValue::Boolean(_) => 1,
        TypedValue::Instant(_) => 2,
        TypedValue::Long(_) => 3,
        TypedValue::Double(_) => 4,
        TypedValue::String(_) => 5,
        TypedValue::Keyword(_) => 6,
        TypedValue::Uuid(_) => 7,
        TypedValue::Bytes(_) => 8,
    }
}

/// The total-order key of a double's bit pattern: negatives reversed
/// below, positives shifted above.
fn double_key(bits: u64) -> (r: u64)
    ensures
        r as int == spec_double_key(bits),
{
    if bits < 0x8000_0000_0000_0000 {
        bits + 0x8000_0000_0000_0000
    } else {
        0xFFFF_FFFF_FFFF_FFFF - bits
    }
}

/// One comparison predicate over two defined operand models; mixed
/// value types never compare by order.
pub open spec fn spec_eval_pred(
    op: PredicateOp,
    a: crate::values::Value,
    b: crate::values::Value,
) -> bool {
    match op {
        PredicateOp::Eq => a == b,
        PredicateOp::NotEq | PredicateOp::Differ => a != b,
        PredicateOp::Lt => spec_rank(a) == spec_rank(b) && spec_value_le(a, b) && a != b,
        PredicateOp::Le => spec_rank(a) == spec_rank(b) && spec_value_le(a, b),
        PredicateOp::Gt => spec_rank(a) == spec_rank(b) && spec_value_le(b, a) && a != b,
        PredicateOp::Ge => spec_rank(a) == spec_rank(b) && spec_value_le(b, a),
        PredicateOp::Unpermute => spec_rank(a) == spec_rank(b) && spec_value_le(a, b),
    }
}

/// Evaluate one comparison predicate over two defined operands.
fn eval_pred(op: PredicateOp, a: &TypedValue, b: &TypedValue) -> (r: bool)
    ensures
        r == spec_eval_pred(op, a@, b@),
{
    let eq = a.same(b);
    match op {
        PredicateOp::Eq => eq,
        PredicateOp::NotEq | PredicateOp::Differ => !eq,
        PredicateOp::Lt => rank(a) == rank(b) && value_le(a, b) && !eq,
        PredicateOp::Le => rank(a) == rank(b) && value_le(a, b),
        PredicateOp::Gt => rank(a) == rank(b) && value_le(b, a) && !eq,
        PredicateOp::Ge => rank(a) == rank(b) && value_le(b, a),
        PredicateOp::Unpermute => rank(a) == rank(b) && value_le(a, b),
    }
}

/// The rows one pattern clause yields from one row: every datom is
/// tried in order, each position matched or bound.
pub open spec fn spec_pattern_row(
    datoms: Seq<Datom>,
    entity: ResolvedPlace,
    attribute: ResolvedPlace,
    value: ResolvedValuePlace,
    tx: ResolvedPlace,
    row: Seq<Option<crate::values::Value>>,
) -> Seq<Seq<Option<crate::values::Value>>>
    decreases datoms.len(),
{
    if datoms.len() == 0 {
        Seq::empty()
    } else {
        let d = datoms[0];
        let step = match spec_match_place(row, entity, d.e) {
            None => None,
            Some(r1) => match spec_match_place(r1, attribute, d.a) {
                None => None,
                Some(r2) => match spec_match_value_place(r2, value, d.v@) {
                    None => None,
                    Some(r3) => spec_match_place(r3, tx, d.tx),
                },
            },
        };
        (match step {
            Some(r4) => seq![r4],
            None => Seq::empty(),
        }) + spec_pattern_row(datoms.drop_first(), entity, attribute, value, tx, row)
    }
}

/// The rows a pattern clause yields from a list of rows.
pub open spec fn spec_pattern_rows(
    datoms: Seq<Datom>,
    entity: ResolvedPlace,
    attribute: ResolvedPlace,
    value: ResolvedValuePlace,
    tx: ResolvedPlace,
    rows: Seq<Seq<Option<crate::values::Value>>>,
) -> Seq<Seq<Option<crate::values::Value>>>
    decreases rows.len(),
{
    if rows.len() == 0 {
        Seq::empty()
    } else {
        spec_pattern_row(datoms, entity, attribute, value, tx, rows[0]) + spec_pattern_rows(
            datoms,
            entity,
            attribute,
            value,
            tx,
            rows.drop_first(),
        )
    }
}

/// The rows a predicate clause keeps: both operands defined and the
/// predicate true.
pub open spec fn spec_pred_rows(
    rows: Seq<Seq<Option<crate::values::Value>>>,
    op: PredicateOp,
    left: ResolvedValuePlace,
    right: ResolvedValuePlace,
) -> Seq<Seq<Option<crate::values::Value>>>
    decreases rows.len(),
{
    if rows.len() == 0 {
        Seq::empty()
    } else {
        let keep = match (spec_operand_value(rows[0], left), spec_operand_value(rows[0], right)) {
            (Some(a), Some(b)) => spec_eval_pred(op, a, b),
            _ => false,
        };
        (if keep {
            seq![rows[0]]
        } else {
            Seq::empty()
        }) + spec_pred_rows(rows.drop_first(), op, left, right)
    }
}

/// The rows a ground clause keeps or extends.
pub open spec fn spec_ground_rows(
    rows: Seq<Seq<Option<crate::values::Value>>>,
    value: crate::values::Value,
    column: usize,
) -> Seq<Seq<Option<crate::values::Value>>>
    decreases rows.len(),
{
    if rows.len() == 0 {
        Seq::empty()
    } else {
        (match spec_match_value_place(rows[0], ResolvedValuePlace::Column(column), value) {
            Some(r1) => seq![r1],
            None => Seq::empty(),
        }) + spec_ground_rows(rows.drop_first(), value, column)
    }
}

/// What one clause yields; `None` is a clause the in-memory evaluator
/// cannot run.
pub open spec fn spec_eval_clause(
    datoms: Seq<Datom>,
    c: ResolvedClause,
    rows: Seq<Seq<Option<crate::values::Value>>>,
) -> Option<Seq<Seq<Option<crate::values::Value>>>> {
    match c {
        ResolvedClause::Pattern { entity, attribute, value, tx } => Some(
            spec_pattern_rows(datoms, entity, attribute, value, tx, rows),
        ),
        ResolvedClause::Pred { op, left, right } => Some(spec_pred_rows(rows, op, left, right)),
        ResolvedClause::Ground { value, column } => Some(spec_ground_rows(rows, value@, column)),
        _ => None,
    }
}

/// The rows the whole conjunction yields, clause by clause.
pub open spec fn spec_eval_clauses(
    datoms: Seq<Datom>,
    cs: Seq<ResolvedClause>,
    rows: Seq<Seq<Option<crate::values::Value>>>,
) -> Option<Seq<Seq<Option<crate::values::Value>>>>
    decreases cs.len(),
{
    if cs.len() == 0 {
        Some(rows)
    } else {
        match spec_eval_clause(datoms, cs[0], rows) {
            None => None,
            Some(rs) => spec_eval_clauses(datoms, cs.drop_first(), rs),
        }
    }
}

/// Evaluate the clauses of a plan against the datoms, starting from one
/// partial row. Clauses that need the storage collaborator are refused.
#[verifier::loop_isolation(false)]
fn eval_clauses(datoms: &Vec<Datom>, clauses: &Vec<ResolvedClause>, start: Row) -> (r: Result<
    Vec<Row>,
    CoreError,
>)
    ensures
        match spec_eval_clauses(datoms@, clauses@, seq![row_view(start@)]) {
            Some(rs) => r matches Ok(rows) && prows_view(rows@) == rs,
            None => r matches Err(e) && e is NotYetImplemented,
        },
{
    let ghost ds = datoms@;
    let ghost cs = clauses@;
    let mut rows: Vec<Row> = Vec::new();
    let ghost init = seq![row_view(start@)];
    rows.push(start);
    proof {
        assert(prows_view(rows@) =~= init);
        assert(cs.skip(0) =~= cs);
    }
    let mut ci: usize = 0;
    while ci < clauses.len()
        invariant
            ci <= cs.len(),
            spec_eval_clauses(ds, cs, init) == spec_eval_clauses(
                ds,
                cs.skip(ci as int),
                prows_view(rows@),
            ),
        decreases cs.len() - ci,
    {
        proof {
            assert(cs.skip(ci as int)[0] == cs[ci as int]);
            assert(cs.skip(ci as int).drop_first() =~= cs.skip(ci as int + 1));
        }
        let ghost pv = prows_view(rows@);
        let clause = &clauses[ci];
        let mut next: Vec<Row> = Vec::new();
        match clause {
            ResolvedClause::Pattern { entity, attribute, value, tx } => {
                let mut ri: usize = 0;
                proof {
                    assert(pv.skip(0) =~= pv);
                    assert(prows_view(next@) =~= Seq::<
                        Seq<Option<crate::values::Value>>,
                    >::empty());
                }
                while ri < rows.len()
                    invariant
                        ri <= rows@.len(),
                        pv == prows_view(rows@),
                        spec_pattern_rows(ds, *entity, *attribute, *value, *tx, pv) == prows_view(
                            next@,
                        ) + spec_pattern_rows(
                            ds,
                            *entity,
                            *attribute,
                            *value,
                            *tx,
                            pv.skip(ri as int),
                        ),
                    decreases rows@.len() - ri,
                {
                    proof {
                        assert(pv.skip(ri as int)[0] == pv[ri as int]);
                        assert(pv.skip(ri as int).drop_first() =~= pv.skip(ri as int + 1));
                        assert(pv[ri as int] == row_view(rows@[ri as int]@));
                    }
                    let ghost base = prows_view(next@);
                    let ghost rv = pv[ri as int];
                    let mut di: usize = 0;
                    proof {
                        assert(ds.skip(0) =~= ds);
                    }
                    while di < datoms.len()
                        invariant
                            di <= ds.len(),
                            ri < rows@.len(),
                            pv == prows_view(rows@),
                            rv == row_view(rows@[ri as int]@),
                            base + spec_pattern_row(ds, *entity, *attribute, *value, *tx, rv)
                                == prows_view(next@) + spec_pattern_row(
                                ds.skip(di as int),
                                *entity,
                                *attribute,
                                *value,
                                *tx,
                                rv,
                            ),
                        decreases ds.len() - di,
                    {
                        proof {
                            assert(ds.skip(di as int)[0] == ds[di as int]);
                            assert(ds.skip(di as int).drop_first() =~= ds.skip(di as int + 1));
                        }
                        let ghost next_prev = prows_view(next@);
                        let d = &datoms[di];
                        let r0 = copy_row(&rows[ri]);
                        let step = match match_place(r0, entity, d.e) {
                            None => None,
                            Some(r1) => match match_place(r1, attribute, d.a) {
                                None => None,
                                Some(r2) => match match_value_place(r2, value, &d.v) {
                                    None => None,
                                    Some(r3) => match_place(r3, tx, d.tx),
                                },
                            },
                        };
                        match step {
                            Some(r4) => {
                                let ghost r4v = row_view(r4@);
                                next.push(r4);
                                proof {
                                    assert(prows_view(next@) =~= next_prev.push(r4v));
                                    assert(next_prev.push(r4v) =~= next_prev + seq![r4v]);
                                    assert((next_prev + seq![r4v]) + spec_pattern_row(
                                        ds.skip(di as int + 1),
                                        *entity,
                                        *attribute,
                                        *value,
                                        *tx,
                                        rv,
                                    ) =~= next_prev + (seq![r4v] + spec_pattern_row(
                                        ds.skip(di as int + 1),
                                        *entity,
                                        *attribute,
                                        *value,
                                        *tx,
                                        rv,
                                    )));
                                }
                            },
                            None => {},
                        }
                        di += 1;
                    }
                    proof {
                        assert(ds.skip(di as int) =~= Seq::<Datom>::empty());
                    }
                    ri += 1;
                }
                proof {
                    assert(pv.skip(ri as int) =~= Seq::<
                        Seq<Option<crate::values::Value>>,
                    >::empty());
                }
            },
            ResolvedClause::Pred { op, left, right } => {
                let mut ri: usize = 0;
                proof {
                    assert(pv.skip(0) =~= pv);
                    assert(prows_view(next@) =~= Seq::<
                        Seq<Option<crate::values::Value>>,
                    >::empty());
                }
                while ri < rows.len()
                    invariant
                        ri <= rows@.len(),
                        pv == prows_view(rows@),
                        spec_pred_rows(pv, *op, *left, *right) == prows_view(next@)
                            + spec_pred_rows(pv.skip(ri as int), *op, *left, *right),
                    decreases rows@.len() - ri,
                {
                    proof {
                        assert(pv.skip(ri as int)[0] == pv[ri as int]);
                        assert(pv.skip(ri as int).drop_first() =~= pv.skip(ri as int + 1));
                        assert(pv[ri as int] == row_view(rows@[ri as int]@));
                    }
                    let ghost next_prev = prows_view(next@);
                    let keep = match (operand_value(&rows[ri], left), operand_value(
                        &rows[ri],
                        right,
                    )) {
                        (Some(a), Some(b)) => eval_pred(*op, &a, &b),
                        _ => false,
                    };
                    if keep {
                        let r2 = copy_row(&rows[ri]);
                        let ghost r2v = row_view(r2@);
                        next.push(r2);
                        proof {
                            assert(prows_view(next@) =~= next_prev.push(r2v));
                            assert(next_prev.push(r2v) =~= next_prev + seq![r2v]);
                            assert((next_prev + seq![r2v]) + spec_pred_rows(
                                pv.skip(ri as int + 1),
                                *op,
                                *left,
                                *right,
                            ) =~= next_prev + (seq![r2v] + spec_pred_rows(
                                pv.skip(ri as int + 1),
                                *op,
                                *left,
                                *right,
                            )));
                        }
                    }
                    ri += 1;
                }
                proof {
                    assert(pv.skip(ri as int) =~= Seq::<
                        Seq<Option<crate::values::Value>>,
                    >::empty());
                }
            },
            ResolvedClause::Ground { value, column } => {
                let mut ri: usize = 0;
                proof {
                    assert(pv.skip(0) =~= pv);
                    assert(prows_view(next@) =~= Seq::<
                        Seq<Option<crate::values::Value>>,
                    >::empty());
                }
                while ri < rows.len()
                    invariant
                        ri <= rows@.len(),
                        pv == prows_view(rows@),
                        spec_ground_rows(pv, value@, *column) == prows_view(next@)
                            + spec_ground_rows(pv.skip(ri as int), value@, *column),
                    decreases rows@.len() - ri,
                {
                    proof {
                        assert(pv.skip(ri as int)[0] == pv[ri as int]);
                        assert(pv.skip(ri as int).drop_first() =~= pv.skip(ri as int + 1));
                        assert(pv[ri as int] == row_view(rows@[ri as int]@));
                    }
                    let ghost next_prev = prows_view(next@);
                    let r0 = copy_row(&rows[ri]);
                    match match_value_place(r0, &ResolvedValuePlace::Column(*column), value) {
                        Some(r1) => {
                            let ghost r1v = row_view(r1@);
                            next.push(r1);
                            proof {
                                assert(prows_view(next@) =~= next_prev.push(r1v));
                                assert(next_prev.push(r1v) =~= next_prev + seq![r1v]);
                                assert((next_prev + seq![r1v]) + spec_ground_rows(
                                    pv.skip(ri as int + 1),
                                    value@,
                                    *column,
                                ) =~= next_prev + (seq![r1v] + spec_ground_rows(
                                    pv.skip(ri as int + 1),
                                    value@,
                                    *column,
                                )));
                            }
                        },
                        None => {},
                    }
                    ri += 1;
                }
                proof {
                    assert(pv.skip(ri as int) =~= Seq::<
                        Seq<Option<crate::values::Value>>,
                    >::empty());
                }
            },
            _ => {
                // Fulltext and transaction-log clauses are the storage
                // collaborator's to run.
                return Err(
                    CoreError::NotYetImplemented(
                        "fulltext and transaction-log clauses in the in-memory evaluator"
                            .to_owned(),
                    ),
                );
            },
        }
        rows = next;
        ci += 1;
    }
    proof {
        assert(cs.skip(ci as int) =~= Seq::<ResolvedClause>::empty());
    }
    Ok(rows)
}

/// Whether a row's bound values inhabit each column's type set, from
/// column `idx` on.
pub open spec fn spec_row_types_ok(
    types: Seq<ValueTypeSet>,
    row: Seq<Option<crate::values::Value>>,
    idx: int,
) -> bool
    decreases row.len() - idx,
{
    if idx < 0 || idx >= row.len() {
        true
    } else {
        (if idx < types.len() {
            match row[idx] {
                Some(v) => types[idx].spec_contains(crate::values::spec_value_type_of(v)),
                None => true,
            }
        } else {
            true
        }) && spec_row_types_ok(types, row, idx + 1)
    }
}

/// The rows whose bound values inhabit each column's type set.
pub open spec fn spec_filter_types(
    types: Seq<ValueTypeSet>,
    rows: Seq<Seq<Option<crate::values::Value>>>,
) -> Seq<Seq<Option<crate::values::Value>>>
    decreases rows.len(),
{
    if rows.len() == 0 {
        Seq::empty()
    } else {
        (if spec_row_types_ok(types, rows[0], 0) {
            seq![rows[0]]
        } else {
            Seq::empty()
        }) + spec_filter_types(types, rows.drop_first())
    }
}

/// Keep the rows whose bound values inhabit each column's narrowed type
/// set: the evaluator's enforcement of the plan's type constraints.
fn filter_rows_by_types(types: &Vec<ValueTypeSet>, rows: Vec<Row>) -> (r: Vec<Row>)
    ensures
        prows_view(r@) == spec_filter_types(types@, prows_view(rows@)),
{
    let ghost pv = prows_view(rows@);
    let mut out: Vec<Row> = Vec::new();
    let mut ri: usize = 0;
    proof {
        assert(pv.skip(0) =~= pv);
        assert(prows_view(out@) =~= Seq::<Seq<Option<crate::values::Value>>>::empty());
    }
    while ri < rows.len()
        invariant
            ri <= rows@.len(),
            pv == prows_view(rows@),
            spec_filter_types(types@, pv) == prows_view(out@) + spec_filter_types(
                types@,
                pv.skip(ri as int),
            ),
        decreases rows@.len() - ri,
    {
        proof {
            assert(pv.skip(ri as int)[0] == pv[ri as int]);
            assert(pv.skip(ri as int).drop_first() =~= pv.skip(ri as int + 1));
            assert(pv[ri as int] == row_view(rows@[ri as int]@));
        }
        let ghost rv = pv[ri as int];
        let row = &rows[ri];
        let mut keep = true;
        let mut c: usize = 0;
        while c < row.len()
            invariant
                ri < rows@.len(),
                c <= row@.len(),
                row == &rows@[ri as int],
                rv == row_view(row@),
                spec_row_types_ok(types@, rv, 0) == (keep && spec_row_types_ok(
                    types@,
                    rv,
                    c as int,
                )),
            decreases row@.len() - c,
        {
            if c < types.len() {
                match &row[c] {
                    Some(tv) => {
                        if !types[c].contains(tv.value_type()) {
                            keep = false;
                        }
                    },
                    None => {},
                }
            }
            c += 1;
        }
        let ghost out_prev = prows_view(out@);
        if keep {
            let r2 = copy_row(row);
            let ghost r2v = row_view(r2@);
            out.push(r2);
            proof {
                assert(prows_view(out@) =~= out_prev.push(r2v));
                assert(out_prev.push(r2v) =~= out_prev + seq![r2v]);
                assert((out_prev + seq![r2v]) + spec_filter_types(
                    types@,
                    pv.skip(ri as int + 1),
                ) =~= out_prev + (seq![r2v] + spec_filter_types(types@, pv.skip(ri as int + 1))));
            }
        }
        ri += 1;
    }
    proof {
        assert(pv.skip(ri as int) =~= Seq::<Seq<Option<crate::values::Value>>>::empty());
    }
    out
}

/// Whether two value rows agree.
fn rows_equal(a: &Vec<TypedValue>, b: &Vec<TypedValue>) -> (r: bool)
    ensures
        r == (vals_view(a@) == vals_view(b@)),
{
    if a.len() != b.len() {
        proof {
            assert(vals_view(a@).len() != vals_view(b@).len());
        }
        return false;
    }
    let mut i: usize = 0;
    while i < a.len()
        invariant
            i <= a@.len(),
            a@.len() == b@.len(),
            forall|j: int| 0 <= j < i ==> vals_view(a@)[j] == vals_view(b@)[j],
        decreases a@.len() - i,
    {
        if !a[i].same(&b[i]) {
            proof {
                assert(vals_view(a@)[i as int] == a@[i as int]@);
                assert(vals_view(b@)[i as int] == b@[i as int]@);
            }
            return false;
        }
        i += 1;
    }
    proof {
        assert(vals_view(a@) =~= vals_view(b@));
    }
    true
}

/// Copy a value row.
fn copy_values(row: &Vec<TypedValue>) -> (r: Vec<TypedValue>)
    ensures
        vals_view(r@) == vals_view(row@),
{
    let mut r: Vec<TypedValue> = Vec::new();
    let mut i: usize = 0;
    while i < row.len()
        invariant
            i <= row@.len(),
            r@.len() == i,
            forall|j: int| 0 <= j < i ==> vals_view(r@)[j] == vals_view(row@)[j],
        decreases row@.len() - i,
    {
        r.push(row[i].duplicate());
        i += 1;
    }
    proof {
        assert(vals_view(r@) =~= vals_view(row@));
    }
    r
}

/// The first row of the list equal to `row`.
pub open spec fn spec_find_row(
    rs: Seq<Seq<crate::values::Value>>,
    row: Seq<crate::values::Value>,
) -> Option<int>
    decreases rs.len(),
{
    if rs.len() == 0 {
        None
    } else if rs[0] == row {
        Some(0int)
    } else {
        match spec_find_row(rs.drop_first(), row) {
            Some(i) => Some(i + 1),
            None => None,
        }
    }
}

/// A hit at the first matching index is what `spec_find_row` returns.
proof fn lemma_find_row_hit(rs: Seq<Seq<crate::values::Value>>, row: Seq<crate::values::Value>, i: int)
    requires
        0 <= i < rs.len(),
        rs[i] == row,
        forall|j: int| 0 <= j < i ==> rs[j] != row,
    ensures
        spec_find_row(rs, row) == Some(i),
    decreases rs.len(),
{
    if rs[0] != row {
        assert(i > 0);
        assert(forall|j: int|
            0 <= j < rs.drop_first().len() ==> #[trigger] rs.drop_first()[j] == rs[j + 1]);
        lemma_find_row_hit(rs.drop_first(), row, i - 1);
    }
}

/// With no equal row, `spec_find_row` misses.
proof fn lemma_find_row_none(rs: Seq<Seq<crate::values::Value>>, row: Seq<crate::values::Value>)
    requires
        forall|j: int| 0 <= j < rs.len() ==> rs[j] != row,
    ensures
        spec_find_row(rs, row) is None,
    decreases rs.len(),
{
    if rs.len() > 0 {
        assert(forall|j: int|
            0 <= j < rs.drop_first().len() ==> #[trigger] rs.drop_first()[j] == rs[j + 1]);
        lemma_find_row_none(rs.drop_first(), row);
    }
}

/// A found index is in range and names an equal row.
proof fn lemma_find_row_range(rs: Seq<Seq<crate::values::Value>>, row: Seq<crate::values::Value>)
    ensures
        match spec_find_row(rs, row) {
            Some(i) => 0 <= i < rs.len() && rs[i] == row,
            None => true,
        },
    decreases rs.len(),
{
    if rs.len() > 0 && rs[0] != row {
        lemma_find_row_range(rs.drop_first(), row);
    }
}

/// Find the first row of the list equal to `row`.
fn find_row(rows: &Vec<Vec<TypedValue>>, row: &Vec<TypedValue>) -> (r: Option<usize>)
    ensures
        match spec_find_row(rows_view(rows@), vals_view(row@)) {
            Some(i) => r matches Some(u) && u as int == i,
            None => r is None,
        },
{
    let mut i: usize = 0;
    while i < rows.len()
        invariant
            i <= rows@.len(),
            forall|j: int| 0 <= j < i ==> rows_view(rows@)[j] != vals_view(row@),
        decreases rows@.len() - i,
    {
        if rows_equal(&rows[i], row) {
            proof {
                lemma_find_row_hit(rows_view(rows@), vals_view(row@), i as int);
            }
            return Some(i);
        }
        i += 1;
    }
    proof {
        lemma_find_row_none(rows_view(rows@), vals_view(row@));
    }
    None
}

/// Whether a list of rows holds one equal to `row`.
fn rows_contain(rows: &Vec<Vec<TypedValue>>, row: &Vec<TypedValue>) -> (r: bool)
    ensures
        r == (spec_find_row(rows_view(rows@), vals_view(row@)) is Some),
{
    match find_row(rows, row) {
        Some(_) => true,
        None => false,
    }
}

/// First-occurrence deduplication, appended to `acc`.
pub open spec fn spec_distinct_acc(
    acc: Seq<Seq<crate::values::Value>>,
    rows: Seq<Seq<crate::values::Value>>,
) -> Seq<Seq<crate::values::Value>>
    decreases rows.len(),
{
    if rows.len() == 0 {
        acc
    } else if spec_find_row(acc, rows[0]) is Some {
        spec_distinct_acc(acc, rows.drop_first())
    } else {
        spec_distinct_acc(acc.push(rows[0]), rows.drop_first())
    }
}

/// The distinct rows, first occurrence first.
fn distinct_rows(rows: Vec<Vec<TypedValue>>) -> (r: Vec<Vec<TypedValue>>)
    ensures
        rows_view(r@) == spec_distinct_acc(Seq::empty(), rows_view(rows@)),
{
    let ghost rv = rows_view(rows@);
    let mut out: Vec<Vec<TypedValue>> = Vec::new();
    let mut i: usize = 0;
    proof {
        assert(rv.skip(0) =~= rv);
        assert(rows_view(out@) =~= Seq::<Seq<crate::values::Value>>::empty());
    }
    while i < rows.len()
        invariant
            i <= rows@.len(),
            rv == rows_view(rows@),
            spec_distinct_acc(Seq::empty(), rv) == spec_distinct_acc(
                rows_view(out@),
                rv.skip(i as int),
            ),
        decreases rows@.len() - i,
    {
        proof {
            assert(rv.skip(i as int)[0] == rv[i as int]);
            assert(rv.skip(i as int).drop_first() =~= rv.skip(i as int + 1));
            assert(rv[i as int] == vals_view(rows@[i as int]@));
        }
        let ghost out_prev = rows_view(out@);
        if !rows_contain(&out, &rows[i]) {
            out.push(copy_values(&rows[i]));
            proof {
                assert(rows_view(out@) =~= out_prev.push(rv[i as int]));
            }
        }
        i += 1;
    }
    proof {
        assert(rv.skip(i as int) =~= Seq::<Seq<crate::values::Value>>::empty());
    }
    out
}

/// The distinct values seen in one column of a group, in order.
pub open spec fn spec_seen_col(
    members: Seq<Seq<crate::values::Value>>,
    j: usize,
    acc: Seq<Seq<crate::values::Value>>,
) -> Seq<Seq<crate::values::Value>>
    decreases members.len(),
{
    if members.len() == 0 {
        acc
    } else if j < members[0].len() {
        let single = seq![members[0][j as int]];
        if spec_find_row(acc, single) is Some {
            spec_seen_col(members.drop_first(), j, acc)
        } else {
            spec_seen_col(members.drop_first(), j, acc.push(single))
        }
    } else {
        spec_seen_col(members.drop_first(), j, acc)
    }
}

/// The number of distinct values in a column of a group.
fn count_distinct_at(members: &Vec<Vec<TypedValue>>, j: usize) -> (r: usize)
    ensures
        r as int == spec_seen_col(rows_view(members@), j, Seq::empty()).len(),
{
    let ghost mv = rows_view(members@);
    let mut seen: Vec<Vec<TypedValue>> = Vec::new();
    let mut i: usize = 0;
    proof {
        assert(mv.skip(0) =~= mv);
        assert(rows_view(seen@) =~= Seq::<Seq<crate::values::Value>>::empty());
    }
    while i < members.len()
        invariant
            i <= members@.len(),
            mv == rows_view(members@),
            spec_seen_col(mv, j, Seq::empty()) == spec_seen_col(
                mv.skip(i as int),
                j,
                rows_view(seen@),
            ),
        decreases members@.len() - i,
    {
        proof {
            assert(mv.skip(i as int)[0] == mv[i as int]);
            assert(mv.skip(i as int).drop_first() =~= mv.skip(i as int + 1));
            assert(mv[i as int] == vals_view(members@[i as int]@));
        }
        let ghost seen_prev = rows_view(seen@);
        let row = &members[i];
        if j < row.len() {
            let mut single: Vec<TypedValue> = Vec::new();
            single.push(row[j].duplicate());
            proof {
                assert(vals_view(single@) =~= seq![mv[i as int][j as int]]);
            }
            if !rows_contain(&seen, &single) {
                let ghost sv = vals_view(single@);
                seen.push(single);
                proof {
                    assert(rows_view(seen@) =~= seen_prev.push(sv));
                }
            }
        }
        i += 1;
    }
    proof {
        assert(mv.skip(i as int) =~= Seq::<Seq<crate::values::Value>>::empty());
    }
    seen.len()
}
/// The running sum of a group's column, refused outside the 64-bit
/// range or on a non-`Long` value.
pub open spec fn spec_sum_from(
    members: Seq<Seq<crate::values::Value>>,
    j: usize,
    total: int,
) -> Option<int>
    decreases members.len(),
{
    if members.len() == 0 {
        if total > 0x7fff_ffff_ffff_ffff || total < -0x8000_0000_0000_0000 {
            None
        } else {
            Some(total)
        }
    } else if j < members[0].len() {
        match members[0][j as int] {
            crate::values::Value::Long(n) => if total > 0x7fff_ffff_ffff_ffff || total
                < -0x8000_0000_0000_0000 {
                None
            } else {
                spec_sum_from(members.drop_first(), j, total + n)
            },
            _ => None,
        }
    } else {
        spec_sum_from(members.drop_first(), j, total)
    }
}

/// The fold `min`/`max` walks over a group's column.
pub open spec fn spec_minmax_fold(
    is_min: bool,
    members: Seq<Seq<crate::values::Value>>,
    j: usize,
    best: Option<crate::values::Value>,
) -> Option<crate::values::Value>
    decreases members.len(),
{
    if members.len() == 0 {
        best
    } else if j < members[0].len() {
        let cand = members[0][j as int];
        let take = match best {
            None => true,
            Some(b) => if is_min {
                spec_value_le(cand, b) && cand != b
            } else {
                spec_value_le(b, cand) && cand != b
            },
        };
        spec_minmax_fold(
            is_min,
            members.drop_first(),
            j,
            if take {
                Some(cand)
            } else {
                best
            },
        )
    } else {
        spec_minmax_fold(is_min, members.drop_first(), j, best)
    }
}

/// One aggregate over a group's column; `None` is a refusal.
pub open spec fn spec_aggregate(
    op: AggregateOp,
    members: Seq<Seq<crate::values::Value>>,
    j: usize,
    extreme: int,
) -> Option<crate::values::Value> {
    match op {
        AggregateOp::Count => if members.len() >= 0x7fff_ffff_ffff_ffff {
            None
        } else {
            Some(crate::values::Value::Long(members.len() as int))
        },
        AggregateOp::CountDistinct => {
            let n = spec_seen_col(members, j, Seq::empty()).len();
            if n >= 0x7fff_ffff_ffff_ffff {
                None
            } else {
                Some(crate::values::Value::Long(n as int))
            }
        },
        AggregateOp::Sum => match spec_sum_from(members, j, 0) {
            Some(t) => Some(crate::values::Value::Long(t)),
            None => None,
        },
        AggregateOp::Min => spec_minmax_fold(true, members, j, None),
        AggregateOp::Max => spec_minmax_fold(false, members, j, None),
        AggregateOp::The => if 0 <= extreme < members.len() && j < members[extreme].len() {
            Some(members[extreme][j as int])
        } else {
            None
        },
        AggregateOp::Avg => None,
    }
}

/// One output value of an aggregate over a group's column.
fn aggregate_value(
    op: AggregateOp,
    members: &Vec<Vec<TypedValue>>,
    j: usize,
    extreme_row: usize,
) -> (r: Result<TypedValue, CoreError>)
    ensures
        match spec_aggregate(op, rows_view(members@), j, extreme_row as int) {
            Some(v) => r matches Ok(tv) && tv@ == v,
            None => r is Err,
        },
{
    let ghost mv = rows_view(members@);
    match op {
        AggregateOp::Count => {
            if members.len() as u64 >= 0x7fff_ffff_ffff_ffff_u64 {
                return Err(
                    CoreError::NotYetImplemented("a count beyond the 64-bit range".to_owned()),
                );
            }
            Ok(TypedValue::Long(members.len() as i64))
        },
        AggregateOp::CountDistinct => {
            let n = count_distinct_at(members, j);
            if n as u64 >= 0x7fff_ffff_ffff_ffff_u64 {
                return Err(
                    CoreError::NotYetImplemented("a count beyond the 64-bit range".to_owned()),
                );
            }
            Ok(TypedValue::Long(n as i64))
        },
        AggregateOp::Sum => {
            let mut total: i128 = 0;
            let mut i: usize = 0;
            proof {
                assert(mv.skip(0) =~= mv);
            }
            while i < members.len()
                invariant
                    i <= members@.len(),
                    op == AggregateOp::Sum,
                    mv == rows_view(members@),
                    total <= 0x1_0000_0000_0000_0000_i128,
                    total >= -0x1_0000_0000_0000_0000_i128,
                    spec_sum_from(mv, j, 0) == spec_sum_from(mv.skip(i as int), j, total as int),
                decreases members@.len() - i,
            {
                proof {
                    assert(mv.skip(i as int)[0] == mv[i as int]);
                    assert(mv.skip(i as int).drop_first() =~= mv.skip(i as int + 1));
                    assert(mv[i as int] == vals_view(members@[i as int]@));
                }
                let row = &members[i];
                if j < row.len() {
                    match &row[j] {
                        TypedValue::Long(n) => {
                            if total > 0x7fff_ffff_ffff_ffff_i128 || total
                                < -0x8000_0000_0000_0000_i128 {
                                return Err(
                                    CoreError::NotYetImplemented(
                                        "a sum beyond the 64-bit range".to_owned(),
                                    ),
                                );
                            }
                            total = total + (*n as i128);
                        },
                        _ => {
                            return Err(
                                CoreError::InvalidArgument(
                                    "sum".to_owned(),
                                    "long values".to_owned(),
                                    0,
                                ),
                            );
                        },
                    }
                }
                i += 1;
            }
            proof {
                assert(mv.skip(i as int) =~= Seq::<Seq<crate::values::Value>>::empty());
            }
            if total > 0x7fff_ffff_ffff_ffff_i128 || total < -0x8000_0000_0000_0000_i128 {
                return Err(
                    CoreError::NotYetImplemented("a sum beyond the 64-bit range".to_owned()),
                );
            }
            Ok(TypedValue::Long(total as i64))
        },
        AggregateOp::Min | AggregateOp::Max => {
            let is_min = matches!(op, AggregateOp::Min);
            let mut best: Option<TypedValue> = None;
            let mut i: usize = 0;
            proof {
                assert(mv.skip(0) =~= mv);
            }
            while i < members.len()
                invariant
                    i <= members@.len(),
                    mv == rows_view(members@),
                    op == AggregateOp::Min || op == AggregateOp::Max,
                    is_min == (op == AggregateOp::Min),
                    spec_minmax_fold(is_min, mv, j, None) == spec_minmax_fold(
                        is_min,
                        mv.skip(i as int),
                        j,
                        match best {
                            Some(b) => Some(b@),
                            None => None,
                        },
                    ),
                decreases members@.len() - i,
            {
                proof {
                    assert(mv.skip(i as int)[0] == mv[i as int]);
                    assert(mv.skip(i as int).drop_first() =~= mv.skip(i as int + 1));
                    assert(mv[i as int] == vals_view(members@[i as int]@));
                }
                let row = &members[i];
                if j < row.len() {
                    let candidate = &row[j];
                    let take = match &best {
                        None => true,
                        Some(b) => {
                            if is_min {
                                value_le(candidate, b) && !candidate.same(b)
                            } else {
                                value_le(b, candidate) && !candidate.same(b)
                            }
                        },
                    };
                    if take {
                        best = Some(candidate.duplicate());
                    }
                }
                i += 1;
            }
            proof {
                assert(mv.skip(i as int) =~= Seq::<Seq<crate::values::Value>>::empty());
            }
            match best {
                Some(v) => Ok(v),
                None => Err(
                    CoreError::InvalidArgument(
                        "aggregate".to_owned(),
                        "a nonempty group".to_owned(),
                        0,
                    ),
                ),
            }
        },
        AggregateOp::The => {
            if extreme_row < members.len() {
                let row = &members[extreme_row];
                if j < row.len() {
                    proof {
                        assert(mv[extreme_row as int] == vals_view(members@[extreme_row as int]@));
                    }
                    Ok(row[j].duplicate())
                } else {
                    Err(
                        CoreError::InvalidArgument(
                            "the".to_owned(),
                            "a projected column".to_owned(),
                            0,
                        ),
                    )
                }
            } else {
                Err(
                    CoreError::InvalidArgument(
                        "the".to_owned(),
                        "a nonempty group".to_owned(),
                        0,
                    ),
                )
            }
        },
        AggregateOp::Avg => Err(
            CoreError::NotYetImplemented("avg in the in-memory evaluator".to_owned()),
        ),
    }
}

/// The first `min` or `max` element of the projection: its position and
/// whether it minimises.
pub open spec fn spec_extreme_target(els: Seq<Element>) -> Option<(int, bool)>
    decreases els.len(),
{
    if els.len() == 0 {
        None
    } else {
        match els[0] {
            Element::Aggregate(AggregateOp::Min, _) => Some((0int, true)),
            Element::Aggregate(AggregateOp::Max, _) => Some((0int, false)),
            _ => match spec_extreme_target(els.drop_first()) {
                Some((i, m)) => Some((i + 1, m)),
                None => None,
            },
        }
    }
}

/// A hit at the first `min`/`max` element is what the target names.
proof fn lemma_extreme_target_hit(els: Seq<Element>, i: int, is_min: bool)
    requires
        0 <= i < els.len(),
        els[i] matches Element::Aggregate(op, _) && (op == AggregateOp::Min || op
            == AggregateOp::Max) && is_min == (op == AggregateOp::Min),
        forall|j: int|
            0 <= j < i ==> !((#[trigger] els[j]) matches Element::Aggregate(op2, _) && (op2
                == AggregateOp::Min || op2 == AggregateOp::Max)),
    ensures
        spec_extreme_target(els) == Some((i, is_min)),
    decreases els.len(),
{
    if i > 0 {
        assert(forall|j: int|
            0 <= j < els.drop_first().len() ==> #[trigger] els.drop_first()[j] == els[j + 1]);
        lemma_extreme_target_hit(els.drop_first(), i - 1, is_min);
    }
}

/// With no `min`/`max` element there is no target.
proof fn lemma_extreme_target_none(els: Seq<Element>)
    requires
        forall|j: int|
            0 <= j < els.len() ==> !((#[trigger] els[j]) matches Element::Aggregate(op2, _) && (
            op2 == AggregateOp::Min || op2 == AggregateOp::Max)),
    ensures
        spec_extreme_target(els) is None,
    decreases els.len(),
{
    if els.len() > 0 {
        assert(forall|j: int|
            0 <= j < els.drop_first().len() ==> #[trigger] els.drop_first()[j] == els[j + 1]);
        lemma_extreme_target_none(els.drop_first());
    }
}

/// Find the first `min`/`max` element of the projection.
fn find_extreme_target(els: &Vec<Element>) -> (r: Option<(usize, bool)>)
    ensures
        match spec_extreme_target(els@) {
            Some((i, m)) => r matches Some((u, m2)) && u as int == i && m2 == m,
            None => r is None,
        },
{
    let mut j: usize = 0;
    while j < els.len()
        invariant
            j <= els@.len(),
            forall|p: int|
                0 <= p < j ==> !((#[trigger] els@[p]) matches Element::Aggregate(op2, _) && (op2
                    == AggregateOp::Min || op2 == AggregateOp::Max)),
        decreases els@.len() - j,
    {
        match &els[j] {
            Element::Aggregate(AggregateOp::Min, _) => {
                proof {
                    lemma_extreme_target_hit(els@, j as int, true);
                }
                return Some((j, true));
            },
            Element::Aggregate(AggregateOp::Max, _) => {
                proof {
                    lemma_extreme_target_hit(els@, j as int, false);
                }
                return Some((j, false));
            },
            _ => {},
        }
        j += 1;
    }
    proof {
        lemma_extreme_target_none(els@);
    }
    None
}

/// The fold that finds the member attaining the extreme of one column.
pub open spec fn spec_best_from(
    members: Seq<Seq<crate::values::Value>>,
    col: usize,
    is_min: bool,
    i: int,
    best: int,
) -> int
    decreases members.len() - i,
{
    if i < 0 || i >= members.len() {
        best
    } else {
        let better = 0 <= best < members.len() && col < members[best].len() && col
            < members[i].len() && (if is_min {
            spec_value_le(members[i][col as int], members[best][col as int]) && members[i][col as int]
                != members[best][col as int]
        } else {
            spec_value_le(members[best][col as int], members[i][col as int]) && members[i][col as int]
                != members[best][col as int]
        });
        spec_best_from(
            members,
            col,
            is_min,
            i + 1,
            if better {
                i
            } else {
                best
            },
        )
    }
}

/// The member row the single `min`/`max` aggregate points `the` at; the
/// first row when there is none.
pub open spec fn spec_extreme_member(els: Seq<Element>, members: Seq<Seq<crate::values::Value>>) -> int {
    match spec_extreme_target(els) {
        None => 0,
        Some((col, is_min)) => spec_best_from(members, col as usize, is_min, 1, 0),
    }
}

/// The member row attaining the extreme of the single `min`/`max`
/// aggregate, for `the` to pick from; the first row when there is none.
fn extreme_member(els: &Vec<Element>, members: &Vec<Vec<TypedValue>>) -> (r: usize)
    ensures
        r as int == spec_extreme_member(els@, rows_view(members@)),
{
    let ghost mv = rows_view(members@);
    let (col, is_min) = match find_extreme_target(els) {
        Some(t) => t,
        None => {
            return 0;
        },
    };
    let mut best: usize = 0;
    let mut i: usize = 1;
    while i < members.len()
        invariant
            1 <= i,
            mv == rows_view(members@),
            best < members@.len() || best == 0,
            spec_best_from(mv, col, is_min, 1, 0) == spec_best_from(
                mv,
                col,
                is_min,
                i as int,
                best as int,
            ),
        decreases members@.len() - i,
    {
        proof {
            assert(mv[i as int] == vals_view(members@[i as int]@));
            if (best as int) < mv.len() {
                assert(mv[best as int] == vals_view(members@[best as int]@));
            }
        }
        let better = if best < members.len() && col < members[best].len() && col
            < members[i].len() {
            if is_min {
                value_le(&members[i][col], &members[best][col]) && !members[i][col].same(
                    &members[best][col],
                )
            } else {
                value_le(&members[best][col], &members[i][col]) && !members[i][col].same(
                    &members[best][col],
                )
            }
        } else {
            false
        };
        if better {
            best = i;
        }
        i += 1;
    }
    best
}

/// Resolving the find elements to plan columns, recording grouping
/// positions and whether any aggregate appears; `None` is an unbound
/// projection variable.
pub open spec fn spec_cols_fold(
    vars: Seq<String>,
    els: Seq<Element>,
    j: int,
    cols: Seq<usize>,
    kps: Seq<usize>,
    has_agg: bool,
) -> Option<(Seq<usize>, Seq<usize>, bool)>
    decreases els.len() - j,
{
    if j < 0 || j >= els.len() {
        Some((cols, kps, has_agg))
    } else {
        match els[j] {
            Element::Variable(v) => match crate::algebrize::find_var(vars, v) {
                None => None,
                Some(c) => spec_cols_fold(
                    vars,
                    els,
                    j + 1,
                    cols.push(c as usize),
                    kps.push(j as usize),
                    has_agg,
                ),
            },
            Element::Aggregate(_, v) => match crate::algebrize::find_var(vars, v) {
                None => None,
                Some(c) => spec_cols_fold(vars, els, j + 1, cols.push(c as usize), kps, true),
            },
        }
    }
}

/// Appending the `:with` columns; `None` is an unbound grouping
/// variable.
pub open spec fn spec_with_fold(
    vars: Seq<String>,
    ws: Seq<String>,
    k: int,
    cols: Seq<usize>,
) -> Option<Seq<usize>>
    decreases ws.len() - k,
{
    if k < 0 || k >= ws.len() {
        Some(cols)
    } else {
        match crate::algebrize::find_var(vars, ws[k]) {
            None => None,
            Some(c) => spec_with_fold(vars, ws, k + 1, cols.push(c as usize)),
        }
    }
}

/// Reading the chosen columns out of one bound row, from `ci` on;
/// `None` is a column the row leaves unbound.
pub open spec fn spec_project_row_from(
    row: Seq<Option<crate::values::Value>>,
    cols: Seq<usize>,
    ci: int,
) -> Option<Seq<crate::values::Value>>
    decreases cols.len() - ci,
{
    if ci < 0 || ci >= cols.len() {
        Some(Seq::empty())
    } else {
        let c = cols[ci];
        if c < row.len() {
            match row[c as int] {
                Some(v) => match spec_project_row_from(row, cols, ci + 1) {
                    Some(rest) => Some(seq![v] + rest),
                    None => None,
                },
                None => None,
            }
        } else {
            None
        }
    }
}

/// The fully-bound rows, projected to the chosen columns.
pub open spec fn spec_projected(
    rows: Seq<Seq<Option<crate::values::Value>>>,
    cols: Seq<usize>,
) -> Seq<Seq<crate::values::Value>>
    decreases rows.len(),
{
    if rows.len() == 0 {
        Seq::empty()
    } else {
        (match spec_project_row_from(rows[0], cols, 0) {
            Some(vals) => seq![vals],
            None => Seq::empty(),
        }) + spec_projected(rows.drop_first(), cols)
    }
}

/// The grouping key of a projected row: its values at the un-aggregated
/// element positions.
pub open spec fn spec_key_of(
    row: Seq<crate::values::Value>,
    kps: Seq<usize>,
    p: int,
) -> Seq<crate::values::Value>
    decreases kps.len() - p,
{
    if p < 0 || p >= kps.len() {
        Seq::empty()
    } else {
        (if kps[p] < row.len() {
            seq![row[kps[p] as int]]
        } else {
            Seq::empty()
        }) + spec_key_of(row, kps, p + 1)
    }
}

/// Grouping the distinct rows by their keys, first appearance first.
pub open spec fn spec_group(
    rows: Seq<Seq<crate::values::Value>>,
    kps: Seq<usize>,
    keys: Seq<Seq<crate::values::Value>>,
    groups: Seq<Seq<Seq<crate::values::Value>>>,
) -> (Seq<Seq<crate::values::Value>>, Seq<Seq<Seq<crate::values::Value>>>)
    decreases rows.len(),
{
    if rows.len() == 0 {
        (keys, groups)
    } else {
        let key = spec_key_of(rows[0], kps, 0);
        match spec_find_row(keys, key) {
            Some(g) => spec_group(
                rows.drop_first(),
                kps,
                keys,
                groups.update(g, groups[g].push(rows[0])),
            ),
            None => spec_group(
                rows.drop_first(),
                kps,
                keys.push(key),
                groups.push(seq![rows[0]]),
            ),
        }
    }
}

/// Whether every element from `j` on is a plain count.
pub open spec fn spec_all_counts(els: Seq<Element>, j: int) -> bool
    decreases els.len() - j,
{
    if j < 0 || j >= els.len() {
        true
    } else {
        (match els[j] {
            Element::Aggregate(AggregateOp::Count, _) => true,
            Element::Aggregate(AggregateOp::CountDistinct, _) => true,
            _ => false,
        }) && spec_all_counts(els, j + 1)
    }
}

/// The all-zero row counts produce over an empty selection.
pub open spec fn spec_zero_row(els: Seq<Element>) -> Seq<crate::values::Value> {
    Seq::new(els.len(), |i: int| crate::values::Value::Long(0))
}

/// One output row of a group: grouped values from the first member,
/// aggregates over the whole group.
pub open spec fn spec_output_row(
    els: Seq<Element>,
    g: Seq<Seq<crate::values::Value>>,
    ex: int,
    j: int,
) -> Option<Seq<crate::values::Value>>
    decreases els.len() - j,
{
    if j < 0 || j >= els.len() {
        Some(Seq::empty())
    } else {
        let v = match els[j] {
            Element::Variable(_) => if g.len() > 0 && j < g[0].len() {
                Some(g[0][j])
            } else {
                None
            },
            Element::Aggregate(op, _) => spec_aggregate(op, g, j as usize, ex),
        };
        match v {
            None => None,
            Some(v) => match spec_output_row(els, g, ex, j + 1) {
                Some(rest) => Some(seq![v] + rest),
                None => None,
            },
        }
    }
}

/// The output rows, one per group in first-appearance order.
pub open spec fn spec_outputs(
    els: Seq<Element>,
    groups: Seq<Seq<Seq<crate::values::Value>>>,
) -> Option<Seq<Seq<crate::values::Value>>>
    decreases groups.len(),
{
    if groups.len() == 0 {
        Some(Seq::empty())
    } else {
        let ex = spec_extreme_member(els, groups[0]);
        match spec_output_row(els, groups[0], ex, 0) {
            None => None,
            Some(row) => match spec_outputs(els, groups.drop_first()) {
                Some(rest) => Some(seq![row] + rest),
                None => None,
            },
        }
    }
}

/// A projected row cut back to the find elements, dropping the `:with`
/// extras.
pub open spec fn spec_truncate(row: Seq<crate::values::Value>, n: int, j: int) -> Seq<
    crate::values::Value,
>
    decreases n - j,
{
    if j < 0 || j >= n {
        Seq::empty()
    } else {
        (if j < row.len() {
            seq![row[j]]
        } else {
            Seq::empty()
        }) + spec_truncate(row, n, j + 1)
    }
}

/// Every distinct row cut back to the find elements.
pub open spec fn spec_truncated(rows: Seq<Seq<crate::values::Value>>, n: int) -> Seq<
    Seq<crate::values::Value>,
>
    decreases rows.len(),
{
    if rows.len() == 0 {
        Seq::empty()
    } else {
        seq![spec_truncate(rows[0], n, 0)] + spec_truncated(rows.drop_first(), n)
    }
}

/// The whole projection: restrict to distinct rows over elements and
/// `:with` together, then either drop the extras, or group by the
/// un-aggregated elements and aggregate — counts survive an empty
/// ungrouped selection, any other aggregate rejects its row whole.
pub open spec fn spec_project_rows(
    vars: Seq<String>,
    els: Seq<Element>,
    ws: Seq<String>,
    rows: Seq<Seq<Option<crate::values::Value>>>,
) -> Option<Seq<Seq<crate::values::Value>>> {
    match spec_cols_fold(vars, els, 0, Seq::empty(), Seq::empty(), false) {
        None => None,
        Some((ecols, kps, has_agg)) => match spec_with_fold(vars, ws, 0, ecols) {
            None => None,
            Some(cols) => {
                let dis = spec_distinct_acc(Seq::empty(), spec_projected(rows, cols));
                if !has_agg {
                    Some(spec_truncated(dis, els.len() as int))
                } else {
                    let (keys, groups) = spec_group(dis, kps, Seq::empty(), Seq::empty());
                    if groups.len() == 0 {
                        if kps.len() == 0 && spec_all_counts(els, 0) {
                            Some(seq![spec_zero_row(els)])
                        } else {
                            Some(Seq::empty())
                        }
                    } else {
                        spec_outputs(els, groups)
                    }
                }
            },
        },
    }
}

/// The model of a list of groups.
pub open spec fn groups_view(s: Seq<Vec<Vec<TypedValue>>>) -> Seq<
    Seq<Seq<crate::values::Value>>,
> {
    Seq::new(s.len(), |i: int| rows_view(s[i]@))
}

/// Read the chosen columns out of one bound row.
fn project_row(row: &Row, cols: &Vec<usize>) -> (r: Option<Vec<TypedValue>>)
    ensures
        match spec_project_row_from(row_view(row@), cols@, 0) {
            Some(vs) => r matches Some(out) && vals_view(out@) == vs,
            None => r is None,
        },
{
    let ghost rv = row_view(row@);
    let mut vals: Vec<TypedValue> = Vec::new();
    let mut ci: usize = 0;
    proof {
        assert(vals_view(vals@) =~= Seq::<crate::values::Value>::empty());
    }
    while ci < cols.len()
        invariant
            ci <= cols@.len(),
            rv == row_view(row@),
            match spec_project_row_from(rv, cols@, ci as int) {
                Some(rest) => spec_project_row_from(rv, cols@, 0) == Some(
                    vals_view(vals@) + rest,
                ),
                None => spec_project_row_from(rv, cols@, 0) is None,
            },
        decreases cols@.len() - ci,
    {
        let c = cols[ci];
        if c < row.len() {
            match &row[c] {
                Some(tv) => {
                    let ghost vprev = vals_view(vals@);
                    vals.push(tv.duplicate());
                    proof {
                        assert(vals_view(vals@) =~= vprev.push(rv[c as int]->0));
                        assert(vprev.push(rv[c as int]->0) =~= vprev + seq![rv[c as int]->0]);
                        if spec_project_row_from(rv, cols@, ci as int + 1) is Some {
                            let rest = spec_project_row_from(rv, cols@, ci as int + 1)->0;
                            assert((vprev + seq![rv[c as int]->0]) + rest =~= vprev + (seq![
                                rv[c as int]->0,
                            ] + rest));
                        }
                    }
                },
                None => {
                    return None;
                },
            }
        } else {
            return None;
        }
        ci += 1;
    }
    proof {
        assert(vals_view(vals@) + Seq::<crate::values::Value>::empty() =~= vals_view(vals@));
    }
    Some(vals)
}

/// The grouping key of a projected row.
fn key_of(row: &Vec<TypedValue>, kps: &Vec<usize>) -> (r: Vec<TypedValue>)
    ensures
        vals_view(r@) == spec_key_of(vals_view(row@), kps@, 0),
{
    let ghost rv = vals_view(row@);
    let mut key: Vec<TypedValue> = Vec::new();
    let mut p: usize = 0;
    proof {
        assert(vals_view(key@) =~= Seq::<crate::values::Value>::empty());
    }
    while p < kps.len()
        invariant
            p <= kps@.len(),
            rv == vals_view(row@),
            spec_key_of(rv, kps@, 0) == vals_view(key@) + spec_key_of(rv, kps@, p as int),
        decreases kps@.len() - p,
    {
        let kp = kps[p];
        if kp < row.len() {
            let ghost kprev = vals_view(key@);
            key.push(row[kp].duplicate());
            proof {
                assert(vals_view(key@) =~= kprev.push(rv[kp as int]));
                assert(kprev.push(rv[kp as int]) =~= kprev + seq![rv[kp as int]]);
                assert((kprev + seq![rv[kp as int]]) + spec_key_of(rv, kps@, p as int + 1) =~= kprev
                    + (seq![rv[kp as int]] + spec_key_of(rv, kps@, p as int + 1)));
            }
        }
        p += 1;
    }
    proof {
        assert(vals_view(key@) + spec_key_of(rv, kps@, p as int) =~= vals_view(key@));
    }
    key
}

/// Project evaluated rows through the find elements and `:with`
/// variables: restrict to distinct rows over both, then aggregate with
/// implicit grouping by the un-aggregated elements.
#[verifier::loop_isolation(false)]
fn project_rows(
    vars: &Vec<String>,
    els: &Vec<Element>,
    with_vars: &Vec<String>,
    rows: Vec<Row>,
) -> (r: Result<Vec<Vec<TypedValue>>, CoreError>)
    ensures
        match spec_project_rows(vars@, els@, with_vars@, prows_view(rows@)) {
            Some(outv) => r matches Ok(out) && rows_view(out@) == outv,
            None => r is Err,
        },
{
    // The columns to read, elements first, grouping extras after.
    let mut cols: Vec<usize> = Vec::new();
    let mut key_positions: Vec<usize> = Vec::new();
    let mut has_agg = false;
    let mut j: usize = 0;
    while j < els.len()
        invariant
            j <= els@.len(),
            spec_cols_fold(vars@, els@, 0, Seq::empty(), Seq::empty(), false) == spec_cols_fold(
                vars@,
                els@,
                j as int,
                cols@,
                key_positions@,
                has_agg,
            ),
        decreases els@.len() - j,
    {
        let var = match &els[j] {
            Element::Variable(v) => {
                key_positions.push(j);
                v
            },
            Element::Aggregate(_, v) => {
                has_agg = true;
                v
            },
        };
        proof {
            crate::algebrize::lemma_find_var_range(vars@, *var);
        }
        match crate::algebrize::find_var_exec(vars, var) {
            Some(c) => cols.push(c),
            None => {
                return Err(
                    CoreError::InvalidArgument(
                        var.as_str().to_owned(),
                        "bound variable".to_owned(),
                        j,
                    ),
                );
            },
        }
        j += 1;
    }
    let n_els = els.len();
    let mut k: usize = 0;
    while k < with_vars.len()
        invariant
            k <= with_vars@.len(),
            spec_cols_fold(vars@, els@, 0, Seq::empty(), Seq::empty(), false) matches Some(
                (ec, kp, ha),
            ) && kp == key_positions@ && ha == has_agg && spec_with_fold(vars@, with_vars@, 0, ec)
                == spec_with_fold(vars@, with_vars@, k as int, cols@),
        decreases with_vars@.len() - k,
    {
        proof {
            crate::algebrize::lemma_find_var_range(vars@, with_vars@[k as int]);
        }
        match crate::algebrize::find_var_exec(vars, &with_vars[k]) {
            Some(c) => cols.push(c),
            None => {
                return Err(
                    CoreError::InvalidArgument(
                        with_vars[k].as_str().to_owned(),
                        "bound variable".to_owned(),
                        k,
                    ),
                );
            },
        }
        k += 1;
    }

    // Read the columns out of each fully-bound row.
    let ghost pv = prows_view(rows@);
    let mut projected: Vec<Vec<TypedValue>> = Vec::new();
    let mut ri: usize = 0;
    proof {
        assert(pv.skip(0) =~= pv);
        assert(rows_view(projected@) =~= Seq::<Seq<crate::values::Value>>::empty());
    }
    while ri < rows.len()
        invariant
            ri <= rows@.len(),
            spec_projected(pv, cols@) == rows_view(projected@) + spec_projected(
                pv.skip(ri as int),
                cols@,
            ),
        decreases rows@.len() - ri,
    {
        proof {
            assert(pv.skip(ri as int)[0] == pv[ri as int]);
            assert(pv.skip(ri as int).drop_first() =~= pv.skip(ri as int + 1));
            assert(pv[ri as int] == row_view(rows@[ri as int]@));
        }
        let ghost proj_prev = rows_view(projected@);
        match project_row(&rows[ri], &cols) {
            Some(vals) => {
                let ghost vv = vals_view(vals@);
                projected.push(vals);
                proof {
                    assert(rows_view(projected@) =~= proj_prev.push(vv));
                    assert(proj_prev.push(vv) =~= proj_prev + seq![vv]);
                    assert((proj_prev + seq![vv]) + spec_projected(pv.skip(ri as int + 1), cols@)
                        =~= proj_prev + (seq![vv] + spec_projected(pv.skip(ri as int + 1), cols@)));
                }
            },
            None => {},
        }
        ri += 1;
    }
    proof {
        assert(pv.skip(ri as int) =~= Seq::<Seq<Option<crate::values::Value>>>::empty());
        assert(rows_view(projected@) + spec_projected(pv.skip(ri as int), cols@) =~= rows_view(
            projected@,
        ));
    }

    // Duplicate rows are eliminated over elements and `:with` together.
    let distinct = distinct_rows(projected);
    let ghost dis = rows_view(distinct@);

    if !has_agg {
        // Drop the grouping extras.
        let mut out: Vec<Vec<TypedValue>> = Vec::new();
        let mut i: usize = 0;
        proof {
            assert(dis.skip(0) =~= dis);
            assert(rows_view(out@) =~= Seq::<Seq<crate::values::Value>>::empty());
        }
        while i < distinct.len()
            invariant
                i <= distinct@.len(),
                dis == rows_view(distinct@),
                spec_truncated(dis, n_els as int) == rows_view(out@) + spec_truncated(
                    dis.skip(i as int),
                    n_els as int,
                ),
            decreases distinct@.len() - i,
        {
            proof {
                assert(dis.skip(i as int)[0] == dis[i as int]);
                assert(dis.skip(i as int).drop_first() =~= dis.skip(i as int + 1));
                assert(dis[i as int] == vals_view(distinct@[i as int]@));
            }
            let row = &distinct[i];
            let ghost rv = dis[i as int];
            let mut vals: Vec<TypedValue> = Vec::new();
            let mut j2: usize = 0;
            proof {
                assert(vals_view(vals@) =~= Seq::<crate::values::Value>::empty());
            }
            while j2 < n_els
                invariant
                    j2 <= n_els,
                    i < distinct@.len(),
                    rv == vals_view(distinct@[i as int]@),
                    row == &distinct@[i as int],
                    spec_truncate(rv, n_els as int, 0) == vals_view(vals@) + spec_truncate(
                        rv,
                        n_els as int,
                        j2 as int,
                    ),
                decreases n_els - j2,
            {
                if j2 < row.len() {
                    let ghost vprev = vals_view(vals@);
                    vals.push(row[j2].duplicate());
                    proof {
                        assert(vals_view(vals@) =~= vprev.push(rv[j2 as int]));
                        assert(vprev.push(rv[j2 as int]) =~= vprev + seq![rv[j2 as int]]);
                        assert((vprev + seq![rv[j2 as int]]) + spec_truncate(
                            rv,
                            n_els as int,
                            j2 as int + 1,
                        ) =~= vprev + (seq![rv[j2 as int]] + spec_truncate(
                            rv,
                            n_els as int,
                            j2 as int + 1,
                        )));
                    }
                }
                j2 += 1;
            }
            proof {
                assert(vals_view(vals@) + spec_truncate(rv, n_els as int, j2 as int) =~= vals_view(
                    vals@,
                ));
            }
            let ghost out_prev = rows_view(out@);
            let ghost vv = vals_view(vals@);
            out.push(vals);
            proof {
                assert(rows_view(out@) =~= out_prev.push(vv));
                assert(out_prev.push(vv) =~= out_prev + seq![vv]);
                assert((out_prev + seq![vv]) + spec_truncated(dis.skip(i as int + 1), n_els as int)
                    =~= out_prev + (seq![vv] + spec_truncated(dis.skip(i as int + 1), n_els as int)));
            }
            i += 1;
        }
        proof {
            assert(dis.skip(i as int) =~= Seq::<Seq<crate::values::Value>>::empty());
            assert(rows_view(out@) + spec_truncated(dis.skip(i as int), n_els as int) =~= rows_view(
                out@,
            ));
        }
        return Ok(out);
    }

    // Group by the un-aggregated elements.
    let mut group_keys: Vec<Vec<TypedValue>> = Vec::new();
    let mut groups: Vec<Vec<Vec<TypedValue>>> = Vec::new();
    let mut i: usize = 0;
    proof {
        assert(dis.skip(0) =~= dis);
        assert(rows_view(group_keys@) =~= Seq::<Seq<crate::values::Value>>::empty());
        assert(groups_view(groups@) =~= Seq::<Seq<Seq<crate::values::Value>>>::empty());
    }
    while i < distinct.len()
        invariant
            i <= distinct@.len(),
            dis == rows_view(distinct@),
            group_keys@.len() == groups@.len(),
            spec_group(dis, key_positions@, Seq::empty(), Seq::empty()) == spec_group(
                dis.skip(i as int),
                key_positions@,
                rows_view(group_keys@),
                groups_view(groups@),
            ),
        decreases distinct@.len() - i,
    {
        proof {
            assert(dis.skip(i as int)[0] == dis[i as int]);
            assert(dis.skip(i as int).drop_first() =~= dis.skip(i as int + 1));
            assert(dis[i as int] == vals_view(distinct@[i as int]@));
        }
        let row = &distinct[i];
        let key = key_of(row, &key_positions);
        let ghost keys_prev = rows_view(group_keys@);
        let ghost groups_prev = groups_view(groups@);
        proof {
            lemma_find_row_range(keys_prev, vals_view(key@));
        }
        match find_row(&group_keys, &key) {
            Some(gi) => {
                let member = copy_values(row);
                let ghost mv = vals_view(member@);
                let g = &mut groups[gi];
                let ghost g_old = g@;
                g.push(member);
                proof {
                    assert(rows_view(groups@[gi as int]@) =~= rows_view(g_old).push(mv));
                    assert(groups_view(groups@) =~= groups_prev.update(
                        gi as int,
                        groups_prev[gi as int].push(dis[i as int]),
                    ));
                }
            },
            None => {
                group_keys.push(key);
                let mut g: Vec<Vec<TypedValue>> = Vec::new();
                g.push(copy_values(row));
                let ghost gv = rows_view(g@);
                groups.push(g);
                proof {
                    assert(gv =~= seq![dis[i as int]]);
                    assert(rows_view(group_keys@) =~= keys_prev.push(
                        spec_key_of(dis[i as int], key_positions@, 0),
                    ));
                    assert(groups_view(groups@) =~= groups_prev.push(gv));
                }
            },
        }
        i += 1;
    }
    proof {
        assert(dis.skip(i as int) =~= Seq::<Seq<crate::values::Value>>::empty());
    }

    // Zero groups: counts over the whole (empty) selection survive,
    // any other aggregate is NULL and kills the row.
    if groups.len() == 0 {
        let mut out: Vec<Vec<TypedValue>> = Vec::new();
        if key_positions.len() == 0 {
            let mut all_counts = true;
            let mut j2: usize = 0;
            while j2 < els.len()
                invariant
                    j2 <= els@.len(),
                    spec_all_counts(els@, 0) == (all_counts && spec_all_counts(els@, j2 as int)),
                decreases els@.len() - j2,
            {
                match &els[j2] {
                    Element::Aggregate(AggregateOp::Count, _) => {},
                    Element::Aggregate(AggregateOp::CountDistinct, _) => {},
                    _ => {
                        all_counts = false;
                    },
                }
                j2 += 1;
            }
            if all_counts {
                let mut vals: Vec<TypedValue> = Vec::new();
                let mut j3: usize = 0;
                while j3 < els.len()
                    invariant
                        j3 <= els@.len(),
                        vals@.len() == j3,
                        forall|p: int| 0 <= p < j3 ==> vals_view(vals@)[p]
                            == crate::values::Value::Long(0),
                    decreases els@.len() - j3,
                {
                    let ghost vprev = vals_view(vals@);
                    vals.push(TypedValue::Long(0));
                    proof {
                        assert(vals_view(vals@) =~= vprev.push(crate::values::Value::Long(0)));
                    }
                    j3 += 1;
                }
                proof {
                    assert(vals_view(vals@) =~= spec_zero_row(els@));
                }
                out.push(vals);
                proof {
                    assert(rows_view(out@) =~= seq![spec_zero_row(els@)]);
                }
            }
        }
        proof {
            if !(key_positions@.len() == 0 && spec_all_counts(els@, 0)) {
                assert(rows_view(out@) =~= Seq::<Seq<crate::values::Value>>::empty());
            }
        }
        return Ok(out);
    }

    // One output row per group.
    let ghost gv_all = groups_view(groups@);
    let mut out: Vec<Vec<TypedValue>> = Vec::new();
    let mut gi: usize = 0;
    proof {
        assert(gv_all.skip(0) =~= gv_all);
        assert(rows_view(out@) =~= Seq::<Seq<crate::values::Value>>::empty());
    }
    while gi < groups.len()
        invariant
            gi <= groups@.len(),
            gv_all == groups_view(groups@),
            match spec_outputs(els@, gv_all.skip(gi as int)) {
                Some(rest) => spec_outputs(els@, gv_all) == Some(rows_view(out@) + rest),
                None => spec_outputs(els@, gv_all) is None,
            },
        decreases groups@.len() - gi,
    {
        proof {
            assert(gv_all.skip(gi as int)[0] == gv_all[gi as int]);
            assert(gv_all.skip(gi as int).drop_first() =~= gv_all.skip(gi as int + 1));
            assert(gv_all[gi as int] == rows_view(groups@[gi as int]@));
        }
        let members = &groups[gi];
        let ghost g = gv_all[gi as int];
        let ex = extreme_member(els, members);
        let mut vals: Vec<TypedValue> = Vec::new();
        let mut j2: usize = 0;
        proof {
            assert(vals_view(vals@) =~= Seq::<crate::values::Value>::empty());
        }
        while j2 < els.len()
            invariant
                j2 <= els@.len(),
                gi < groups@.len(),
                gv_all == groups_view(groups@),
                g == rows_view(members@),
                g == gv_all[gi as int],
                ex as int == spec_extreme_member(els@, g),
                match spec_output_row(els@, g, ex as int, j2 as int) {
                    Some(rest) => spec_output_row(els@, g, ex as int, 0) == Some(
                        vals_view(vals@) + rest,
                    ),
                    None => spec_output_row(els@, g, ex as int, 0) is None,
                },
            decreases els@.len() - j2,
        {
            let ghost vprev = vals_view(vals@);
            match &els[j2] {
                Element::Variable(_) => {
                    if members.len() > 0 && j2 < members[0].len() {
                        proof {
                            assert(g[0] == vals_view(members@[0]@));
                        }
                        vals.push(members[0][j2].duplicate());
                        proof {
                            assert(vals_view(vals@) =~= vprev.push(g[0][j2 as int]));
                            assert(vprev.push(g[0][j2 as int]) =~= vprev + seq![g[0][j2 as int]]);
                            if spec_output_row(els@, g, ex as int, j2 as int + 1) is Some {
                                let rest = spec_output_row(els@, g, ex as int, j2 as int + 1)->0;
                                assert((vprev + seq![g[0][j2 as int]]) + rest =~= vprev + (seq![
                                    g[0][j2 as int],
                                ] + rest));
                            }
                        }
                    } else {
                        return Err(
                            CoreError::InvalidArgument(
                                "projection".to_owned(),
                                "a grouped column".to_owned(),
                                j2,
                            ),
                        );
                    }
                },
                Element::Aggregate(op, _) => {
                    match aggregate_value(*op, members, j2, ex) {
                        Ok(v) => {
                            let ghost vv = v@;
                            vals.push(v);
                            proof {
                                assert(vals_view(vals@) =~= vprev.push(vv));
                                assert(vprev.push(vv) =~= vprev + seq![vv]);
                                if spec_output_row(els@, g, ex as int, j2 as int + 1) is Some {
                                    let rest = spec_output_row(
                                        els@,
                                        g,
                                        ex as int,
                                        j2 as int + 1,
                                    )->0;
                                    assert((vprev + seq![vv]) + rest =~= vprev + (seq![vv] + rest));
                                }
                            }
                        },
                        Err(e) => {
                            return Err(e);
                        },
                    }
                },
            }
            j2 += 1;
        }
        proof {
            assert(vals_view(vals@) + Seq::<crate::values::Value>::empty() =~= vals_view(vals@));
        }
        let ghost out_prev = rows_view(out@);
        let ghost vv2 = vals_view(vals@);
        out.push(vals);
        proof {
            assert(rows_view(out@) =~= out_prev.push(vv2));
            assert(out_prev.push(vv2) =~= out_prev + seq![vv2]);
            if spec_outputs(els@, gv_all.skip(gi as int + 1)) is Some {
                let rest = spec_outputs(els@, gv_all.skip(gi as int + 1))->0;
                assert((out_prev + seq![vv2]) + rest =~= out_prev + (seq![vv2] + rest));
            }
        }
        gi += 1;
    }
    proof {
        assert(gv_all.skip(gi as int) =~= Seq::<Seq<Seq<crate::values::Value>>>::empty());
        assert(rows_view(out@) + Seq::<Seq<crate::values::Value>>::empty() =~= rows_view(out@));
    }
    Ok(out)
}

/// The first element projecting this variable, aggregated or not.
pub open spec fn spec_order_col(els: Seq<Element>, v: String) -> Option<int>
    decreases els.len(),
{
    if els.len() == 0 {
        None
    } else {
        let name = match els[0] {
            Element::Variable(w) => w,
            Element::Aggregate(_, w) => w,
        };
        if name@ == v@ {
            Some(0int)
        } else {
            match spec_order_col(els.drop_first(), v) {
                Some(i) => Some(i + 1),
                None => None,
            }
        }
    }
}

/// A hit at the first projecting element is what `spec_order_col`
/// returns.
proof fn lemma_order_col_hit(els: Seq<Element>, v: String, i: int)
    requires
        0 <= i < els.len(),
        (match els[i] {
            Element::Variable(w) => w,
            Element::Aggregate(_, w) => w,
        })@ == v@,
        forall|j: int|
            0 <= j < i ==> (match #[trigger] els[j] {
                Element::Variable(w) => w,
                Element::Aggregate(_, w) => w,
            })@ != v@,
    ensures
        spec_order_col(els, v) == Some(i),
    decreases els.len(),
{
    if i > 0 {
        assert(forall|j: int|
            0 <= j < els.drop_first().len() ==> #[trigger] els.drop_first()[j] == els[j + 1]);
        lemma_order_col_hit(els.drop_first(), v, i - 1);
    }
}

/// With no projecting element there is no order column.
proof fn lemma_order_col_none(els: Seq<Element>, v: String)
    requires
        forall|j: int|
            0 <= j < els.len() ==> (match #[trigger] els[j] {
                Element::Variable(w) => w,
                Element::Aggregate(_, w) => w,
            })@ != v@,
    ensures
        spec_order_col(els, v) is None,
    decreases els.len(),
{
    if els.len() > 0 {
        assert(forall|j: int|
            0 <= j < els.drop_first().len() ==> #[trigger] els.drop_first()[j] == els[j + 1]);
        lemma_order_col_none(els.drop_first(), v);
    }
}

/// Find the output column of an ordered variable.
fn find_order_col(els: &Vec<Element>, v: &String) -> (r: Option<usize>)
    ensures
        match spec_order_col(els@, *v) {
            Some(i) => r matches Some(u) && u as int == i,
            None => r is None,
        },
{
    let mut j: usize = 0;
    while j < els.len()
        invariant
            j <= els@.len(),
            forall|p: int|
                0 <= p < j ==> (match #[trigger] els@[p] {
                    Element::Variable(w) => w,
                    Element::Aggregate(_, w) => w,
                })@ != v@,
        decreases els@.len() - j,
    {
        let name = match &els[j] {
            Element::Variable(w) => w,
            Element::Aggregate(_, w) => w,
        };
        if String::eq(name, v) {
            proof {
                lemma_order_col_hit(els@, *v, j as int);
            }
            return Some(j);
        }
        j += 1;
    }
    proof {
        lemma_order_col_none(els@, *v);
    }
    None
}

/// The orderings resolved to output columns with their directions;
/// `None` is an ordered variable the projection does not carry.
pub open spec fn spec_resolve_ocols(
    els: Seq<Element>,
    order: Seq<OrderBy>,
    k: int,
    acc: Seq<(usize, bool)>,
) -> Option<Seq<(usize, bool)>>
    decreases order.len() - k,
{
    if k < 0 || k >= order.len() {
        Some(acc)
    } else {
        match spec_order_col(els, order[k].1) {
            None => None,
            Some(c) => spec_resolve_ocols(
                els,
                order,
                k + 1,
                acc.push((c as usize, order[k].0 == crate::query::Direction::Descending)),
            ),
        }
    }
}

/// Whether row `a` sorts at or before row `b` under the orderings,
/// applied lexicographically.
pub open spec fn spec_row_order_le(
    ocols: Seq<(usize, bool)>,
    a: Seq<crate::values::Value>,
    b: Seq<crate::values::Value>,
    k: int,
) -> bool
    decreases ocols.len() - k,
{
    if k < 0 || k >= ocols.len() {
        true
    } else {
        let (c, desc) = ocols[k];
        if c >= a.len() || c >= b.len() {
            spec_row_order_le(ocols, a, b, k + 1)
        } else if a[c as int] == b[c as int] {
            spec_row_order_le(ocols, a, b, k + 1)
        } else if desc {
            spec_value_le(b[c as int], a[c as int])
        } else {
            spec_value_le(a[c as int], b[c as int])
        }
    }
}

/// Compare two output rows under the orderings.
fn row_order_le(ocols: &Vec<(usize, bool)>, a: &Vec<TypedValue>, b: &Vec<TypedValue>) -> (r:
    bool)
    ensures
        r == spec_row_order_le(ocols@, vals_view(a@), vals_view(b@), 0),
{
    let ghost av = vals_view(a@);
    let ghost bv = vals_view(b@);
    let mut k: usize = 0;
    while k < ocols.len()
        invariant
            k <= ocols@.len(),
            av == vals_view(a@),
            bv == vals_view(b@),
            spec_row_order_le(ocols@, av, bv, 0) == spec_row_order_le(ocols@, av, bv, k as int),
        decreases ocols@.len() - k,
    {
        let (c, desc) = ocols[k];
        if c < a.len() && c < b.len() {
            if !a[c].same(&b[c]) {
                if desc {
                    return value_le(&b[c], &a[c]);
                } else {
                    return value_le(&a[c], &b[c]);
                }
            }
        }
        k += 1;
    }
    true
}

/// Inserting one row into a sorted list, stably: after everything at or
/// before it.
pub open spec fn spec_insert_row(
    ocols: Seq<(usize, bool)>,
    sorted: Seq<Seq<crate::values::Value>>,
    row: Seq<crate::values::Value>,
) -> Seq<Seq<crate::values::Value>>
    decreases sorted.len(),
{
    if sorted.len() == 0 {
        seq![row]
    } else if spec_row_order_le(ocols, sorted[0], row, 0) {
        seq![sorted[0]] + spec_insert_row(ocols, sorted.drop_first(), row)
    } else {
        seq![row] + sorted
    }
}

/// Insertion at the first position whose row does not sort before is
/// the stable insertion.
proof fn lemma_insert_row_at(
    ocols: Seq<(usize, bool)>,
    sorted: Seq<Seq<crate::values::Value>>,
    row: Seq<crate::values::Value>,
    pos: int,
)
    requires
        0 <= pos <= sorted.len(),
        forall|p: int| 0 <= p < pos ==> spec_row_order_le(ocols, #[trigger] sorted[p], row, 0),
        pos < sorted.len() ==> !spec_row_order_le(ocols, sorted[pos], row, 0),
    ensures
        spec_insert_row(ocols, sorted, row) == sorted.insert(pos, row),
    decreases sorted.len(),
{
    if sorted.len() == 0 {
        assert(spec_insert_row(ocols, sorted, row) =~= sorted.insert(0, row));
    } else if pos == 0 {
        assert(seq![row] + sorted =~= sorted.insert(0, row));
    } else {
        assert(spec_row_order_le(ocols, sorted[0], row, 0));
        assert(forall|p: int|
            0 <= p < sorted.drop_first().len() ==> #[trigger] sorted.drop_first()[p] == sorted[p
                + 1]);
        lemma_insert_row_at(ocols, sorted.drop_first(), row, pos - 1);
        assert(seq![sorted[0]] + sorted.drop_first().insert(pos - 1, row) =~= sorted.insert(
            pos,
            row,
        ));
    }
}

/// Insertion sort of the output rows under the orderings.
pub open spec fn spec_sort_acc(
    ocols: Seq<(usize, bool)>,
    acc: Seq<Seq<crate::values::Value>>,
    rows: Seq<Seq<crate::values::Value>>,
) -> Seq<Seq<crate::values::Value>>
    decreases rows.len(),
{
    if rows.len() == 0 {
        acc
    } else {
        spec_sort_acc(ocols, spec_insert_row(ocols, acc, rows[0]), rows.drop_first())
    }
}

/// Sort the output rows by the orderings, stably.
fn sort_rows(ocols: &Vec<(usize, bool)>, rows: Vec<Vec<TypedValue>>) -> (r: Vec<
    Vec<TypedValue>,
>)
    ensures
        rows_view(r@) == spec_sort_acc(ocols@, Seq::empty(), rows_view(rows@)),
{
    let ghost rv = rows_view(rows@);
    let mut out: Vec<Vec<TypedValue>> = Vec::new();
    let mut i: usize = 0;
    proof {
        assert(rv.skip(0) =~= rv);
        assert(rows_view(out@) =~= Seq::<Seq<crate::values::Value>>::empty());
    }
    while i < rows.len()
        invariant
            i <= rows@.len(),
            rv == rows_view(rows@),
            spec_sort_acc(ocols@, Seq::empty(), rv) == spec_sort_acc(
                ocols@,
                rows_view(out@),
                rv.skip(i as int),
            ),
        decreases rows@.len() - i,
    {
        proof {
            assert(rv.skip(i as int)[0] == rv[i as int]);
            assert(rv.skip(i as int).drop_first() =~= rv.skip(i as int + 1));
            assert(rv[i as int] == vals_view(rows@[i as int]@));
        }
        let row = copy_values(&rows[i]);
        let ghost rowv = vals_view(row@);
        let ghost out_prev = rows_view(out@);
        let mut pos: usize = 0;
        while pos < out.len() && row_order_le(ocols, &out[pos], &row)
            invariant
                pos <= out@.len(),
                rowv == vals_view(row@),
                out_prev == rows_view(out@),
                forall|p: int|
                    0 <= p < pos ==> spec_row_order_le(
                        ocols@,
                        #[trigger] rows_view(out@)[p],
                        rowv,
                        0,
                    ),
            decreases out@.len() - pos,
        {
            pos += 1;
        }
        proof {
            lemma_insert_row_at(ocols@, out_prev, rowv, pos as int);
        }
        out.insert(pos, row);
        proof {
            assert(rows_view(out@) =~= out_prev.insert(pos as int, rowv));
        }
        i += 1;
    }
    proof {
        assert(rv.skip(i as int) =~= Seq::<Seq<crate::values::Value>>::empty());
    }
    out
}

/// Seeding one row with the supplied inputs, left to right; `None` is
/// an input whose type no constraint admits, which proves the result
/// empty.
pub open spec fn spec_seed_fold(
    vars: Seq<String>,
    types: Seq<ValueTypeSet>,
    row: Seq<Option<crate::values::Value>>,
    inputs: Seq<(String, TypedValue)>,
    k: int,
) -> Option<Seq<Option<crate::values::Value>>>
    decreases inputs.len() - k,
{
    if k < 0 || k >= inputs.len() {
        Some(row)
    } else {
        match crate::algebrize::find_var(vars, inputs[k].0) {
            None => spec_seed_fold(vars, types, row, inputs, k + 1),
            Some(c) => if c < types.len() && !types[c].spec_contains(
                crate::values::spec_value_type_of(inputs[k].1@),
            ) {
                None
            } else {
                let row2 = if c < row.len() {
                    row.update(c, Some(inputs[k].1@))
                } else {
                    row
                };
                spec_seed_fold(vars, types, row2, inputs, k + 1)
            },
        }
    }
}

/// The seeded starting row of a plan.
pub open spec fn spec_seed(
    vars: Seq<String>,
    types: Seq<ValueTypeSet>,
    inputs: Seq<(String, TypedValue)>,
) -> Option<Seq<Option<crate::values::Value>>> {
    spec_seed_fold(
        vars,
        types,
        Seq::new(vars.len(), |i: int| None::<crate::values::Value>),
        inputs,
        0,
    )
}

/// The first value of each nonempty row.
pub open spec fn spec_firsts(rows: Seq<Seq<crate::values::Value>>) -> Seq<crate::values::Value>
    decreases rows.len(),
{
    if rows.len() == 0 {
        Seq::empty()
    } else {
        (if rows[0].len() > 0 {
            seq![rows[0][0]]
        } else {
            Seq::empty()
        }) + spec_firsts(rows.drop_first())
    }
}

/// What running a non-collapsed plan returns: seed the inputs (an
/// inadmissible input proves the result empty), evaluate the clauses
/// against the datoms, enforce the type sets, project and aggregate,
/// sort by the orderings, and package the declared shape. `None` is a
/// refusal of the in-memory evaluator.
pub open spec fn spec_query_results(
    datoms: Seq<Datom>,
    m: crate::algebrize::CcModel,
    find: FindSpec,
    with_vars: Seq<String>,
    order: Seq<OrderBy>,
    inputs: Seq<(String, TypedValue)>,
) -> Option<ResultsModel> {
    match spec_seed(m.vars, m.types, inputs) {
        None => Some(spec_empty_model(find)),
        Some(start) => match spec_eval_clauses(datoms, m.clauses, seq![start]) {
            None => None,
            Some(rows) => {
                let rows2 = spec_filter_types(m.types, rows);
                let els = crate::algebrize::find_elements(find);
                match spec_resolve_ocols(els, order, 0, Seq::empty()) {
                    None => None,
                    Some(ocols) => match spec_project_rows(m.vars, els, with_vars, rows2) {
                        None => None,
                        Some(outr) => {
                            let sorted = spec_sort_acc(ocols, Seq::empty(), outr);
                            Some(
                                match find {
                                    FindSpec::FindRel(_) => ResultsModel::RRel(sorted),
                                    FindSpec::FindColl(_) => ResultsModel::RColl(
                                        spec_firsts(sorted),
                                    ),
                                    FindSpec::FindTuple(_) => ResultsModel::RTuple(
                                        if sorted.len() > 0 {
                                            Some(sorted[0])
                                        } else {
                                            None
                                        },
                                    ),
                                    FindSpec::FindScalar(_) => ResultsModel::RScalar(
                                        if sorted.len() > 0 && sorted[0].len() > 0 {
                                            Some(sorted[0][0])
                                        } else {
                                            None
                                        },
                                    ),
                                },
                            )
                        },
                    },
                }
            },
        },
    }
}

/// Which find shape the query declared, while its rows are computed.
enum ResultKind {
    RKRel,
    RKTuple,
    RKColl,
    RKScalar,
}

impl Store {
    /// Run a query once: algebrize it, demand a value for every `:in`
    /// variable, evaluate the plan against the current datoms, and
    /// package the rows into the declared shape. A plan proved empty
    /// short-circuits to the empty result of its shape, as does an
    /// input whose type no constraint admits. What comes back on
    /// success is exactly `spec_query_results` of the plan.
    #[verifier::loop_isolation(false)]
    pub fn q_once(&self, query: ParsedQuery, inputs: Vec<(String, TypedValue)>) -> (r: Result<
        QueryResults,
        CoreError,
    >)
        ensures
            r matches Ok(qr) ==> shape_matches(query.find, qr),
            match algebrize_model(
                self.schema.ident_map@,
                self.schema.attribute_map@,
                query.find,
                query.with_vars@,
                query.where_clauses@,
                query.order@,
            ) {
                QueryOut::QFail(f) => r matches Err(e) && fail_corresponds(e, f),
                QueryOut::QGo(m, empty) => {
                    &&& missing_names(query.in_vars@, inputs@).len() > 0 ==> (r matches Err(e)
                        && (e matches CoreError::UnboundVariables(vs) && names_view(vs@)
                        == missing_names(query.in_vars@, inputs@)))
                    &&& (empty && missing_names(query.in_vars@, inputs@).len() == 0) ==> (r
                        matches Ok(qr) && result_is_empty(qr))
                    &&& (!empty && missing_names(query.in_vars@, inputs@).len() == 0)
                        ==> match spec_query_results(
                        self.datoms@,
                        m,
                        query.find,
                        query.with_vars@,
                        query.order@,
                        inputs@,
                    ) {
                        Some(rm) => r matches Ok(qr) && results_view(qr) == rm,
                        None => r is Err,
                    }
                },
            },
    {
        let aq = match algebrize(&self.schema, query) {
            Ok(aq) => aq,
            Err(e) => {
                return Err(e);
            },
        };

        // Every declared input must be supplied.
        let ghost ins = aq.in_vars@;
        let mut missing: Vec<String> = Vec::new();
        let mut i: usize = 0;
        proof {
            assert(ins.skip(0) =~= ins);
            assert(names_view(missing@) =~= Seq::<Seq<char>>::empty());
        }
        while i < aq.in_vars.len()
            invariant
                i <= ins.len(),
                ins == aq.in_vars@,
                missing_names(ins, inputs@) == names_view(missing@) + missing_names(
                    ins.skip(i as int),
                    inputs@,
                ),
            decreases ins.len() - i,
        {
            proof {
                assert(ins.skip(i as int)[0] == ins[i as int]);
                assert(ins.skip(i as int).drop_first() =~= ins.skip(i as int + 1));
            }
            let ghost before = names_view(missing@);
            if !inputs_have_exec(&inputs, &aq.in_vars[i]) {
                missing.push(aq.in_vars[i].as_str().to_owned());
                proof {
                    assert(names_view(missing@) =~= before.push(ins[i as int]@));
                    assert(before.push(ins[i as int]@) =~= before + seq![ins[i as int]@]);
                }
            }
            proof {
                assert(names_view(missing@) + missing_names(ins.skip(i as int + 1), inputs@)
                    =~= missing_names(ins, inputs@));
            }
            i += 1;
        }
        proof {
            assert(ins.skip(i as int) =~= Seq::<String>::empty());
            assert(missing_names(ins, inputs@) =~= names_view(missing@));
        }
        if missing.len() > 0 {
            proof {
                assert(missing_names(ins, inputs@).len() > 0);
            }
            return Err(CoreError::UnboundVariables(missing));
        }

        // A plan proved empty short-circuits.
        if matches!(aq.cc.empty_because, Some(EmptyBecause::TypeMismatch)) {
            return Ok(empty_result(&aq.find));
        }

        // Seed one row with the supplied inputs; an input of an
        // inadmissible type proves the result empty.
        let ghost varsv = aq.cc.vars@;
        let ghost typesv = aq.cc.known_types@;
        let ghost iv = inputs@;
        let w = aq.cc.vars.len();
        let mut start: Row = Vec::new();
        let mut k: usize = 0;
        while k < w
            invariant
                k <= w,
                start@.len() == k,
                forall|p: int| 0 <= p < k ==> start@[p] is None,
            decreases w - k,
        {
            start.push(None);
            k += 1;
        }
        let ghost row0 = Seq::new(varsv.len(), |i: int| None::<crate::values::Value>);
        proof {
            assert(row_view(start@) =~= row0);
        }
        let mut ii: usize = 0;
        while ii < inputs.len()
            invariant
                ii <= iv.len(),
                spec_seed_fold(varsv, typesv, row0, iv, 0) == spec_seed_fold(
                    varsv,
                    typesv,
                    row_view(start@),
                    iv,
                    ii as int,
                ),
            decreases iv.len() - ii,
        {
            proof {
                crate::algebrize::lemma_find_var_range(varsv, iv[ii as int].0);
            }
            let (name, value) = (&inputs[ii].0, &inputs[ii].1);
            match crate::algebrize::find_var_exec(&aq.cc.vars, name) {
                Some(c) => {
                    if c < aq.cc.known_types.len() {
                        if !aq.cc.known_types[c].contains(value.value_type()) {
                            proof {
                                assert(spec_seed_fold(varsv, typesv, row0, iv, 0) is None);
                            }
                            return Ok(empty_result(&aq.find));
                        }
                    }
                    if c < start.len() {
                        let ghost before = row_view(start@);
                        start[c] = Some(value.duplicate());
                        proof {
                            assert(row_view(start@) =~= before.update(c as int, Some(value@)));
                        }
                    }
                },
                None => {},
            }
            ii += 1;
        }

        let rows = match eval_clauses(&self.datoms, &aq.cc.clauses, start) {
            Ok(rows) => rows,
            Err(e) => {
                return Err(e);
            },
        };
        // The per-column type sets constrain what a binding may hold.
        let rows = filter_rows_by_types(&aq.cc.known_types, rows);

        // Gather the find elements, remembering the shape.
        let (kind, els) = match aq.find {
            FindSpec::FindRel(v) => (ResultKind::RKRel, v),
            FindSpec::FindTuple(v) => (ResultKind::RKTuple, v),
            FindSpec::FindColl(el) => {
                let mut v: Vec<Element> = Vec::new();
                v.push(el);
                (ResultKind::RKColl, v)
            },
            FindSpec::FindScalar(el) => {
                let mut v: Vec<Element> = Vec::new();
                v.push(el);
                (ResultKind::RKScalar, v)
            },
        };
        proof {
            assert(els@ =~= crate::algebrize::find_elements(query.find));
        }

        // Resolve the orderings to output columns.
        let mut ocols: Vec<(usize, bool)> = Vec::new();
        let mut oi: usize = 0;
        while oi < aq.order.len()
            invariant
                oi <= aq.order@.len(),
                spec_resolve_ocols(els@, aq.order@, 0, Seq::empty()) == spec_resolve_ocols(
                    els@,
                    aq.order@,
                    oi as int,
                    ocols@,
                ),
            decreases aq.order@.len() - oi,
        {
            match find_order_col(&els, &aq.order[oi].1) {
                None => {
                    return Err(
                        CoreError::NotYetImplemented(
                            "ordering by an unprojected variable".to_owned(),
                        ),
                    );
                },
                Some(c) => {
                    ocols.push(
                        (c, matches!(aq.order[oi].0, crate::query::Direction::Descending)),
                    );
                },
            }
            oi += 1;
        }

        // Project, sort, and package by shape.
        let out = match project_rows(&aq.cc.vars, &els, &aq.with_vars, rows) {
            Ok(out) => out,
            Err(e) => {
                return Err(e);
            },
        };
        let mut out = sort_rows(&ocols, out);
        match kind {
            ResultKind::RKRel => Ok(QueryResults::Rel(out)),
            ResultKind::RKTuple => {
                if out.len() > 0 {
                    Ok(QueryResults::Tuple(Some(out.remove(0))))
                } else {
                    Ok(QueryResults::Tuple(None))
                }
            },
            ResultKind::RKColl => {
                let ghost sorted = rows_view(out@);
                let mut coll: Vec<TypedValue> = Vec::new();
                let mut ci: usize = 0;
                proof {
                    assert(sorted.skip(0) =~= sorted);
                    assert(vals_view(coll@) =~= Seq::<crate::values::Value>::empty());
                }
                while ci < out.len()
                    invariant
                        ci <= out@.len(),
                        sorted == rows_view(out@),
                        spec_firsts(sorted) == vals_view(coll@) + spec_firsts(
                            sorted.skip(ci as int),
                        ),
                    decreases out@.len() - ci,
                {
                    proof {
                        assert(sorted.skip(ci as int)[0] == sorted[ci as int]);
                        assert(sorted.skip(ci as int).drop_first() =~= sorted.skip(ci as int + 1));
                        assert(sorted[ci as int] == vals_view(out@[ci as int]@));
                    }
                    let row = &out[ci];
                    if row.len() > 0 {
                        let ghost cprev = vals_view(coll@);
                        coll.push(row[0].duplicate());
                        proof {
                            assert(vals_view(coll@) =~= cprev.push(sorted[ci as int][0]));
                            assert(cprev.push(sorted[ci as int][0]) =~= cprev + seq![
                                sorted[ci as int][0],
                            ]);
                            assert((cprev + seq![sorted[ci as int][0]]) + spec_firsts(
                                sorted.skip(ci as int + 1),
                            ) =~= cprev + (seq![sorted[ci as int][0]] + spec_firsts(
                                sorted.skip(ci as int + 1),
                            )));
                        }
                    }
                    ci += 1;
                }
                proof {
                    assert(sorted.skip(ci as int) =~= Seq::<Seq<crate::values::Value>>::empty());
                    assert(vals_view(coll@) + spec_firsts(sorted.skip(ci as int)) =~= vals_view(
                        coll@,
                    ));
                }
                Ok(QueryResults::Coll(coll))
            },
            ResultKind::RKScalar => {
                if out.len() > 0 {
                    let mut row = out.remove(0);
                    if row.len() > 0 {
                        Ok(QueryResults::Scalar(Some(row.remove(0))))
                    } else {
                        Ok(QueryResults::Scalar(None))
                    }
                } else {
                    Ok(QueryResults::Scalar(None))
                }
            },
        }
    }
}

} // verus!
