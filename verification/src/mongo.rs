//! The document compiler: a predicate becomes a nested filter document.
//!
//! The document itself is built by the `bson` crate; this module states what
//! each built document holds through [`doc_model`] and proves that the
//! compilation is exactly [`doc_of`] of the predicate's model.

use vstd::prelude::*;
use crate::query::{
    leaf_field, leaf_value, query_floats_valid, query_view, valid_float_text,
    value_floats_valid, value_view, Query, QueryV, Value, ValueV,
};

verus! {

/// The model of one value inside a filter document.
///
/// A floating-point entry is modelled by the decimal text it was built from;
/// the driver stores the 64-bit float that text parses into.
#[verifier::ext_equal]
pub enum BsonV {
    Int(i64),
    Text(Seq<char>),
    Double(Seq<char>),
    Bool(bool),
    Null,
    Arr(Seq<BsonV>),
    Doc(Seq<(Seq<char>, BsonV)>),
}

#[verifier::external_type_specification]
#[verifier::external_body]
pub struct ExDocument(bson::Document);

/// What a filter document holds: its (key, value) entries in insertion
/// order.
pub uninterp spec fn doc_model(d: bson::Document) -> Seq<(Seq<char>, BsonV)>;

/// The operator tag a comparison leaf compiles to.
pub open spec fn doc_op_tag(q: QueryV) -> Seq<char> {
    match q {
        QueryV::Eq { .. } => ("$eq")@,
        QueryV::Neq { .. } => ("$neq")@,
        QueryV::Gt { .. } => ("$gt")@,
        QueryV::GtE { .. } => ("$gte")@,
        QueryV::Lt { .. } => ("$lt")@,
        QueryV::LtE { .. } => ("$lte")@,
        QueryV::Rx { .. } => ("$regex")@,
        QueryV::In { .. } => ("$in")@,
        QueryV::Contains { .. } => ("$elemMatch")@,
        _ => Seq::empty(),
    }
}

/// The text elements of an array value, in order, skipping other kinds.
pub open spec fn texts_of(s: Seq<ValueV>) -> Seq<BsonV>
    decreases s.len(),
{
    if s.len() == 0 {
        Seq::empty()
    } else {
        texts_of(s.drop_last()) + (if s.last() is Text {
            seq![BsonV::Text(s.last()->Text_0)]
        } else {
            Seq::empty()
        })
    }
}

/// The integer elements of an array value, in order, skipping other kinds.
pub open spec fn ints_of(s: Seq<ValueV>) -> Seq<BsonV>
    decreases s.len(),
{
    if s.len() == 0 {
        Seq::empty()
    } else {
        ints_of(s.drop_last()) + (if s.last() is Number {
            seq![BsonV::Int(s.last()->Number_0)]
        } else {
            Seq::empty()
        })
    }
}

/// The floating-point elements of an array value, in order, skipping other
/// kinds.
pub open spec fn doubles_of(s: Seq<ValueV>) -> Seq<BsonV>
    decreases s.len(),
{
    if s.len() == 0 {
        Seq::empty()
    } else {
        doubles_of(s.drop_last()) + (if s.last() is Float {
            seq![BsonV::Double(s.last()->Float_0)]
        } else {
            Seq::empty()
        })
    }
}

/// The single entry `{op: encoded value}` a leaf's operand compiles to.
///
/// An array is coerced to the kind of its first element (text, integer or
/// float, skipping elements of other kinds); an empty array or one whose
/// first element is of another kind encodes as an explicit null operand.
pub open spec fn value_entry(v: ValueV, op: Seq<char>) -> Seq<(Seq<char>, BsonV)> {
    match v {
        ValueV::Number(n) => seq![(op, BsonV::Int(n))],
        ValueV::Float(t) => seq![(op, BsonV::Double(t))],
        ValueV::Text(s) => seq![(op, BsonV::Text(s))],
        ValueV::Bool(b) => seq![(op, BsonV::Bool(b))],
        ValueV::Absent => seq![(op, BsonV::Null)],
        ValueV::Array(items) => if items.len() == 0 {
            seq![(op, BsonV::Null)]
        } else {
            match items[0] {
                ValueV::Text(_) => seq![(op, BsonV::Arr(texts_of(items)))],
                ValueV::Number(_) => seq![(op, BsonV::Arr(ints_of(items)))],
                ValueV::Float(_) => seq![(op, BsonV::Arr(doubles_of(items)))],
                _ => seq![(op, BsonV::Null)],
            }
        },
    }
}

/// The entries of the filter document a predicate compiles to.
pub open spec fn doc_of(q: QueryV) -> Seq<(Seq<char>, BsonV)>
    decreases q,
{
    match q {
        QueryV::And { left, right } => seq![
            (
                ("$and")@,
                BsonV::Arr(seq![BsonV::Doc(doc_of(*left)), BsonV::Doc(doc_of(*right))]),
            ),
        ],
        QueryV::Or { left, right } => seq![
            (("$or")@, BsonV::Arr(seq![BsonV::Doc(doc_of(*left)), BsonV::Doc(doc_of(*right))])),
        ],
        QueryV::Empty => Seq::empty(),
        _ => seq![(leaf_field(q), BsonV::Doc(value_entry(leaf_value(q), doc_op_tag(q))))],
    }
}

/// Relies on `bson::Document::new`: a fresh document has no entries.
#[verifier::external_body]
fn doc_empty() -> (d: bson::Document)
    ensures
        doc_model(d) == Seq::<(Seq<char>, BsonV)>::empty(),
{
    bson::Document::new()
}

/// Relies on `bson::Document::insert` on a fresh document: the document then
/// holds exactly the inserted key, here bound to the two-element array of
/// the two given sub-documents.
#[verifier::external_body]
fn doc_connective(tag: &str, l: bson::Document, r: bson::Document) -> (d: bson::Document)
    ensures
        doc_model(d) == seq![
            (tag@, BsonV::Arr(seq![BsonV::Doc(doc_model(l)), BsonV::Doc(doc_model(r))])),
        ],
{
    let mut d = bson::Document::new();
    d.insert(tag, bson::Bson::Array(vec![bson::Bson::Document(l), bson::Bson::Document(r)]));
    d
}

/// Relies on `bson::Document::insert` on a fresh document: the document then
/// holds exactly the given field, bound to the given sub-document.
#[verifier::external_body]
fn doc_field_entry(field: &String, inner: bson::Document) -> (d: bson::Document)
    ensures
        doc_model(d) == seq![(field@, BsonV::Doc(doc_model(inner)))],
{
    let mut d = bson::Document::new();
    d.insert(field.as_str(), bson::Bson::Document(inner));
    d
}

/// Relies on `bson::Document::insert` on a fresh document: the document then
/// holds exactly the given key, bound to a 64-bit integer.
#[verifier::external_body]
fn doc_op_i64(op: &str, v: i64) -> (d: bson::Document)
    ensures
        doc_model(d) == seq![(op@, BsonV::Int(v))],
{
    let mut d = bson::Document::new();
    d.insert(op, bson::Bson::Int64(v));
    d
}

/// Relies on `bson::Document::insert` on a fresh document: the document then
/// holds exactly the given key, bound to a string.
#[verifier::external_body]
fn doc_op_text(op: &str, s: &String) -> (d: bson::Document)
    ensures
        doc_model(d) == seq![(op@, BsonV::Text(s@))],
{
    let mut d = bson::Document::new();
    d.insert(op, bson::Bson::String(s.clone()));
    d
}

/// Relies on `bson::Document::insert` on a fresh document and on
/// `str::parse`, which accepts a run of digits with one decimal point: the
/// document then holds exactly the given key, bound to the 64-bit float the
/// text denotes.
#[verifier::external_body]
fn doc_op_double(op: &str, t: &String) -> (d: bson::Document)
    requires
        valid_float_text(t@),
    ensures
        doc_model(d) == seq![(op@, BsonV::Double(t@))],
{
    let mut d = bson::Document::new();
    d.insert(op, bson::Bson::Double(t.as_str().parse().unwrap()));
    d
}

/// Relies on `bson::Document::insert` on a fresh document: the document then
/// holds exactly the given key, bound to a boolean.
#[verifier::external_body]
fn doc_op_bool(op: &str, b: bool) -> (d: bson::Document)
    ensures
        doc_model(d) == seq![(op@, BsonV::Bool(b))],
{
    let mut d = bson::Document::new();
    d.insert(op, bson::Bson::Boolean(b));
    d
}

/// Relies on `bson::Document::insert` on a fresh document: the document then
/// holds exactly the given key, bound to an explicit null.
#[verifier::external_body]
fn doc_op_null(op: &str) -> (d: bson::Document)
    ensures
        doc_model(d) == seq![(op@, BsonV::Null)],
{
    let mut d = bson::Document::new();
    d.insert(op, bson::Bson::Null);
    d
}

/// Relies on `bson::Document::insert` on a fresh document: the document then
/// holds exactly the given key, bound to the array of the given integers in
/// order.
#[verifier::external_body]
fn doc_op_i64_array(op: &str, items: &Vec<i64>) -> (d: bson::Document)
    ensures
        doc_model(d) == seq![
            (op@, BsonV::Arr(Seq::new(items@.len(), |i: int| BsonV::Int(items@[i])))),
        ],
{
    let mut d = bson::Document::new();
    d.insert(op, bson::Bson::Array(items.iter().map(|n| bson::Bson::Int64(*n)).collect()));
    d
}

/// Relies on `bson::Document::insert` on a fresh document: the document then
/// holds exactly the given key, bound to the array of the given strings in
/// order.
#[verifier::external_body]
fn doc_op_text_array(op: &str, items: &Vec<String>) -> (d: bson::Document)
    ensures
        doc_model(d) == seq![
            (op@, BsonV::Arr(Seq::new(items@.len(), |i: int| BsonV::Text(items@[i]@)))),
        ],
{
    let mut d = bson::Document::new();
    d.insert(op, bson::Bson::Array(items.iter().map(|s| bson::Bson::String(s.clone())).collect()));
    d
}

/// Relies on `bson::Document::insert` on a fresh document and on
/// `str::parse`, which accepts a run of digits with one decimal point: the
/// document then holds exactly the given key, bound to the array of the
/// 64-bit floats the given texts denote, in order.
#[verifier::external_body]
fn doc_op_double_array(op: &str, items: &Vec<String>) -> (d: bson::Document)
    requires
        forall|j: int| 0 <= j < items@.len() ==> valid_float_text(#[trigger] items@[j]@),
    ensures
        doc_model(d) == seq![
            (op@, BsonV::Arr(Seq::new(items@.len(), |i: int| BsonV::Double(items@[i]@)))),
        ],
{
    let mut d = bson::Document::new();
    d.insert(
        op,
        bson::Bson::Array(items.iter().map(|t| bson::Bson::Double(t.as_str().parse().unwrap())).collect()),
    );
    d
}

impl Value {
    /// Encodes this value as the single entry `{op: encoded value}`, per
    /// [`value_entry`].
    pub fn from_op(&self, op: &str) -> (d: bson::Document)
        requires
            value_floats_valid(self@),
        ensures
            doc_model(d) == value_entry(self@, op@),
    {
        match self {
            Value::Number(n) => doc_op_i64(op, *n),
            Value::Float(t) => doc_op_double(op, t),
            Value::Text(s) => doc_op_text(op, s),
            Value::Bool(b) => doc_op_bool(op, *b),
            Value::Absent => doc_op_null(op),
            Value::Array(items) => {
                let ghost vs = self@->Array_0;
                proof {
                    assert(self@ == ValueV::Array(vs));
                    assert(vs =~= crate::query::value_views(items@));
                }
                if items.len() == 0 {
                    doc_op_null(op)
                } else {
                    match &items[0] {
                        Value::Text(_) => {
                            let texts = collect_texts(items);
                            proof {
                                assert(vs[0] is Text);
                            }
                            doc_op_text_array(op, &texts)
                        },
                        Value::Number(_) => {
                            let ints = collect_ints(items);
                            proof {
                                assert(vs[0] is Number);
                            }
                            doc_op_i64_array(op, &ints)
                        },
                        Value::Float(_) => {
                            proof {
                                assert(vs[0] is Float);
                            }
                            let floats = collect_floats(items);
                            doc_op_double_array(op, &floats)
                        },
                        _ => {
                            proof {
                                assert(!(vs[0] is Text) && !(vs[0] is Number) && !(vs[0] is Float));
                            }
                            doc_op_null(op)
                        },
                    }
                }
            },
        }
    }
}

/// Collects the texts of the `Text` elements, in order.
fn collect_texts(items: &Vec<Value>) -> (out: Vec<String>)
    ensures
        Seq::new(out@.len(), |i: int| BsonV::Text(out@[i]@)) == texts_of(
            crate::query::value_views(items@),
        ),
{
    let ghost vs = crate::query::value_views(items@);
    let mut out: Vec<String> = Vec::new();
    let mut i: usize = 0;
    while i < items.len()
        invariant
            i <= items.len(),
            vs == crate::query::value_views(items@),
            Seq::new(out@.len(), |j: int| BsonV::Text(out@[j]@)) == texts_of(
                vs.subrange(0, i as int),
            ),
        decreases items.len() - i,
    {
        proof {
            assert(vs.subrange(0, i + 1 as int).drop_last() =~= vs.subrange(0, i as int));
            assert(vs.subrange(0, i + 1 as int).last() == value_view(items@[i as int]));
        }
        let ghost prev = out@;
        match &items[i] {
            Value::Text(s) => {
                out.push(crate::query::clone_string(s));
            },
            _ => {},
        }
        proof {
            assert(Seq::new(out@.len(), |j: int| BsonV::Text(out@[j]@)) =~= texts_of(
                vs.subrange(0, i + 1 as int),
            ));
        }
        i += 1;
    }
    proof {
        assert(vs.subrange(0, items@.len() as int) =~= vs);
    }
    out
}

/// Collects the integers of the `Number` elements, in order.
fn collect_ints(items: &Vec<Value>) -> (out: Vec<i64>)
    ensures
        Seq::new(out@.len(), |i: int| BsonV::Int(out@[i])) == ints_of(
            crate::query::value_views(items@),
        ),
{
    let ghost vs = crate::query::value_views(items@);
    let mut out: Vec<i64> = Vec::new();
    let mut i: usize = 0;
    while i < items.len()
        invariant
            i <= items.len(),
            vs == crate::query::value_views(items@),
            Seq::new(out@.len(), |j: int| BsonV::Int(out@[j])) == ints_of(vs.subrange(0, i as int)),
        decreases items.len() - i,
    {
        proof {
            assert(vs.subrange(0, i + 1 as int).drop_last() =~= vs.subrange(0, i as int));
            assert(vs.subrange(0, i + 1 as int).last() == value_view(items@[i as int]));
        }
        match &items[i] {
            Value::Number(n) => {
                out.push(*n);
            },
            _ => {},
        }
        proof {
            assert(Seq::new(out@.len(), |j: int| BsonV::Int(out@[j])) =~= ints_of(
                vs.subrange(0, i + 1 as int),
            ));
        }
        i += 1;
    }
    proof {
        assert(vs.subrange(0, items@.len() as int) =~= vs);
    }
    out
}

/// Collects the decimal texts of the `Float` elements, in order.
fn collect_floats(items: &Vec<Value>) -> (out: Vec<String>)
    requires
        value_floats_valid(value_view(Value::Array(*items))),
    ensures
        Seq::new(out@.len(), |i: int| BsonV::Double(out@[i]@)) == doubles_of(
            crate::query::value_views(items@),
        ),
        forall|j: int| 0 <= j < out@.len() ==> valid_float_text(#[trigger] out@[j]@),
{
    let ghost vs = crate::query::value_views(items@);
    let ghost whole = value_view(Value::Array(*items));
    let mut out: Vec<String> = Vec::new();
    let mut i: usize = 0;
    while i < items.len()
        invariant
            i <= items.len(),
            vs == crate::query::value_views(items@),
            whole == value_view(Value::Array(*items)),
            value_floats_valid(whole),
            Seq::new(out@.len(), |j: int| BsonV::Double(out@[j]@)) == doubles_of(
                vs.subrange(0, i as int),
            ),
            forall|j: int| 0 <= j < out@.len() ==> valid_float_text(#[trigger] out@[j]@),
        decreases items.len() - i,
    {
        proof {
            assert(vs.subrange(0, i + 1 as int).drop_last() =~= vs.subrange(0, i as int));
            assert(vs.subrange(0, i + 1 as int).last() == value_view(items@[i as int]));
            assert(value_floats_valid(whole->Array_0[i as int]));
            assert(whole->Array_0[i as int] == value_view(items@[i as int]));
        }
        match &items[i] {
            Value::Float(t) => {
                out.push(crate::query::clone_string(t));
            },
            _ => {},
        }
        proof {
            assert(Seq::new(out@.len(), |j: int| BsonV::Double(out@[j]@)) =~= doubles_of(
                vs.subrange(0, i + 1 as int),
            ));
        }
        i += 1;
    }
    proof {
        assert(vs.subrange(0, items@.len() as int) =~= vs);
    }
    out
}

impl Query {
    /// Compiles the predicate into a filter document whose entries are
    /// exactly [`doc_of`] of its model.
    pub fn to_bson(&self) -> (d: bson::Document)
        requires
            query_floats_valid(self@),
        ensures
            doc_model(d) == doc_of(self@),
        decreases *self,
    {
        match self {
            Query::And { left, right } => {
                let l = (&**left).to_bson();
                let r = (&**right).to_bson();
                doc_connective("$and", l, r)
            },
            Query::Or { left, right } => {
                let l = (&**left).to_bson();
                let r = (&**right).to_bson();
                doc_connective("$or", l, r)
            },
            Query::Empty => doc_empty(),
            Query::Eq { field, value } => doc_field_entry(field, value.from_op("$eq")),
            Query::Neq { field, value } => doc_field_entry(field, value.from_op("$neq")),
            Query::Gt { field, value } => doc_field_entry(field, value.from_op("$gt")),
            Query::GtE { field, value } => doc_field_entry(field, value.from_op("$gte")),
            Query::Lt { field, value } => doc_field_entry(field, value.from_op("$lt")),
            Query::LtE { field, value } => doc_field_entry(field, value.from_op("$lte")),
            Query::Rx { field, value } => doc_field_entry(field, value.from_op("$regex")),
            Query::In { field, value } => doc_field_entry(field, value.from_op("$in")),
            Query::Contains { field, value } => doc_field_entry(field, value.from_op("$elemMatch")),
        }
    }
}

/// Compiles a predicate for the document-store backend.
pub fn to_bson(query: &Query) -> (d: bson::Document)
    requires
        query_floats_valid(query@),
    ensures
        doc_model(d) == doc_of(query@),
{
    query.to_bson()
}

} // verus!
