use query_builder::mongo;
use query_builder::postgres::{self, Param};
use query_builder::query::{Query, Value};

fn eq(field: &str, value: Value) -> Query {
    Query::eq(field.to_owned(), value)
}

fn doc1(k: &str, v: bson::Bson) -> bson::Document {
    let mut d = bson::Document::new();
    d.insert(k, v);
    d
}

#[test]
fn conditional_omission_skips_the_thunk() {
    // The disabled branch is never evaluated and leaves no trace.
    let q = Query::and_if(false, eq("deleted", Value::Bool(false)), || -> Query {
        unreachable!()
    });
    assert_eq!(q, eq("deleted", Value::Bool(false)));
    let q2 = Query::or_if(false, eq("deleted", Value::Bool(false)), || -> Query {
        unreachable!()
    });
    assert_eq!(q2, eq("deleted", Value::Bool(false)));
}

#[test]
fn relational_parameter_ordering() {
    let q = Query::and(eq("deleted", Value::Bool(false)), eq("b", Value::Number(5)));
    let w = postgres::to_where(&q);
    assert_eq!(w.where_clause, "(deleted = $1 AND b = $2)");
    assert_eq!(
        w.params,
        vec![
            Param::from_value(Value::Bool(false)),
            Param::from_value(Value::Number(5))
        ]
    );
}

#[test]
fn document_shape() {
    let q = Query::and(eq("deleted", Value::Bool(false)), eq("b", Value::Number(5)));
    let expected = doc1(
        "$and",
        bson::Bson::Array(vec![
            bson::Bson::Document(doc1(
                "deleted",
                bson::Bson::Document(doc1("$eq", bson::Bson::Boolean(false))),
            )),
            bson::Bson::Document(doc1(
                "b",
                bson::Bson::Document(doc1("$eq", bson::Bson::Int64(5))),
            )),
        ]),
    );
    assert_eq!(mongo::to_bson(&q), expected);
}

#[test]
fn membership_leaf() {
    let q = Query::is_in(
        "_id".to_owned(),
        Value::Array(vec![
            Value::Text("123".to_owned()),
            Value::Text("456".to_owned()),
            Value::Text("789".to_owned()),
        ]),
    );
    let expected = doc1(
        "_id",
        bson::Bson::Document(doc1(
            "$in",
            bson::Bson::Array(vec![
                bson::Bson::String("123".to_owned()),
                bson::Bson::String("456".to_owned()),
                bson::Bson::String("789".to_owned()),
            ]),
        )),
    );
    assert_eq!(mongo::to_bson(&q), expected);
    let w = postgres::to_where(&q);
    assert_eq!(w.where_clause, "_id IN $1");
    assert_eq!(
        w.params,
        vec![Param::from_value(Value::Array(vec![
            Value::Text("123".to_owned()),
            Value::Text("456".to_owned()),
            Value::Text("789".to_owned()),
        ]))]
    );
}

#[test]
fn array_containment_leaf() {
    let q = Query::contains("countries".to_owned(), Value::Text("za".to_owned()));
    let expected = doc1(
        "countries",
        bson::Bson::Document(doc1("$elemMatch", bson::Bson::String("za".to_owned()))),
    );
    assert_eq!(mongo::to_bson(&q), expected);
    let w = postgres::to_where(&q);
    assert_eq!(w.where_clause, "countries CONTAINS $1");
    assert_eq!(w.params, vec![Param::from_value(Value::Text("za".to_owned()))]);
}

#[test]
fn empty_predicate_compiles_to_nothing() {
    let q = Query::Empty;
    assert_eq!(mongo::to_bson(&q), bson::Document::new());
    let w = postgres::to_where(&q);
    assert_eq!(w.where_clause, "");
    assert_eq!(w.params, vec![]);
}

#[test]
fn empty_operands_still_wrap() {
    // A connective over empty operands keeps its parentheses and separator.
    let q = Query::or(Query::Empty, eq("c", Value::Number(3)));
    let w = postgres::to_where(&q);
    assert_eq!(w.where_clause, "( OR c = $1)");
    assert_eq!(w.params, vec![Param::from_value(Value::Number(3))]);
}

#[test]
fn placeholders_reach_two_digits() {
    let mut q = eq("f0", Value::Number(0));
    let mut i = 1;
    while i < 10 {
        q = Query::and(q, Query::eq(format!("f{}", i), Value::Number(i)));
        i += 1;
    }
    let w = postgres::to_where(&q);
    assert!(w.where_clause.contains("f9 = $10"));
    assert_eq!(w.params.len(), 10);
}

#[test]
fn absent_value_encodes_as_null() {
    let q = eq("a", Value::Absent);
    let expected = doc1("a", bson::Bson::Document(doc1("$eq", bson::Bson::Null)));
    assert_eq!(mongo::to_bson(&q), expected);
}

#[test]
fn empty_array_encodes_as_null() {
    let q = Query::is_in("a".to_owned(), Value::Array(vec![]));
    let expected = doc1("a", bson::Bson::Document(doc1("$in", bson::Bson::Null)));
    assert_eq!(mongo::to_bson(&q), expected);
}

#[test]
fn array_of_other_kind_encodes_as_null() {
    let q = Query::is_in(
        "a".to_owned(),
        Value::Array(vec![Value::Bool(true), Value::Bool(false)]),
    );
    let expected = doc1("a", bson::Bson::Document(doc1("$in", bson::Bson::Null)));
    assert_eq!(mongo::to_bson(&q), expected);
}

#[test]
fn mixed_array_coerces_to_first_kind() {
    // Homogeneity is inferred from the first element; other kinds are
    // skipped.
    let q = Query::is_in(
        "a".to_owned(),
        Value::Array(vec![
            Value::Number(1),
            Value::Text("x".to_owned()),
            Value::Number(2),
        ]),
    );
    let expected = doc1(
        "a",
        bson::Bson::Document(doc1(
            "$in",
            bson::Bson::Array(vec![bson::Bson::Int64(1), bson::Bson::Int64(2)]),
        )),
    );
    assert_eq!(mongo::to_bson(&q), expected);
}

#[test]
fn text_value_in_document() {
    let q = eq("state", Value::Text("Pending".to_owned()));
    let expected = doc1(
        "state",
        bson::Bson::Document(doc1("$eq", bson::Bson::String("Pending".to_owned()))),
    );
    assert_eq!(mongo::to_bson(&q), expected);
}

#[test]
fn float_value_in_document() {
    let q = eq("ratio", Value::Float("12.25".to_owned()));
    let expected = doc1("ratio", bson::Bson::Document(doc1("$eq", bson::Bson::Double(12.25f64))));
    assert_eq!(mongo::to_bson(&q), expected);
}

#[test]
fn value_accessors() {
    assert_eq!(Value::Number(5).get_number(), Some(5));
    assert_eq!(Value::Bool(true).get_number(), None);
    assert_eq!(Value::Text("x".to_owned()).get_string(), Some("x".to_owned()));
    assert_eq!(Value::Number(5).get_string(), None);
    assert_eq!(Value::Float("1.5".to_owned()).get_float(), Some("1.5".to_owned()));
    assert_eq!(Value::Text("1.5".to_owned()).get_float(), None);
}

#[test]
fn to_param_appends_and_numbers() {
    let mut params: Vec<Param> = Vec::new();
    let p1 = Value::Bool(false).to_param(&mut params);
    let p2 = Value::Number(5).to_param(&mut params);
    assert_eq!(p1, "$1");
    assert_eq!(p2, "$2");
    assert_eq!(
        params,
        vec![
            Param::from_value(Value::Bool(false)),
            Param::from_value(Value::Number(5))
        ]
    );
}

#[test]
fn value_conversions() {
    assert_eq!(Value::from(5i64), Value::Number(5));
    assert_eq!(Value::from(5i32), Value::Number(5));
    assert_eq!(Value::from(false), Value::Bool(false));
    assert_eq!(Value::from("za".to_owned()), Value::Text("za".to_owned()));
    assert_eq!(Value::from("za"), Value::Text("za".to_owned()));
    assert_eq!(
        Value::from(vec![5i64, 6, 7]),
        Value::Array(vec![Value::Number(5), Value::Number(6), Value::Number(7)])
    );
    assert_eq!(
        Value::from(vec!["5", "6"]),
        Value::Array(vec![Value::Text("5".to_owned()), Value::Text("6".to_owned())])
    );
    assert_eq!(
        Value::from(vec!["5".to_owned()]),
        Value::Array(vec![Value::Text("5".to_owned())])
    );
}
