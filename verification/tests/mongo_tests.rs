use query_builder::mongo;
use query_builder::query::{Query, Value};

fn eq(field: &str, value: Value) -> Query {
    Query::eq(field.to_owned(), value)
}

fn doc1(k: &str, v: bson::Bson) -> bson::Document {
    let mut d = bson::Document::new();
    d.insert(k, v);
    d
}

fn pair(k: &str, l: bson::Document, r: bson::Document) -> bson::Document {
    doc1(
        k,
        bson::Bson::Array(vec![bson::Bson::Document(l), bson::Bson::Document(r)]),
    )
}

#[test]
fn test_bson() {
    let q = Query::and(eq("deleted", Value::Bool(false)), eq("b", Value::Number(5)));
    let q2 = Query::or(q.clone(), eq("c", Value::Number(7)));
    let q3 = Query::and(
        q.clone(),
        Query::or(
            eq("a", Value::Number(5)),
            Query::lt("b".to_owned(), Value::Number(5)),
        ),
    );
    let q_r = pair(
        "$and",
        doc1("deleted", bson::Bson::Document(doc1("$eq", bson::Bson::Boolean(false)))),
        doc1("b", bson::Bson::Document(doc1("$eq", bson::Bson::Int64(5)))),
    );
    let q2_r = pair(
        "$or",
        q_r.clone(),
        doc1("c", bson::Bson::Document(doc1("$eq", bson::Bson::Int64(7)))),
    );
    let q3_r = pair(
        "$and",
        q_r.clone(),
        pair(
            "$or",
            doc1("a", bson::Bson::Document(doc1("$eq", bson::Bson::Int64(5)))),
            doc1("b", bson::Bson::Document(doc1("$lt", bson::Bson::Int64(5)))),
        ),
    );
    assert_eq!(mongo::to_bson(&q), q_r);
    assert_eq!(mongo::to_bson(&q2), q2_r);
    assert_eq!(mongo::to_bson(&q3), q3_r);
}

#[test]
fn mongo_query_in_bson_string() {
    let q = Query::and(
        eq("deleted", Value::Bool(false)),
        Query::is_in(
            "b".to_owned(),
            Value::Array(vec![
                Value::Text("5".to_owned()),
                Value::Text("6".to_owned()),
                Value::Text("7".to_owned()),
            ]),
        ),
    );
    let q_r = pair(
        "$and",
        doc1("deleted", bson::Bson::Document(doc1("$eq", bson::Bson::Boolean(false)))),
        doc1(
            "b",
            bson::Bson::Document(doc1(
                "$in",
                bson::Bson::Array(vec![
                    bson::Bson::String("5".to_owned()),
                    bson::Bson::String("6".to_owned()),
                    bson::Bson::String("7".to_owned()),
                ]),
            )),
        ),
    );
    assert_eq!(mongo::to_bson(&q), q_r);
}

#[test]
fn mongo_query_in_bson_i32() {
    let q = Query::and(
        eq("deleted", Value::Bool(false)),
        Query::is_in(
            "b".to_owned(),
            Value::Array(vec![
                Value::Number(5i32 as i64),
                Value::Number(6i32 as i64),
                Value::Number(7i32 as i64),
            ]),
        ),
    );
    let q_r = pair(
        "$and",
        doc1("deleted", bson::Bson::Document(doc1("$eq", bson::Bson::Boolean(false)))),
        doc1(
            "b",
            bson::Bson::Document(doc1(
                "$in",
                bson::Bson::Array(vec![
                    bson::Bson::Int64(5),
                    bson::Bson::Int64(6),
                    bson::Bson::Int64(7),
                ]),
            )),
        ),
    );
    assert_eq!(mongo::to_bson(&q), q_r);
}

#[test]
fn mongo_query_in_bson_i64() {
    let q = Query::and(
        eq("deleted", Value::Bool(false)),
        Query::is_in(
            "b".to_owned(),
            Value::Array(vec![Value::Number(5i64), Value::Number(6i64), Value::Number(7i64)]),
        ),
    );
    let q_r = pair(
        "$and",
        doc1("deleted", bson::Bson::Document(doc1("$eq", bson::Bson::Boolean(false)))),
        doc1(
            "b",
            bson::Bson::Document(doc1(
                "$in",
                bson::Bson::Array(vec![
                    bson::Bson::Int64(5),
                    bson::Bson::Int64(6),
                    bson::Bson::Int64(7),
                ]),
            )),
        ),
    );
    assert_eq!(mongo::to_bson(&q), q_r);
}

#[test]
fn mongo_query_in_bson_f64() {
    let q = Query::and(
        eq("deleted", Value::Bool(false)),
        Query::is_in(
            "b".to_owned(),
            Value::Array(vec![
                Value::Float(format!("{:?}", 5.5f64)),
                Value::Float(format!("{:?}", 6.3f64)),
                Value::Float(format!("{:?}", 7f64)),
            ]),
        ),
    );
    let q_r = pair(
        "$and",
        doc1("deleted", bson::Bson::Document(doc1("$eq", bson::Bson::Boolean(false)))),
        doc1(
            "b",
            bson::Bson::Document(doc1(
                "$in",
                bson::Bson::Array(vec![
                    bson::Bson::Double(5.5f64),
                    bson::Bson::Double(6.3f64),
                    bson::Bson::Double(7f64),
                ]),
            )),
        ),
    );
    assert_eq!(mongo::to_bson(&q), q_r);
}

#[test]
fn mongo_query_contains_string() {
    let q = Query::and(
        eq("deleted", Value::Bool(false)),
        Query::contains("b".to_owned(), Value::Text("hi".to_owned())),
    );
    let q_r = pair(
        "$and",
        doc1("deleted", bson::Bson::Document(doc1("$eq", bson::Bson::Boolean(false)))),
        doc1(
            "b",
            bson::Bson::Document(doc1("$elemMatch", bson::Bson::String("hi".to_owned()))),
        ),
    );
    assert_eq!(mongo::to_bson(&q), q_r);
}

#[test]
fn mongo_query_contains_integer() {
    let q = Query::and(
        eq("deleted", Value::Bool(false)),
        Query::contains("b".to_owned(), Value::Number(6)),
    );
    let q_r = pair(
        "$and",
        doc1("deleted", bson::Bson::Document(doc1("$eq", bson::Bson::Boolean(false)))),
        doc1("b", bson::Bson::Document(doc1("$elemMatch", bson::Bson::Int64(6)))),
    );
    assert_eq!(mongo::to_bson(&q), q_r);
}

#[test]
fn mongo_query_contains_float() {
    let q = Query::and(
        eq("deleted", Value::Bool(false)),
        Query::contains("b".to_owned(), Value::Float(format!("{:?}", 123.43f64))),
    );
    let q_r = pair(
        "$and",
        doc1("deleted", bson::Bson::Document(doc1("$eq", bson::Bson::Boolean(false)))),
        doc1("b", bson::Bson::Document(doc1("$elemMatch", bson::Bson::Double(123.43f64)))),
    );
    assert_eq!(mongo::to_bson(&q), q_r);
}
