use query_builder::postgres::{self, Param};
use query_builder::query::{Query, Value};

fn eq(field: &str, value: Value) -> Query {
    Query::eq(field.to_owned(), value)
}

#[test]
fn test_postgress() {
    let q = Query::and(eq("deleted", Value::Bool(false)), eq("b", Value::Number(5)));
    let q2 = Query::or(q.clone(), eq("c", Value::Number(7)));
    let q3 = Query::and(
        q.clone(),
        Query::or(
            eq("a", Value::Number(5)),
            Query::lt("b".to_owned(), Value::Number(5)),
        ),
    );
    let q_r = "(deleted = $1 AND b = $2)".to_owned();
    let q2_r = format!("({} OR c = $3)", q_r);
    let q3_r = format!("((deleted = $1 AND b = $2) AND (a = $3 OR b < $4))");
    let result = postgres::to_where(&q);
    assert_eq!(result.where_clause, q_r);
    assert_eq!(
        result.params,
        vec![
            Param::from_value(Value::Bool(false)),
            Param::from_value(Value::Number(5))
        ]
    );
    assert_eq!(postgres::to_where(&q2).where_clause, q2_r);
    assert_eq!(postgres::to_where(&q3).where_clause, q3_r);
}

#[test]
fn postgres_query_in_bson_string() {
    let q = Query::and(
        eq("deleted", Value::Bool(false)),
        Query::is_in(
            "b".to_owned(),
            Value::Array(vec![
                Value::Text("5".to_owned()),
                Value::Text("6".to_owned()),
                Value::Text("7".to_owned()),
            ]),
        ),
    );
    let q_r = "(deleted = $1 AND b IN $2)".to_owned();
    let result = postgres::to_where(&q);
    assert_eq!(result.where_clause, q_r);
    assert_eq!(
        result.params,
        vec![
            Param::from_value(Value::Bool(false)),
            Param::from_value(Value::Array(vec![
                Value::Text("5".to_owned()),
                Value::Text("6".to_owned()),
                Value::Text("7".to_owned()),
            ]))
        ]
    );
}

#[test]
fn postgres_query_in_bson_i32() {
    let q = Query::and(
        eq("deleted", Value::Bool(false)),
        Query::is_in(
            "b".to_owned(),
            Value::Array(vec![
                Value::Number(5i32 as i64),
                Value::Number(6i32 as i64),
                Value::Number(7i32 as i64),
            ]),
        ),
    );
    let q_r = "(deleted = $1 AND b IN $2)".to_owned();
    let result = postgres::to_where(&q);
    assert_eq!(result.where_clause, q_r);
    assert_eq!(
        result.params,
        vec![
            Param::from_value(Value::Bool(false)),
            Param::from_value(Value::Array(vec![
                Value::Number(5),
                Value::Number(6),
                Value::Number(7),
            ]))
        ]
    );
}

#[test]
fn postgres_query_in_bson_i64() {
    let q = Query::and(
        eq("deleted", Value::Bool(false)),
        Query::is_in(
            "b".to_owned(),
            Value::Array(vec![Value::Number(5i64), Value::Number(6i64), Value::Number(7i64)]),
        ),
    );
    let q_r = "(deleted = $1 AND b IN $2)".to_owned();
    let result = postgres::to_where(&q);
    assert_eq!(result.where_clause, q_r);
    assert_eq!(
        result.params,
        vec![
            Param::from_value(Value::Bool(false)),
            Param::from_value(Value::Array(vec![
                Value::Number(5),
                Value::Number(6),
                Value::Number(7),
            ]))
        ]
    );
}

#[test]
fn postgres_query_in_bson_f64() {
    let q = Query::and(
        eq("deleted", Value::Bool(false)),
        Query::is_in(
            "b".to_owned(),
            Value::Array(vec![
                Value::Float(format!("{:?}", 5.5f64)),
                Value::Float(format!("{:?}", 6.3f64)),
                Value::Float(format!("{:?}", 7f64)),
            ]),
        ),
    );
    let q_r = "(deleted = $1 AND b IN $2)".to_owned();
    let result = postgres::to_where(&q);
    assert_eq!(result.where_clause, q_r);
    assert_eq!(
        result.params,
        vec![
            Param::from_value(Value::Bool(false)),
            Param::from_value(Value::Array(vec![
                Value::Float(format!("{:?}", 5.5f64)),
                Value::Float(format!("{:?}", 6.3f64)),
                Value::Float(format!("{:?}", 7f64)),
            ]))
        ]
    );
}

#[test]
fn postgres_query_contains_string() {
    let q = Query::and(
        eq("deleted", Value::Bool(false)),
        Query::contains("b".to_owned(), Value::Text("hi".to_owned())),
    );
    let q_r = "(deleted = $1 AND b CONTAINS $2)".to_owned();
    let result = postgres::to_where(&q);
    assert_eq!(result.where_clause, q_r);
    assert_eq!(
        result.params,
        vec![
            Param::from_value(Value::Bool(false)),
            Param::from_value(Value::Text("hi".to_owned()))
        ]
    );
}

#[test]
fn postgres_query_contains_integer() {
    let q = Query::and(
        eq("deleted", Value::Bool(false)),
        Query::contains("b".to_owned(), Value::Number(6)),
    );
    let q_r = "(deleted = $1 AND b CONTAINS $2)".to_owned();
    let result = postgres::to_where(&q);
    assert_eq!(result.where_clause, q_r);
    assert_eq!(
        result.params,
        vec![
            Param::from_value(Value::Bool(false)),
            Param::from_value(Value::Number(6))
        ]
    );
}

#[test]
fn postgres_query_contains_float() {
    let q = Query::and(
        eq("deleted", Value::Bool(false)),
        Query::contains("b".to_owned(), Value::Float(format!("{:?}", 123.43f64))),
    );
    let q_r = "(deleted = $1 AND b CONTAINS $2)".to_owned();
    let result = postgres::to_where(&q);
    assert_eq!(result.where_clause, q_r);
    assert_eq!(
        result.params,
        vec![
            Param::from_value(Value::Bool(false)),
            Param::from_value(Value::Float(format!("{:?}", 123.43f64)))
        ]
    );
}
