use query_builder::query::{Query, Value};

fn eq(field: &str, value: Value) -> Query {
    Query::eq(field.to_owned(), value)
}

#[test]
fn query_composition() {
    let q = Query::and(eq("deleted", Value::Bool(false)), eq("b", Value::Number(5)));
    let q2 = Query::or(q.clone(), eq("c", Value::Number(7)));
    let q3 = Query::and(
        q.clone(),
        Query::or(
            eq("a", Value::Number(5)),
            Query::lt("b".to_owned(), Value::Number(5)),
        ),
    );
    let q_r = Query::And {
        left: Box::new(Query::Eq { field: "deleted".to_owned(), value: Value::Bool(false) }),
        right: Box::new(Query::Eq { field: "b".to_owned(), value: Value::Number(5) }),
    };
    let q2_r = Query::Or {
        left: Box::new(q_r.clone()),
        right: Box::new(Query::Eq { field: "c".to_owned(), value: Value::Number(7) }),
    };
    let q3_r = Query::And {
        left: Box::new(q_r.clone()),
        right: Box::new(Query::Or {
            left: Box::new(Query::Eq { field: "a".to_owned(), value: Value::Number(5) }),
            right: Box::new(Query::Lt { field: "b".to_owned(), value: Value::Number(5) }),
        }),
    };
    assert_eq!(q, q_r);
    assert_eq!(q2, q2_r);
    assert_eq!(q3, q3_r);
}

#[test]
fn query_in() {
    let q = Query::and(
        Query::is_in(
            "_id".to_owned(),
            Value::Array(vec![
                Value::Text("123".to_owned()),
                Value::Text("456".to_owned()),
                Value::Text("789".to_owned()),
            ]),
        ),
        eq("deleted", Value::Bool(false)),
    );
    let q_r = Query::And {
        left: Box::new(Query::In {
            field: "_id".to_owned(),
            value: Value::Array(vec![
                Value::Text("123".to_owned()),
                Value::Text("456".to_owned()),
                Value::Text("789".to_owned()),
            ]),
        }),
        right: Box::new(Query::Eq { field: "deleted".to_owned(), value: Value::Bool(false) }),
    };
    let q2 = Query::and(
        Query::is_in(
            "_id".to_owned(),
            Value::Array(vec![Value::Number(123), Value::Number(456), Value::Number(789)]),
        ),
        eq("deleted", Value::Bool(false)),
    );
    let q2_r = Query::And {
        left: Box::new(Query::In {
            field: "_id".to_owned(),
            value: Value::Array(vec![
                Value::Number(123),
                Value::Number(456),
                Value::Number(789),
            ]),
        }),
        right: Box::new(Query::Eq { field: "deleted".to_owned(), value: Value::Bool(false) }),
    };
    assert_eq!(q, q_r);
    assert_eq!(q2, q2_r);
}

#[test]
fn query_contains() {
    let q = Query::and(
        eq("deleted", Value::Bool(false)),
        Query::contains("countries".to_owned(), Value::Text("za".to_owned())),
    );
    let q_r = Query::And {
        left: Box::new(Query::Eq { field: "deleted".to_owned(), value: Value::Bool(false) }),
        right: Box::new(Query::Contains {
            field: "countries".to_owned(),
            value: Value::Text("za".to_owned()),
        }),
    };
    assert_eq!(q, q_r);
}

#[test]
fn query_contains_optional_0() {
    let q = Query::and_if(1 == 0, eq("deleted", Value::Bool(false)), || {
        Query::contains("countries".to_owned(), Value::Text("za".to_owned()))
    });
    let q_r = Query::Eq { field: "deleted".to_owned(), value: Value::Bool(false) };
    assert_eq!(q, q_r);
}

#[test]
fn query_contains_optional_1() {
    let q = Query::and_if(1 == 1, eq("deleted", Value::Bool(false)), || {
        Query::contains("countries".to_owned(), Value::Text("za".to_owned()))
    });
    let q_r = Query::And {
        left: Box::new(Query::Eq { field: "deleted".to_owned(), value: Value::Bool(false) }),
        right: Box::new(Query::Contains {
            field: "countries".to_owned(),
            value: Value::Text("za".to_owned()),
        }),
    };
    assert_eq!(q, q_r);
}

#[test]
fn query_contains_optional_2() {
    let q = Query::and_if(1 == 1, eq("deleted", Value::Bool(false)), || {
        Query::or_if(
            1 == 0,
            Query::contains("countries".to_owned(), Value::Text("za".to_owned())),
            || Query::gte("age".to_owned(), Value::Number(21)),
        )
    });
    let q_r = Query::And {
        left: Box::new(Query::Eq { field: "deleted".to_owned(), value: Value::Bool(false) }),
        right: Box::new(Query::Contains {
            field: "countries".to_owned(),
            value: Value::Text("za".to_owned()),
        }),
    };
    assert_eq!(q, q_r);
}

#[test]
fn query_contains_optional_3() {
    let q = Query::and_if(1 == 1, eq("deleted", Value::Bool(false)), || {
        Query::or_if(
            1 == 1,
            Query::contains("countries".to_owned(), Value::Text("za".to_owned())),
            || Query::gte("age".to_owned(), Value::Number(21)),
        )
    });
    let q_r = Query::And {
        left: Box::new(Query::Eq { field: "deleted".to_owned(), value: Value::Bool(false) }),
        right: Box::new(Query::Or {
            left: Box::new(Query::Contains {
                field: "countries".to_owned(),
                value: Value::Text("za".to_owned()),
            }),
            right: Box::new(Query::GtE { field: "age".to_owned(), value: Value::Number(21) }),
        }),
    };
    assert_eq!(q, q_r);
}

#[test]
fn query_contains_optional_4() {
    let q = Query::and_if(1 == 0, eq("deleted", Value::Bool(false)), || {
        Query::or_if(
            1 == 1,
            Query::contains("countries".to_owned(), Value::Text("za".to_owned())),
            || Query::gte("age".to_owned(), Value::Number(21)),
        )
    });
    let q_r = Query::Eq { field: "deleted".to_owned(), value: Value::Bool(false) };
    assert_eq!(q, q_r);
}

#[test]
fn query_contains_optional_5() {
    let q = Query::or_if(
        1 == 1,
        Query::and_if(1 == 0, eq("deleted", Value::Bool(false)), || {
            Query::contains("countries".to_owned(), Value::Text("za".to_owned()))
        }),
        || Query::gte("age".to_owned(), Value::Number(21)),
    );
    let q_r = Query::Or {
        left: Box::new(Query::Eq { field: "deleted".to_owned(), value: Value::Bool(false) }),
        right: Box::new(Query::GtE { field: "age".to_owned(), value: Value::Number(21) }),
    };
    assert_eq!(q, q_r);
}

fn complex(entity: Option<i32>, state: Option<&str>, currency_iso: Option<&str>) -> Query {
    Query::and_if(
        currency_iso.is_some(),
        Query::and_if(
            state.is_some(),
            Query::and_if(entity.is_some(), eq("deleted", Value::Bool(false)), || {
                Query::or(
                    eq("source.id", Value::Number(entity.clone().unwrap() as i64)),
                    eq("destination.id", Value::Number(entity.clone().unwrap() as i64)),
                )
            }),
            || eq("state", Value::Text(state.unwrap().to_owned())),
        ),
        || {
            Query::or(
                eq(
                    "source.currency_iso",
                    Value::Text(currency_iso.clone().unwrap().to_owned()),
                ),
                eq(
                    "destination.currency_iso",
                    Value::Text(currency_iso.clone().unwrap().to_owned()),
                ),
            )
        },
    )
}

#[test]
fn complex_optional() {
    let q = complex(Some(12), Some("Pending"), Some("USD"));
    let q_r = Query::And {
        left: Box::new(Query::And {
            left: Box::new(Query::And {
                left: Box::new(Query::Eq {
                    field: "deleted".to_owned(),
                    value: Value::Bool(false),
                }),
                right: Box::new(Query::Or {
                    left: Box::new(Query::Eq {
                        field: "source.id".to_owned(),
                        value: Value::Number(12),
                    }),
                    right: Box::new(Query::Eq {
                        field: "destination.id".to_owned(),
                        value: Value::Number(12),
                    }),
                }),
            }),
            right: Box::new(Query::Eq {
                field: "state".to_owned(),
                value: Value::Text("Pending".to_owned()),
            }),
        }),
        right: Box::new(Query::Or {
            left: Box::new(Query::Eq {
                field: "source.currency_iso".to_owned(),
                value: Value::Text("USD".to_owned()),
            }),
            right: Box::new(Query::Eq {
                field: "destination.currency_iso".to_owned(),
                value: Value::Text("USD".to_owned()),
            }),
        }),
    };
    assert_eq!(q, q_r);
}

#[test]
fn complex_optional_1() {
    let q = complex(None, Some("Pending"), Some("USD"));
    let q_r = Query::And {
        left: Box::new(Query::And {
            left: Box::new(Query::Eq { field: "deleted".to_owned(), value: Value::Bool(false) }),
            right: Box::new(Query::Eq {
                field: "state".to_owned(),
                value: Value::Text("Pending".to_owned()),
            }),
        }),
        right: Box::new(Query::Or {
            left: Box::new(Query::Eq {
                field: "source.currency_iso".to_owned(),
                value: Value::Text("USD".to_owned()),
            }),
            right: Box::new(Query::Eq {
                field: "destination.currency_iso".to_owned(),
                value: Value::Text("USD".to_owned()),
            }),
        }),
    };
    assert_eq!(q, q_r);
}

#[test]
fn complex_optional_2() {
    let q = complex(Some(12), None, Some("USD"));
    let q_r = Query::And {
        left: Box::new(Query::And {
            left: Box::new(Query::Eq { field: "deleted".to_owned(), value: Value::Bool(false) }),
            right: Box::new(Query::Or {
                left: Box::new(Query::Eq {
                    field: "source.id".to_owned(),
                    value: Value::Number(12),
                }),
                right: Box::new(Query::Eq {
                    field: "destination.id".to_owned(),
                    value: Value::Number(12),
                }),
            }),
        }),
        right: Box::new(Query::Or {
            left: Box::new(Query::Eq {
                field: "source.currency_iso".to_owned(),
                value: Value::Text("USD".to_owned()),
            }),
            right: Box::new(Query::Eq {
                field: "destination.currency_iso".to_owned(),
                value: Value::Text("USD".to_owned()),
            }),
        }),
    };
    assert_eq!(q, q_r);
}

#[test]
fn complex_optional_3() {
    let q = complex(Some(12), Some("Pending"), None);
    let q_r = Query::And {
        left: Box::new(Query::And {
            left: Box::new(Query::Eq { field: "deleted".to_owned(), value: Value::Bool(false) }),
            right: Box::new(Query::Or {
                left: Box::new(Query::Eq {
                    field: "source.id".to_owned(),
                    value: Value::Number(12),
                }),
                right: Box::new(Query::Eq {
                    field: "destination.id".to_owned(),
                    value: Value::Number(12),
                }),
            }),
        }),
        right: Box::new(Query::Eq {
            field: "state".to_owned(),
            value: Value::Text("Pending".to_owned()),
        }),
    };
    assert_eq!(q, q_r);
}

#[test]
fn complex_optional_4() {
    let q = complex(None, Some("Pending"), None);
    let q_r = Query::And {
        left: Box::new(Query::Eq { field: "deleted".to_owned(), value: Value::Bool(false) }),
        right: Box::new(Query::Eq {
            field: "state".to_owned(),
            value: Value::Text("Pending".to_owned()),
        }),
    };
    assert_eq!(q, q_r);
}

#[test]
fn complex_optional_5() {
    let q = complex(None, None, None);
    let q_r = Query::Eq { field: "deleted".to_owned(), value: Value::Bool(false) };
    assert_eq!(q, q_r);
}

#[test]
fn complex_optional_6() {
    let q = complex(Some(12), None, None);
    let q_r = Query::And {
        left: Box::new(Query::Eq { field: "deleted".to_owned(), value: Value::Bool(false) }),
        right: Box::new(Query::Or {
            left: Box::new(Query::Eq {
                field: "source.id".to_owned(),
                value: Value::Number(12),
            }),
            right: Box::new(Query::Eq {
                field: "destination.id".to_owned(),
                value: Value::Number(12),
            }),
        }),
    };
    assert_eq!(q, q_r);
}

#[test]
fn complex_optional_7() {
    let q = complex(None, None, Some("USD"));
    let q_r = Query::And {
        left: Box::new(Query::Eq { field: "deleted".to_owned(), value: Value::Bool(false) }),
        right: Box::new(Query::Or {
            left: Box::new(Query::Eq {
                field: "source.currency_iso".to_owned(),
                value: Value::Text("USD".to_owned()),
            }),
            right: Box::new(Query::Eq {
                field: "destination.currency_iso".to_owned(),
                value: Value::Text("USD".to_owned()),
            }),
        }),
    };
    assert_eq!(q, q_r);
}
