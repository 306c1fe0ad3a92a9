use query_builder::query::parse::{
    self, IdentifierReader, LexError, NumberReader, Operand, OperandReader, ParseError,
    QueryError, ReadOutcome, StringReader, TokenValue, WhitespaceReader,
};
use query_builder::query::{Query, Value};

fn eq(field: &str, value: Value) -> Query {
    Query::eq(field.to_owned(), value)
}

#[test]
fn lexer_works() {
    let squery = "deleted == false && b == 5 && (a == 5 || b < 5)";
    let query = parse::from_str(squery).unwrap();
    let q_r = Query::And {
        left: Box::new(Query::Eq { field: "deleted".to_owned(), value: Value::Bool(false) }),
        right: Box::new(Query::And {
            left: Box::new(Query::Eq { field: "b".to_owned(), value: Value::Number(5) }),
            right: Box::new(Query::Or {
                left: Box::new(Query::Eq { field: "a".to_owned(), value: Value::Number(5) }),
                right: Box::new(Query::Lt { field: "b".to_owned(), value: Value::Number(5) }),
            }),
        }),
    };
    assert_eq!(query, q_r);
}

#[test]
fn chained_connectives_are_right_associative() {
    let q = parse::from_str("a==1 && b==2 && c==3").unwrap();
    let q_r = Query::And {
        left: Box::new(Query::Eq { field: "a".to_owned(), value: Value::Number(1) }),
        right: Box::new(Query::And {
            left: Box::new(Query::Eq { field: "b".to_owned(), value: Value::Number(2) }),
            right: Box::new(Query::Eq { field: "c".to_owned(), value: Value::Number(3) }),
        }),
    };
    assert_eq!(q, q_r);
}

#[test]
fn all_comparison_operators_parse() {
    assert_eq!(parse::from_str("a == 1").unwrap(), eq("a", Value::Number(1)));
    assert_eq!(
        parse::from_str("a != 1").unwrap(),
        Query::Neq { field: "a".to_owned(), value: Value::Number(1) }
    );
    assert_eq!(
        parse::from_str("a > 1").unwrap(),
        Query::Gt { field: "a".to_owned(), value: Value::Number(1) }
    );
    assert_eq!(
        parse::from_str("a >= 1").unwrap(),
        Query::GtE { field: "a".to_owned(), value: Value::Number(1) }
    );
    assert_eq!(
        parse::from_str("a < 1").unwrap(),
        Query::Lt { field: "a".to_owned(), value: Value::Number(1) }
    );
    assert_eq!(
        parse::from_str("a <= 1").unwrap(),
        Query::LtE { field: "a".to_owned(), value: Value::Number(1) }
    );
    assert_eq!(
        parse::from_str("a #= 'x.*'").unwrap(),
        Query::Rx { field: "a".to_owned(), value: Value::Text("x.*".to_owned()) }
    );
}

#[test]
fn literals_parse() {
    assert_eq!(
        parse::from_str("a == 'hello world'").unwrap(),
        eq("a", Value::Text("hello world".to_owned()))
    );
    assert_eq!(parse::from_str("a == true").unwrap(), eq("a", Value::Bool(true)));
    assert_eq!(parse::from_str("a == false").unwrap(), eq("a", Value::Bool(false)));
    assert_eq!(
        parse::from_str("a == 12.25").unwrap(),
        eq("a", Value::Float("12.25".to_owned()))
    );
    assert_eq!(
        parse::from_str("dotted.field_1 == 9").unwrap(),
        eq("dotted.field_1", Value::Number(9))
    );
}

#[test]
fn separators_are_whitespace_and_commas() {
    let q = parse::from_str("a==1,&&,,b==2").unwrap();
    let q_r = Query::And {
        left: Box::new(eq("a", Value::Number(1))),
        right: Box::new(eq("b", Value::Number(2))),
    };
    assert_eq!(q, q_r);
}

#[test]
fn empty_input_parses_to_empty() {
    assert_eq!(parse::from_str("").unwrap(), Query::Empty);
    assert_eq!(parse::from_str("   ").unwrap(), Query::Empty);
    assert_eq!(parse::from_str("()").unwrap(), Query::Empty);
}

#[test]
fn malformed_input_is_a_parse_error() {
    assert_eq!(
        parse::from_str("a =="),
        Err(QueryError::Parse(ParseError::IncompleteComparison))
    );
}

#[test]
fn dangling_connective_is_a_parse_error() {
    assert_eq!(
        parse::from_str("a == 1 &&"),
        Err(QueryError::Parse(ParseError::DanglingConnective))
    );
}

#[test]
fn identifier_without_operator_is_a_parse_error() {
    assert_eq!(
        parse::from_str("a b c"),
        Err(QueryError::Parse(ParseError::ExpectedOperator))
    );
}

#[test]
fn identifier_value_is_a_parse_error() {
    assert_eq!(
        parse::from_str("a == b"),
        Err(QueryError::Parse(ParseError::ExpectedLiteral))
    );
}

#[test]
fn lone_ampersand_is_a_lex_error() {
    assert_eq!(
        parse::from_str("a == 1 & b == 2"),
        Err(QueryError::Lex(LexError::UnexpectedChar))
    );
}

#[test]
fn lone_equals_is_a_lex_error() {
    assert_eq!(parse::from_str("a = 1"), Err(QueryError::Lex(LexError::UnexpectedChar)));
}

#[test]
fn unterminated_text_is_a_lex_error() {
    assert_eq!(
        parse::from_str("a == 'oops"),
        Err(QueryError::Lex(LexError::UnterminatedText))
    );
}

#[test]
fn unterminated_group_is_a_lex_error() {
    assert_eq!(
        parse::from_str("(a == 1"),
        Err(QueryError::Lex(LexError::UnterminatedGroup))
    );
}

#[test]
fn stray_close_paren_is_a_lex_error() {
    assert_eq!(
        parse::from_str("a == 1 )"),
        Err(QueryError::Lex(LexError::UnexpectedChar))
    );
}

#[test]
fn two_decimal_points_are_a_lex_error() {
    assert_eq!(
        parse::from_str("a == 1.2.3"),
        Err(QueryError::Lex(LexError::MalformedNumber))
    );
}

#[test]
fn integer_overflow_is_a_lex_error() {
    assert_eq!(
        parse::from_str("a == 9223372036854775807").unwrap(),
        eq("a", Value::Number(i64::MAX))
    );
    assert_eq!(
        parse::from_str("a == 9223372036854775808"),
        Err(QueryError::Lex(LexError::NumberOverflow))
    );
}

#[test]
fn group_replaces_the_accumulator() {
    // A group discards what came before it: the tree is the group's own.
    let q = parse::from_str("(a == 1 || b == 2) && c == 3").unwrap();
    let q_r = Query::And {
        left: Box::new(Query::Or {
            left: Box::new(eq("a", Value::Number(1))),
            right: Box::new(eq("b", Value::Number(2))),
        }),
        right: Box::new(eq("c", Value::Number(3))),
    };
    assert_eq!(q, q_r);
}

#[test]
fn builder_and_parser_agree() {
    let parsed = parse::from_str("deleted == false && b == 5").unwrap();
    let built = Query::and(eq("deleted", Value::Bool(false)), eq("b", Value::Number(5)));
    assert_eq!(parsed, built);
}

#[test]
fn render_round_trip() {
    let q = Query::and(
        eq("deleted", Value::Bool(false)),
        Query::or(
            Query::gte("age".to_owned(), Value::Number(21)),
            Query::matches("name".to_owned(), Value::Text("A.*".to_owned())),
        ),
    );
    let text = q.to_text();
    assert_eq!(text, "(deleted == false) && (age >= 21) || name #= 'A.*'");
    assert_eq!(parse::from_str(&text).unwrap(), q);
}

#[test]
fn render_round_trip_literals() {
    let q = Query::and(
        Query::lt("ratio".to_owned(), Value::Float("12.25".to_owned())),
        Query::neq("count".to_owned(), Value::Number(0)),
    );
    let text = q.to_text();
    assert_eq!(parse::from_str(&text).unwrap(), q);
}

#[test]
fn nested_groups_parse() {
    let q = parse::from_str("((a == 1))").unwrap();
    assert_eq!(q, eq("a", Value::Number(1)));
    let q2 = parse::from_str("(((a == 1) && b == 2))").unwrap();
    let q2_r = Query::And {
        left: Box::new(eq("a", Value::Number(1))),
        right: Box::new(eq("b", Value::Number(2))),
    };
    assert_eq!(q2, q2_r);
}

#[test]
fn readers_read_single_tokens() {
    assert_eq!(WhitespaceReader::read("a b", 1), ReadOutcome::Skip(2));
    assert_eq!(WhitespaceReader::read("a b", 0), ReadOutcome::NoMatch);
    assert_eq!(
        NumberReader::read("12.5 ", 0),
        ReadOutcome::Token(TokenValue::Float("12.5".to_owned()), 4)
    );
    assert_eq!(
        NumberReader::read("125", 0),
        ReadOutcome::Token(TokenValue::Number(125), 3)
    );
    assert_eq!(
        StringReader::read("'hi' ", 0),
        ReadOutcome::Token(TokenValue::Text("hi".to_owned()), 4)
    );
    assert_eq!(
        OperandReader::read("<= 1", 0),
        ReadOutcome::Token(TokenValue::Operand(Operand::LtE), 2)
    );
    assert_eq!(
        IdentifierReader::read("size > 1", 0),
        ReadOutcome::Token(TokenValue::Identifier("size".to_owned()), 4)
    );
    assert_eq!(
        IdentifierReader::read("true", 0),
        ReadOutcome::Token(TokenValue::Bool(true), 4)
    );
}
