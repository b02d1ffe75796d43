use seaserpent::search::lexer::LexItem;
use seaserpent::search::parser::{
    parse, parse_next, BinaryOp, Expression, ParseError, Tokens, UnaryOp,
};

fn and(left: Expression, right: Expression) -> Expression {
    Expression::BinaryOp {
        left: Box::new(left),
        right: Box::new(right),
        op_type: BinaryOp::And,
    }
}

fn either(left: Expression, right: Expression) -> Expression {
    Expression::BinaryOp {
        left: Box::new(left),
        right: Box::new(right),
        op_type: BinaryOp::Or,
    }
}

fn negated(expr: Expression) -> Expression {
    Expression::UnaryOp {
        expr: Box::new(expr),
        op_type: UnaryOp::Not,
    }
}

fn attribute(key: Option<&str>, value: Option<&str>) -> Expression {
    Expression::Attribute {
        key: key.map(|k| k.to_string()),
        value: value.map(|v| v.to_string()),
    }
}

#[test]
fn single_tag() {
    assert_eq!(
        parse(vec![LexItem::word("tag")]).unwrap(),
        Expression::tag("tag")
    )
}

#[test]
fn two_tags() {
    assert_eq!(
        parse(vec![LexItem::word("A"), LexItem::word("B")]).unwrap(),
        Expression::BinaryOp {
            left: Box::new(Expression::tag("A")),
            right: Box::new(Expression::tag("B")),
            op_type: BinaryOp::And
        }
    )
}

#[test]
fn or() {
    assert_eq!(
        parse(vec![LexItem::word("A"), LexItem::Or, LexItem::word("B")]).unwrap(),
        Expression::BinaryOp {
            left: Box::new(Expression::tag("A")),
            right: Box::new(Expression::tag("B")),
            op_type: BinaryOp::Or
        }
    )
}

#[test]
fn paren() {
    assert_eq!(
        parse(vec![
            LexItem::StartParen,
            LexItem::word("tag"),
            LexItem::EndParen
        ])
        .unwrap(),
        Expression::tag("tag")
    )
}

#[test]
fn paren_with_trailing() {
    assert_eq!(
        parse(vec![
            LexItem::StartParen,
            LexItem::word("A"),
            LexItem::EndParen,
            LexItem::word("B")
        ])
        .unwrap(),
        Expression::BinaryOp {
            left: Box::new(Expression::tag("A")),
            right: Box::new(Expression::tag("B")),
            op_type: BinaryOp::And
        }
    )
}

#[test]
fn not() {
    assert_eq!(
        parse(vec![LexItem::Not, LexItem::word("tag")]).unwrap(),
        Expression::UnaryOp {
            expr: Box::new(Expression::tag("tag")),
            op_type: UnaryOp::Not
        }
    )
}

#[test]
fn parser_attribute() {
    assert_eq!(
        parse(vec![
            LexItem::word("key"),
            LexItem::AttributeSeperator,
            LexItem::word("value")
        ])
        .unwrap(),
        Expression::Attribute {
            key: Some("key".to_string()),
            value: Some("value".to_string())
        }
    )
}

#[test]
fn unary_catches_single() {
    assert_eq!(
        parse(vec![LexItem::Not, LexItem::word("A"), LexItem::word("B")]).unwrap(),
        Expression::BinaryOp {
            op_type: BinaryOp::And,
            left: Box::new(Expression::UnaryOp {
                expr: Box::new(Expression::tag("A")),
                op_type: UnaryOp::Not
            }),
            right: Box::new(Expression::tag("B"))
        }
    )
}

#[test]
fn no_tokens_parse_to_empty() {
    assert_eq!(parse(Vec::new()).unwrap(), Expression::Empty);
}

#[test]
fn three_terms_lean_to_the_right() {
    let tokens = vec![
        LexItem::word("A"),
        LexItem::word("B"),
        LexItem::Or,
        LexItem::word("C"),
    ];
    let expected = and(
        Expression::tag("A"),
        either(Expression::tag("B"), Expression::tag("C")),
    );
    let parsed = parse(tokens).unwrap();
    assert_eq!(parsed, expected);
    assert_ne!(
        parsed,
        either(
            and(Expression::tag("A"), Expression::tag("B")),
            Expression::tag("C")
        )
    );
}

#[test]
fn or_chain_leans_to_the_right() {
    let tokens = vec![
        LexItem::word("A"),
        LexItem::Or,
        LexItem::word("B"),
        LexItem::word("C"),
    ];
    assert_eq!(
        parse(tokens).unwrap(),
        either(
            Expression::tag("A"),
            and(Expression::tag("B"), Expression::tag("C"))
        )
    );
}

#[test]
fn not_binds_to_one_unit_before_or() {
    let tokens = vec![
        LexItem::Not,
        LexItem::word("A"),
        LexItem::Or,
        LexItem::word("B"),
    ];
    assert_eq!(
        parse(tokens).unwrap(),
        either(negated(Expression::tag("A")), Expression::tag("B"))
    );
}

#[test]
fn not_of_a_group_negates_the_group() {
    let tokens = vec![
        LexItem::Not,
        LexItem::StartParen,
        LexItem::word("A"),
        LexItem::word("B"),
        LexItem::EndParen,
        LexItem::word("C"),
    ];
    assert_eq!(
        parse(tokens).unwrap(),
        and(
            negated(and(Expression::tag("A"), Expression::tag("B"))),
            Expression::tag("C")
        )
    );
}

#[test]
fn double_not() {
    let tokens = vec![LexItem::Not, LexItem::Not, LexItem::word("A")];
    assert_eq!(
        parse(tokens).unwrap(),
        negated(negated(Expression::tag("A")))
    );
}

#[test]
fn not_of_an_attribute() {
    let tokens = vec![
        LexItem::Not,
        LexItem::word("k"),
        LexItem::AttributeSeperator,
        LexItem::word("v"),
        LexItem::word("B"),
    ];
    assert_eq!(
        parse(tokens).unwrap(),
        and(negated(attribute(Some("k"), Some("v"))), Expression::tag("B"))
    );
}

#[test]
fn attribute_with_key_only() {
    let tokens = vec![LexItem::word("key"), LexItem::AttributeSeperator];
    assert_eq!(parse(tokens).unwrap(), attribute(Some("key"), None));
}

#[test]
fn attribute_with_value_only() {
    let tokens = vec![LexItem::AttributeSeperator, LexItem::word("value")];
    assert_eq!(parse(tokens).unwrap(), attribute(None, Some("value")));
}

#[test]
fn bare_separator_is_skipped() {
    let tokens = vec![LexItem::AttributeSeperator, LexItem::StartParen, LexItem::word("A"), LexItem::EndParen];
    assert_eq!(parse(tokens).unwrap(), Expression::tag("A"));
}

#[test]
fn bare_separator_alone_needs_more_input() {
    assert_eq!(
        parse(vec![LexItem::AttributeSeperator]),
        Err(ParseError::UnexpectedEndOfInput)
    );
}

#[test]
fn key_without_value_leaves_the_next_token() {
    let tokens = vec![
        LexItem::word("key"),
        LexItem::AttributeSeperator,
        LexItem::Or,
        LexItem::word("B"),
    ];
    assert_eq!(
        parse(tokens).unwrap(),
        either(attribute(Some("key"), None), Expression::tag("B"))
    );
}

#[test]
fn key_without_value_inside_parentheses() {
    let tokens = vec![
        LexItem::StartParen,
        LexItem::word("key"),
        LexItem::AttributeSeperator,
        LexItem::EndParen,
        LexItem::word("B"),
    ];
    assert_eq!(
        parse(tokens).unwrap(),
        and(attribute(Some("key"), None), Expression::tag("B"))
    );
}

#[test]
fn attribute_followed_by_a_tag() {
    let tokens = vec![
        LexItem::word("key"),
        LexItem::AttributeSeperator,
        LexItem::word("value"),
        LexItem::word("B"),
    ];
    assert_eq!(
        parse(tokens).unwrap(),
        and(attribute(Some("key"), Some("value")), Expression::tag("B"))
    );
}

#[test]
fn missing_closing_parenthesis_is_tolerated() {
    let tokens = vec![LexItem::StartParen, LexItem::word("A"), LexItem::word("B")];
    assert_eq!(
        parse(tokens).unwrap(),
        and(Expression::tag("A"), Expression::tag("B"))
    );
}

#[test]
fn nested_parentheses() {
    let tokens = vec![
        LexItem::StartParen,
        LexItem::StartParen,
        LexItem::word("A"),
        LexItem::EndParen,
        LexItem::Or,
        LexItem::word("B"),
        LexItem::EndParen,
        LexItem::word("C"),
    ];
    assert_eq!(
        parse(tokens).unwrap(),
        and(
            either(Expression::tag("A"), Expression::tag("B")),
            Expression::tag("C")
        )
    );
}

#[test]
fn tokens_after_a_stray_closing_parenthesis_are_ignored() {
    let tokens = vec![LexItem::word("A"), LexItem::EndParen, LexItem::word("B")];
    assert_eq!(parse(tokens).unwrap(), Expression::tag("A"));
}

#[test]
fn not_at_the_end_is_unexpected_end_of_input() {
    assert_eq!(
        parse(vec![LexItem::Not]),
        Err(ParseError::UnexpectedEndOfInput)
    );
    assert_eq!(
        parse(vec![LexItem::word("A"), LexItem::Or]),
        Err(ParseError::UnexpectedEndOfInput)
    );
    assert_eq!(
        parse(vec![LexItem::StartParen]),
        Err(ParseError::UnexpectedEndOfInput)
    );
}

#[test]
fn leading_or_is_unexpected_token() {
    assert_eq!(
        parse(vec![LexItem::Or, LexItem::word("A")]),
        Err(ParseError::UnexpectedToken)
    );
    assert_eq!(
        parse(vec![LexItem::EndParen]),
        Err(ParseError::UnexpectedToken)
    );
    assert_eq!(
        parse(vec![LexItem::StartParen, LexItem::EndParen]),
        Err(ParseError::UnexpectedToken)
    );
    assert_eq!(
        parse(vec![LexItem::word("A"), LexItem::Or, LexItem::Or]),
        Err(ParseError::UnexpectedToken)
    );
    assert_eq!(
        parse(vec![LexItem::Not, LexItem::Or]),
        Err(ParseError::UnexpectedToken)
    );
}

#[test]
fn parse_next_stops_before_a_closing_parenthesis() {
    let mut iter = Tokens::new(vec![
        LexItem::word("A"),
        LexItem::EndParen,
        LexItem::word("B"),
    ]);
    assert_eq!(parse_next(&mut iter).unwrap(), Expression::tag("A"));
    assert_eq!(iter.peek(), Some(&LexItem::EndParen));
    iter.advance();
    assert_eq!(parse_next(&mut iter).unwrap(), Expression::tag("B"));
    assert_eq!(iter.peek(), None);
    assert_eq!(parse_next(&mut iter), Err(ParseError::UnexpectedEndOfInput));
}

#[test]
fn parse_error_messages() {
    assert_eq!(
        ParseError::UnexpectedEndOfInput.to_string(),
        "Unexpected end of input"
    );
    assert_eq!(ParseError::UnexpectedToken.to_string(), "Unexpected token");
}
