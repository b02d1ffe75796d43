use seaserpent::database::storage::{match_search_query, SearchResult};
use seaserpent::search::parser::{BinaryOp, Expression, ParseError, UnaryOp};
use seaserpent::search::{parse, SearchError};

fn file(tags: &[&str], attributes: &[(&str, &str)]) -> SearchResult {
    SearchResult {
        path: "F".to_string(),
        tags: tags.iter().map(|t| t.to_string()).collect(),
        attributes: attributes
            .iter()
            .map(|(k, v)| (k.to_string(), v.to_string()))
            .collect(),
    }
}

fn matches_query(file: &SearchResult, query: &str) -> bool {
    match_search_query(file, &parse(query).unwrap())
}

#[test]
fn query_evaluation_on_tags() {
    let f = file(&["a", "b"], &[]);
    assert!(matches_query(&f, "a"));
    assert!(!matches_query(&f, "c"));
    assert!(matches_query(&f, "a b"));
    assert!(matches_query(&f, "c or a"));
    assert!(matches_query(&f, "not c"));
    assert!(!matches_query(&f, "not a"));
}

#[test]
fn query_evaluation_on_attributes() {
    let f = file(&[], &[("size", "10")]);
    assert!(matches_query(&f, "size:10"));
    assert!(!matches_query(&f, "size:20"));
    assert!(matches_query(&f, "size:"));
    assert!(matches_query(&f, ":10"));
    assert!(!matches_query(&f, "colour:"));
    assert!(!matches_query(&f, ":20"));
    assert!(!matches_query(&f, "10:size"));
}

#[test]
fn parse_groups_to_the_right() {
    let expected = Expression::BinaryOp {
        left: Box::new(Expression::tag("A")),
        right: Box::new(Expression::BinaryOp {
            left: Box::new(Expression::tag("B")),
            right: Box::new(Expression::tag("C")),
            op_type: BinaryOp::Or,
        }),
        op_type: BinaryOp::And,
    };
    assert_eq!(parse("A B or C").unwrap(), expected);
    let left_leaning = Expression::BinaryOp {
        left: Box::new(Expression::BinaryOp {
            left: Box::new(Expression::tag("A")),
            right: Box::new(Expression::tag("B")),
            op_type: BinaryOp::And,
        }),
        right: Box::new(Expression::tag("C")),
        op_type: BinaryOp::Or,
    };
    assert_ne!(parse("A B or C").unwrap(), left_leaning);
}

#[test]
fn grouping_decides_what_matches() {
    let only_c = file(&["C"], &[]);
    let a_and_c = file(&["A", "C"], &[]);
    assert!(!matches_query(&only_c, "A B or C"));
    assert!(matches_query(&a_and_c, "A B or C"));
    assert!(matches_query(&only_c, "(A B) or C"));
}

#[test]
fn empty_query_matches_every_file() {
    assert_eq!(parse("").unwrap(), Expression::Empty);
    assert!(matches_query(&file(&[], &[]), ""));
    assert!(matches_query(&file(&["a"], &[("k", "v")]), "  "));
}

#[test]
fn tags_match_exactly_and_with_case() {
    let f = file(&["Photo"], &[]);
    assert!(matches_query(&f, "Photo"));
    assert!(!matches_query(&f, "photo"));
    assert!(!matches_query(&f, "Phot"));
}

#[test]
fn tag_query_does_not_see_attributes() {
    let f = file(&[], &[("size", "10")]);
    assert!(!matches_query(&f, "size"));
    assert!(!matches_query(&f, "10"));
}

#[test]
fn several_values_under_one_key() {
    let f = file(&[], &[("size", "10"), ("size", "20"), ("kind", "10")]);
    assert!(matches_query(&f, "size:10 size:20"));
    assert!(!matches_query(&f, "size:30"));
    assert!(matches_query(&f, "kind:10"));
    assert!(!matches_query(&f, "kind:20"));
}

#[test]
fn has_attribute_with_wildcards() {
    let f = file(&[], &[("size", "10")]);
    let some = |s: &str| Some(s.to_string());
    assert!(f.has_attribute(&some("size"), &some("10")));
    assert!(!f.has_attribute(&some("size"), &some("11")));
    assert!(f.has_attribute(&some("size"), &None));
    assert!(!f.has_attribute(&some("siz"), &None));
    assert!(f.has_attribute(&None, &some("10")));
    assert!(!f.has_attribute(&None, &some("size")));
    assert!(f.has_attribute(&None, &None));
    assert!(file(&[], &[]).has_attribute(&None, &None));
    assert!(f.has_key("size"));
    assert!(!f.has_key("10"));
    assert!(f.has_value("10"));
    assert!(!f.has_value("size"));
}

#[test]
fn not_and_or_combine() {
    let f = file(&["a", "b"], &[("k", "v")]);
    assert!(matches_query(&f, "not (c or d)"));
    assert!(!matches_query(&f, "not (c or a)"));
    assert!(matches_query(&f, "not c a"));
    assert!(!matches_query(&f, "not a or c"));
    assert!(matches_query(&f, "not a or b"));
    assert!(matches_query(&f, "a, c"));
    assert!(matches_query(&f, "a and k:v and not k:w"));
}

#[test]
fn quoted_tag_with_spaces() {
    let f = file(&["two words"], &[("a key", "a:value")]);
    assert!(matches_query(&f, "\"two words\""));
    assert!(!matches_query(&f, "two words"));
    assert!(matches_query(&f, "\"a key\":\"a:value\""));
}

#[test]
fn parse_reports_syntax_errors() {
    assert_eq!(
        parse("not"),
        Err(SearchError::ParseError(ParseError::UnexpectedEndOfInput))
    );
    assert_eq!(
        parse("a or"),
        Err(SearchError::ParseError(ParseError::UnexpectedEndOfInput))
    );
    assert_eq!(
        parse("or a"),
        Err(SearchError::ParseError(ParseError::UnexpectedToken))
    );
    assert_eq!(
        parse(") a"),
        Err(SearchError::ParseError(ParseError::UnexpectedToken))
    );
    assert_eq!(
        parse(", a"),
        Err(SearchError::ParseError(ParseError::UnexpectedToken))
    );
}

#[test]
fn parse_not_scopes_tightly() {
    assert_eq!(
        parse("not A B").unwrap(),
        Expression::BinaryOp {
            left: Box::new(Expression::UnaryOp {
                expr: Box::new(Expression::tag("A")),
                op_type: UnaryOp::Not
            }),
            right: Box::new(Expression::tag("B")),
            op_type: BinaryOp::And,
        }
    );
}

#[test]
fn search_error_messages() {
    assert_eq!(
        SearchError::ParseError(ParseError::UnexpectedToken).to_string(),
        "Failed to parse tokens"
    );
}
