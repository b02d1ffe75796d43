use seaserpent::search::lexer::{get_word, lex, LexError, LexItem, Scanner};

fn test_get_word(s: &str, result: &str) {
    let mut it = Scanner::new(s);
    assert_eq!(&get_word(&mut it), result);
}

#[test]
fn lex_word() {
    assert_eq!(lex("word").unwrap(), vec![LexItem::word("word")])
}

#[test]
fn lex_paren() {
    assert_eq!(
        lex("word (word)").unwrap(),
        vec![
            LexItem::Word("word".to_string()),
            LexItem::StartParen,
            LexItem::Word("word".to_string()),
            LexItem::EndParen,
        ]
    )
}

#[test]
fn lex_or_explicit() {
    assert_eq!(
        lex("A or B").unwrap(),
        vec![LexItem::word("A"), LexItem::Or, LexItem::word("B")]
    )
}

#[test]
fn lex_or_with_comma() {
    assert_eq!(
        lex("A, B").unwrap(),
        vec![LexItem::word("A"), LexItem::Or, LexItem::word("B")]
    )
}

#[test]
fn get_word_simple() {
    test_get_word("tag something else", "tag")
}

#[test]
fn get_word_quoted() {
    test_get_word("\"tag something\" else", "tag something");
}

#[test]
fn lexer_attribute() {
    assert_eq!(
        lex("key:value").unwrap(),
        vec![
            LexItem::word("key"),
            LexItem::AttributeSeperator,
            LexItem::word("value")
        ]
    );
}

#[test]
fn lex_empty_input_has_no_tokens() {
    assert_eq!(lex("").unwrap(), Vec::<LexItem>::new());
    assert_eq!(lex("   ").unwrap(), Vec::<LexItem>::new());
}

#[test]
fn lex_not_is_an_operator() {
    assert_eq!(
        lex("not A").unwrap(),
        vec![LexItem::Not, LexItem::word("A")]
    );
}

#[test]
fn lex_and_is_dropped() {
    assert_eq!(
        lex("A and B").unwrap(),
        vec![LexItem::word("A"), LexItem::word("B")]
    );
}

#[test]
fn lex_operator_words_are_case_sensitive() {
    assert_eq!(
        lex("A OR Not AND").unwrap(),
        vec![
            LexItem::word("A"),
            LexItem::word("OR"),
            LexItem::word("Not"),
            LexItem::word("AND")
        ]
    );
}

#[test]
fn lex_quotes_keep_special_characters() {
    assert_eq!(
        lex("\"a b\":\"(c, d)\"").unwrap(),
        vec![
            LexItem::word("a b"),
            LexItem::AttributeSeperator,
            LexItem::word("(c, d)")
        ]
    );
}

#[test]
fn lex_quote_inside_a_word_joins_its_parts() {
    assert_eq!(lex("ab\"c d\"e f").unwrap(), vec![LexItem::word("abc de"), LexItem::word("f")]);
}

#[test]
fn lex_unterminated_quote_runs_to_the_end() {
    assert_eq!(lex("a \"b c) d").unwrap(), vec![LexItem::word("a"), LexItem::word("b c) d")]);
}

#[test]
fn lex_quoted_operator_word_is_still_an_operator() {
    assert_eq!(lex("\"or\"").unwrap(), vec![LexItem::Or]);
}

#[test]
fn lex_empty_quotes_make_an_empty_word() {
    assert_eq!(lex("\"\"").unwrap(), vec![LexItem::word("")]);
}

#[test]
fn lex_every_single_character_token() {
    assert_eq!(
        lex("(),:").unwrap(),
        vec![
            LexItem::StartParen,
            LexItem::EndParen,
            LexItem::Or,
            LexItem::AttributeSeperator
        ]
    );
}

#[test]
fn lex_keeps_characters_beyond_ascii() {
    assert_eq!(
        lex("caf\u{e9} \u{1f40d}").unwrap(),
        vec![LexItem::word("caf\u{e9}"), LexItem::word("\u{1f40d}")]
    );
}

#[test]
fn get_word_stops_at_each_special_character() {
    test_get_word("a(b", "a");
    test_get_word("a)b", "a");
    test_get_word("a,b", "a");
    test_get_word("a:b", "a");
    test_get_word("a b", "a");
    test_get_word("", "");
}

#[test]
fn get_word_leaves_the_rest_for_the_next_call() {
    let mut it = Scanner::new("one two");
    assert_eq!(get_word(&mut it), "one");
    assert_eq!(it.peek(), Some(' '));
    it.advance();
    assert_eq!(get_word(&mut it), "two");
    assert_eq!(it.peek(), None);
    it.advance();
    assert_eq!(it.peek(), None);
}

#[test]
fn lex_error_message() {
    assert_eq!(LexError::InvalidChar('x').to_string(), "Invalid char x");
}
