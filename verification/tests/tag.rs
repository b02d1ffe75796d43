use seaserpent::database::tag::parse_attribute;
use seaserpent::database::Tag;

#[test]
fn parse_key_tag() {
    match Tag::new("tag_a") {
        Tag::Key(_) => (),
        _ => panic!("Should be key tag"),
    }
}

#[test]
fn parse_key_value_tag() {
    match Tag::new("key:value") {
        Tag::KeyValue { key, value } => {
            assert_eq!("key", key);
            assert_eq!("value", value);
        }
        _ => panic!("Should be key-value tag"),
    }
}

#[test]
fn key_tag_keeps_its_text() {
    match Tag::new("tag_a") {
        Tag::Key(key) => assert_eq!(key, "tag_a"),
        _ => panic!("Should be key tag"),
    }
}

#[test]
fn value_keeps_further_colons() {
    match Tag::new("a:b:c") {
        Tag::KeyValue { key, value } => {
            assert_eq!(key, "a");
            assert_eq!(value, "b:c");
        }
        _ => panic!("Should be key-value tag"),
    }
}

#[test]
fn empty_key_and_empty_value() {
    match Tag::new(":v") {
        Tag::KeyValue { key, value } => {
            assert_eq!(key, "");
            assert_eq!(value, "v");
        }
        _ => panic!("Should be key-value tag"),
    }
    match Tag::new("k:") {
        Tag::KeyValue { key, value } => {
            assert_eq!(key, "k");
            assert_eq!(value, "");
        }
        _ => panic!("Should be key-value tag"),
    }
    match Tag::new("") {
        Tag::Key(key) => assert_eq!(key, ""),
        _ => panic!("Should be key tag"),
    }
}

#[test]
fn parse_attribute_splits_at_the_first_colon() {
    assert_eq!(parse_attribute("plain"), None);
    assert_eq!(
        parse_attribute("size:10"),
        Some(("size".to_string(), "10".to_string()))
    );
    assert_eq!(
        parse_attribute("url:http://x"),
        Some(("url".to_string(), "http://x".to_string()))
    );
    assert_eq!(
        parse_attribute("gr\u{f6}\u{df}e:\u{fc}ber"),
        Some(("gr\u{f6}\u{df}e".to_string(), "\u{fc}ber".to_string()))
    );
}

#[test]
fn to_string_writes_the_tag_as_it_was_read() {
    assert_eq!(Tag::new("tag_a").to_string(), "tag_a");
    assert_eq!(Tag::new("key:value").to_string(), "key:value");
    assert_eq!(Tag::new("a:b:c").to_string(), "a:b:c");
    assert_eq!(Tag::new(":").to_string(), ":");
    assert_eq!(
        Tag::KeyValue {
            key: "k".to_string(),
            value: "v".to_string()
        }
        .to_string(),
        "k:v"
    );
}
