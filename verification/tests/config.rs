use seaserpent::database::config::{get_database_config, tag_matches_list, DatabaseConfig};

#[test]
fn whitelist() {
    let config = DatabaseConfig {
        whitelist: Some(vec!["tag_a".to_string()]),
        ..Default::default()
    };
    assert!(config.tag_allowed(&"tag_a".to_string()));
    assert!(!config.tag_allowed(&"tag_b".to_string()));
}

#[test]
fn blacklist() {
    let config = DatabaseConfig {
        blacklist: Some(vec!["tag_b".to_string()]),
        ..Default::default()
    };
    assert!(config.tag_allowed(&"tag_a".to_string()));
    assert!(!config.tag_allowed(&"tag_b".to_string()));
}

#[test]
fn default_config_allows_everything() {
    let config = DatabaseConfig::default();
    assert!(config.whitelist.is_none());
    assert!(config.blacklist.is_none());
    assert!(config.aliases.is_empty());
    assert!(config.tag_allowed(&"anything".to_string()));
    assert!(config.tag_allowed(&"".to_string()));
}

#[test]
fn tag_must_pass_both_lists() {
    let config = DatabaseConfig {
        whitelist: Some(vec!["x".to_string(), "y".to_string()]),
        blacklist: Some(vec!["y".to_string(), "z".to_string()]),
        ..Default::default()
    };
    assert!(config.tag_allowed(&"x".to_string()));
    assert!(!config.tag_allowed(&"y".to_string()));
    assert!(!config.tag_allowed(&"z".to_string()));
    assert!(!config.tag_allowed(&"w".to_string()));
}

#[test]
fn empty_whitelist_allows_nothing() {
    let config = DatabaseConfig {
        whitelist: Some(Vec::new()),
        ..Default::default()
    };
    assert!(!config.tag_allowed(&"x".to_string()));
    let config = DatabaseConfig {
        blacklist: Some(Vec::new()),
        ..Default::default()
    };
    assert!(config.tag_allowed(&"x".to_string()));
}

#[test]
fn tag_matches_list_uses_the_default_without_a_list() {
    let tag = "x".to_string();
    assert!(tag_matches_list(&tag, &None, true));
    assert!(!tag_matches_list(&tag, &None, false));
    assert!(tag_matches_list(&tag, &Some(vec!["x".to_string()]), false));
    assert!(!tag_matches_list(&tag, &Some(vec!["y".to_string()]), true));
}

fn config_with_aliases() -> DatabaseConfig {
    DatabaseConfig {
        aliases: vec![
            ("a".to_string(), vec!["x".to_string(), "y".to_string()]),
            ("empty".to_string(), Vec::new()),
            ("a".to_string(), vec!["z".to_string()]),
        ],
        ..Default::default()
    }
}

#[test]
fn get_alias_gives_the_tags_of_the_alias() {
    let config = config_with_aliases();
    let x = "x".to_string();
    let y = "y".to_string();
    assert_eq!(config.get_alias(&"a".to_string()), Some(vec![&x, &y]));
    assert_eq!(config.get_alias(&"empty".to_string()), Some(Vec::new()));
    assert_eq!(config.get_alias(&"x".to_string()), None);
    assert_eq!(config.get_alias(&"A".to_string()), None);
}

#[test]
fn expand_replaces_an_alias_and_keeps_any_other_tag() {
    let config = config_with_aliases();
    let x = "x".to_string();
    let y = "y".to_string();
    let a = "a".to_string();
    assert_eq!(config.expand(&a), vec![&x, &y]);
    assert_eq!(config.expand(&x), vec![&x]);
    assert_eq!(config.expand(&"empty".to_string()), Vec::<&String>::new());
}

#[test]
fn get_database_config_falls_back_to_the_default() {
    let config = get_database_config(None);
    assert!(config.whitelist.is_none());
    assert!(config.blacklist.is_none());
    assert!(config.aliases.is_empty());
    let loaded = DatabaseConfig {
        whitelist: Some(vec!["x".to_string()]),
        blacklist: None,
        aliases: vec![("a".to_string(), vec!["x".to_string()])],
    };
    let config = get_database_config(Some(loaded));
    assert_eq!(config.whitelist, Some(vec!["x".to_string()]));
    assert_eq!(config.blacklist, None);
    assert_eq!(
        config.aliases,
        vec![("a".to_string(), vec!["x".to_string()])]
    );
}
