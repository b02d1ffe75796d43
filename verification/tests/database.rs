use seaserpent::database::config::DatabaseConfig;
use seaserpent::database::find::{
    find_database_dir, path_relative_to_db_root, FindStep, DATABASE_DIR,
};
use seaserpent::database::storage::{DatabaseStorage, SearchResult};
use seaserpent::database::{Database, DatabaseError};
use seaserpent::search::parse;

fn database(config: DatabaseConfig) -> Database {
    Database::load(
        "/data/.sea-serpent".to_string(),
        config,
        DatabaseStorage::new(),
    )
}

fn plain() -> Database {
    database(DatabaseConfig::default())
}

fn tag(s: &str) -> String {
    s.to_string()
}

fn pair(key: &str, value: &str) -> (String, String) {
    (key.to_string(), value.to_string())
}

fn paths(files: &Vec<SearchResult>) -> Vec<String> {
    files.iter().map(|f| f.path.clone()).collect()
}

fn tags_of(db: &Database, relative: &str) -> Vec<String> {
    db.storage().get_file_from_path(relative).unwrap().tags
}

#[test]
fn database_dir_name() {
    assert_eq!(DATABASE_DIR, ".sea-serpent");
}

#[test]
fn root_is_the_parent_of_the_database_dir() {
    assert_eq!(plain().root_dir().unwrap(), "/data");
    let rootless = Database::load(
        "/".to_string(),
        DatabaseConfig::default(),
        DatabaseStorage::new(),
    );
    assert!(matches!(
        rootless.root_dir(),
        Err(DatabaseError::RootDirNotFound)
    ));
    assert!(matches!(
        rootless.get_absolute_path("a"),
        Err(DatabaseError::RootDirNotFound)
    ));
    assert!(matches!(
        rootless.get_relative_path("/a"),
        Err(DatabaseError::RootDirNotFound)
    ));
}

#[test]
fn absolute_path_joins_onto_the_root() {
    let db = plain();
    assert_eq!(
        db.get_absolute_path("photos/a.jpg").unwrap(),
        "/data/photos/a.jpg"
    );
    assert_eq!(db.get_absolute_path("a").unwrap(), "/data/a");
}

#[test]
fn relative_path_strips_the_root() {
    let db = plain();
    assert_eq!(
        db.get_relative_path("/data/photos/a.jpg").unwrap(),
        "photos/a.jpg"
    );
    match db.get_relative_path("/database/a.jpg") {
        Err(DatabaseError::FileNotFound(path)) => assert_eq!(path, "/database/a.jpg"),
        _ => panic!("Should be FileNotFound"),
    }
    match db.get_relative_path("photos/a.jpg") {
        Err(DatabaseError::FileNotFound(path)) => assert_eq!(path, "photos/a.jpg"),
        _ => panic!("Should be FileNotFound"),
    }
}

#[test]
fn path_relative_to_db_root_goes_by_whole_names() {
    assert_eq!(path_relative_to_db_root("/a/b/c", "/a").unwrap(), "b/c");
    assert_eq!(path_relative_to_db_root("/a/b/c", "/a/b/").unwrap(), "c");
    assert_eq!(path_relative_to_db_root("/a", "/a").unwrap(), "");
    match path_relative_to_db_root("/ab/c", "/a") {
        Err(DatabaseError::FileNotFound(path)) => assert_eq!(path, "/ab/c"),
        _ => panic!("Should be FileNotFound"),
    }
}

#[test]
fn find_database_dir_step_by_step() {
    match find_database_dir("/data/photos", true) {
        FindStep::Found(path) => assert_eq!(path, "/data/photos/.sea-serpent"),
        _ => panic!("Should be found"),
    }
    match find_database_dir("/data/photos", false) {
        FindStep::Continue(path) => assert_eq!(path, "/data"),
        _ => panic!("Should go on"),
    }
    match find_database_dir("/data", false) {
        FindStep::Continue(path) => assert_eq!(path, "/"),
        _ => panic!("Should go on"),
    }
    assert!(matches!(
        find_database_dir("/", false),
        FindStep::NotFound
    ));
    match find_database_dir("/", true) {
        FindStep::Found(path) => assert_eq!(path, "/.sea-serpent"),
        _ => panic!("Should be found"),
    }
}

#[test]
fn add_tag_then_file_info_has_the_tag() {
    let mut db = plain();
    db.add_tag("/data/a.txt", &tag("x")).unwrap();
    let info = db.get_file_info("/data/a.txt").unwrap();
    assert_eq!(info.path, "a.txt");
    assert_eq!(info.tags, vec![tag("x")]);
    assert!(info.attributes.is_empty());
}

#[test]
fn add_tag_twice_is_idempotent() {
    let mut db = plain();
    db.add_tag("/data/a.txt", &tag("x")).unwrap();
    db.add_tag("/data/a.txt", &tag("x")).unwrap();
    db.add_tag("/data/a.txt", &tag("k:v")).unwrap();
    db.add_tag("/data/a.txt", &tag("k:v")).unwrap();
    let info = db.get_file_info("/data/a.txt").unwrap();
    assert_eq!(info.tags, vec![tag("x")]);
    assert_eq!(info.attributes, vec![pair("k", "v")]);
    assert_eq!(db.storage().get_all_files().len(), 1);
}

#[test]
fn add_tag_with_colon_writes_an_attribute() {
    let mut db = plain();
    db.add_tag("/data/a.txt", &tag("size:10")).unwrap();
    db.add_tag("/data/a.txt", &tag("url:http://x")).unwrap();
    let info = db.get_file_info("/data/a.txt").unwrap();
    assert!(info.tags.is_empty());
    assert_eq!(
        info.attributes,
        vec![pair("size", "10"), pair("url", "http://x")]
    );
}

#[test]
fn add_tag_outside_the_root_fails_and_changes_nothing() {
    let mut db = plain();
    match db.add_tag("/elsewhere/a.txt", &tag("x")) {
        Err(DatabaseError::FileNotFound(path)) => assert_eq!(path, "/elsewhere/a.txt"),
        _ => panic!("Should be FileNotFound"),
    }
    assert!(db.storage().get_all_files().is_empty());
    match db.remove_tag("/elsewhere/a.txt", &tag("x")) {
        Err(DatabaseError::FileNotFound(path)) => assert_eq!(path, "/elsewhere/a.txt"),
        _ => panic!("Should be FileNotFound"),
    }
}

#[test]
fn remove_tag_then_file_info_lacks_the_tag() {
    let mut db = plain();
    db.add_tag("/data/a.txt", &tag("x")).unwrap();
    db.add_tag("/data/a.txt", &tag("y")).unwrap();
    db.add_tag("/data/a.txt", &tag("k:v")).unwrap();
    db.remove_tag("/data/a.txt", &tag("x")).unwrap();
    db.remove_tag("/data/a.txt", &tag("k:v")).unwrap();
    let info = db.get_file_info("/data/a.txt").unwrap();
    assert_eq!(info.tags, vec![tag("y")]);
    assert!(info.attributes.is_empty());
    db.remove_tag("/data/a.txt", &tag("never")).unwrap();
    db.remove_tag("/data/unknown.txt", &tag("x")).unwrap();
    assert_eq!(db.storage().get_all_files().len(), 1);
}

fn aliased() -> DatabaseConfig {
    DatabaseConfig {
        aliases: vec![("a".to_string(), vec![tag("x"), tag("y")])],
        ..Default::default()
    }
}

#[test]
fn alias_is_written_as_its_tags() {
    let mut db = database(aliased());
    db.add_tag("/data/p", &tag("a")).unwrap();
    let tags = tags_of(&db, "p");
    assert!(tags.contains(&tag("x")));
    assert!(tags.contains(&tag("y")));
    assert!(!tags.contains(&tag("a")));
    assert_eq!(tags, vec![tag("x"), tag("y")]);
}

#[test]
fn alias_is_removed_as_its_tags() {
    let mut db = database(aliased());
    db.add_tag_at("p", &tag("x"));
    db.add_tag_at("p", &tag("y"));
    db.add_tag_at("p", &tag("z"));
    db.remove_tag("/data/p", &tag("a")).unwrap();
    assert_eq!(tags_of(&db, "p"), vec![tag("z")]);
}

#[test]
fn alias_tags_pass_through_the_policy() {
    let mut config = aliased();
    config.blacklist = Some(vec![tag("y")]);
    let mut db = database(config);
    db.add_tag_at("p", &tag("a"));
    assert_eq!(tags_of(&db, "p"), vec![tag("x")]);
}

#[test]
fn alias_may_hold_attributes() {
    let config = DatabaseConfig {
        aliases: vec![("a".to_string(), vec![tag("x"), tag("k:v")])],
        ..Default::default()
    };
    let mut db = database(config);
    db.add_tag_at("p", &tag("a"));
    let file = db.storage().get_file_from_path("p").unwrap();
    assert_eq!(file.tags, vec![tag("x")]);
    assert_eq!(file.attributes, vec![pair("k", "v")]);
}

#[test]
fn whitelist_rejects_what_is_not_listed() {
    let config = DatabaseConfig {
        whitelist: Some(vec![tag("x")]),
        ..Default::default()
    };
    let mut db = database(config);
    db.add_tag("/data/p", &tag("y")).unwrap();
    assert!(db.storage().get_all_files().is_empty());
    db.add_tag("/data/p", &tag("x")).unwrap();
    db.add_tag("/data/p", &tag("y")).unwrap();
    assert_eq!(tags_of(&db, "p"), vec![tag("x")]);
}

#[test]
fn blacklist_rejects_what_is_listed() {
    let config = DatabaseConfig {
        blacklist: Some(vec![tag("y")]),
        ..Default::default()
    };
    let mut db = database(config);
    db.add_tag("/data/p", &tag("y")).unwrap();
    assert!(db.storage().get_all_files().is_empty());
    db.add_tag("/data/p", &tag("x")).unwrap();
    assert_eq!(tags_of(&db, "p"), vec![tag("x")]);
}

#[test]
fn policy_does_not_hinder_removal() {
    let mut storage = DatabaseStorage::new();
    storage.add_tag("p", &tag("y"));
    let config = DatabaseConfig {
        blacklist: Some(vec![tag("y")]),
        ..Default::default()
    };
    let mut db = Database::load("/data/.sea-serpent".to_string(), config, storage);
    db.remove_tag("/data/p", &tag("y")).unwrap();
    assert!(tags_of(&db, "p").is_empty());
}

#[test]
fn cleanup_removes_missing_files() {
    let mut db = plain();
    db.add_tag_at("gone", &tag("t"));
    db.add_tag_at("here", &tag("t"));
    db.add_tag_at("also gone", &tag("k:v"));
    db.cleanup(&vec![tag("gone"), tag("also gone")]);
    assert_eq!(paths(&db.storage().get_all_files()), vec![tag("here")]);
    assert_eq!(tags_of(&db, "here"), vec![tag("t")]);
}

#[test]
fn cleanup_removes_tags_that_are_no_longer_allowed() {
    let mut storage = DatabaseStorage::new();
    storage.add_tag("one", &tag("y"));
    storage.add_tag("two", &tag("x"));
    storage.add_tag("two", &tag("y"));
    storage.add_tag("two", &tag("z"));
    storage.add_attribute("two", tag("y"), tag("v"));
    let config = DatabaseConfig {
        whitelist: Some(vec![tag("x"), tag("z")]),
        ..Default::default()
    };
    let mut db = Database::load("/data/.sea-serpent".to_string(), config, storage);
    db.cleanup(&Vec::new());
    assert_eq!(
        paths(&db.storage().get_all_files()),
        vec![tag("one"), tag("two")]
    );
    assert!(tags_of(&db, "one").is_empty());
    let two = db.storage().get_file_from_path("two").unwrap();
    assert_eq!(two.tags, vec![tag("x"), tag("z")]);
    assert_eq!(two.attributes, vec![pair("y", "v")]);
}

#[test]
fn cleanup_with_nothing_to_do_changes_nothing() {
    let mut db = plain();
    db.add_tag_at("a", &tag("t"));
    db.add_tag_at("b", &tag("u"));
    db.cleanup(&Vec::new());
    assert_eq!(paths(&db.storage().get_all_files()), vec![tag("a"), tag("b")]);
    assert_eq!(tags_of(&db, "a"), vec![tag("t")]);
    assert_eq!(tags_of(&db, "b"), vec![tag("u")]);
}

#[test]
fn search_is_ordered_by_path() {
    let mut db = plain();
    for path in ["c", "a", "b/x", "b", "B", "a-b", "a/b"] {
        db.add_tag_at(path, &tag("t"));
    }
    db.add_tag_at("zz", &tag("other"));
    assert_eq!(
        paths(&db.search(parse("t").unwrap())),
        vec![
            tag("B"),
            tag("a"),
            tag("a-b"),
            tag("a/b"),
            tag("b"),
            tag("b/x"),
            tag("c")
        ]
    );
    assert!(db.search(parse("none").unwrap()).is_empty());
    assert_eq!(db.search(parse("").unwrap()).len(), 8);
}

#[test]
fn move_file_renames_in_the_index() {
    let mut db = plain();
    db.add_tag("/data/a", &tag("t")).unwrap();
    db.add_tag("/data/a", &tag("k:v")).unwrap();
    db.move_file("/data/a", "/data/sub/b").unwrap();
    match db.get_file_info("/data/a") {
        Err(DatabaseError::FileNotFound(path)) => assert_eq!(path, "/data/a"),
        _ => panic!("Should be FileNotFound"),
    }
    let info = db.get_file_info("/data/sub/b").unwrap();
    assert_eq!(info.path, "sub/b");
    assert_eq!(info.tags, vec![tag("t")]);
    assert_eq!(info.attributes, vec![pair("k", "v")]);
}

#[test]
fn move_file_fails_where_it_must() {
    let mut db = plain();
    db.add_tag("/data/a", &tag("t")).unwrap();
    match db.move_file("/other/a", "/data/b") {
        Err(DatabaseError::FileNotFound(path)) => assert_eq!(path, "/other/a"),
        _ => panic!("Should be FileNotFound"),
    }
    match db.move_file("/data/a", "/other/b") {
        Err(DatabaseError::FileNotFound(path)) => assert_eq!(path, "/other/b"),
        _ => panic!("Should be FileNotFound"),
    }
    match db.move_file("/data/unknown", "/data/b") {
        Err(DatabaseError::FileNotFound(path)) => assert_eq!(path, "unknown"),
        _ => panic!("Should be FileNotFound"),
    }
    match db.move_file_at("unknown", tag("b")) {
        Err(DatabaseError::FileNotFound(path)) => assert_eq!(path, "unknown"),
        _ => panic!("Should be FileNotFound"),
    }
    assert_eq!(paths(&db.storage().get_all_files()), vec![tag("a")]);
}

#[test]
fn file_info_of_an_unknown_file_names_the_file_as_given() {
    let db = plain();
    match db.get_file_info("/data/unknown") {
        Err(DatabaseError::FileNotFound(path)) => assert_eq!(path, "/data/unknown"),
        _ => panic!("Should be FileNotFound"),
    }
}

#[test]
fn load_keeps_config_and_storage() {
    let mut storage = DatabaseStorage::new();
    storage.add_tag("p", &tag("t"));
    let db = Database::load("/data/.sea-serpent".to_string(), aliased(), storage);
    assert_eq!(db.config().aliases.len(), 1);
    assert_eq!(paths(&db.storage().get_all_files()), vec![tag("p")]);
}

#[test]
fn error_messages() {
    assert_eq!(
        DatabaseError::CurrentDirNotFound.to_string(),
        "Can't retrieve current directory"
    );
    assert_eq!(
        DatabaseError::DatabaseNotFound.to_string(),
        "Could not find any database from current directory"
    );
    assert_eq!(
        DatabaseError::ReadFromDisk(tag("/x")).to_string(),
        "Can't read /x from disk"
    );
    assert_eq!(
        DatabaseError::WriteToDisk(tag("/x")).to_string(),
        "Can't write to file: /x"
    );
    assert_eq!(
        DatabaseError::DatabaseNotFormattedCorrect.to_string(),
        "Database is not formatted correctly"
    );
    assert_eq!(
        DatabaseError::RootDirNotFound.to_string(),
        "Can't find root directory of database"
    );
    assert_eq!(
        DatabaseError::FileNotFound(tag("/x")).to_string(),
        "Can't find file /x"
    );
    assert_eq!(
        DatabaseError::InvalidRootDir.to_string(),
        "Invalid database dir"
    );
    assert_eq!(
        DatabaseError::DBSetup.to_string(),
        "Failed to setup database"
    );
}
