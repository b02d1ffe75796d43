use seaserpent::database::sorting::{
    get_first_attribute, key_le_exec, sort_by_path, text_le_exec,
};
use seaserpent::database::storage::SearchResult;
use seaserpent::database::sort_by_attribute;

fn file(path: &str, attributes: &[(&str, &str)]) -> SearchResult {
    SearchResult {
        path: path.to_string(),
        tags: Vec::new(),
        attributes: attributes
            .iter()
            .map(|(k, v)| (k.to_string(), v.to_string()))
            .collect(),
    }
}

fn paths(files: &Vec<SearchResult>) -> Vec<&str> {
    files.iter().map(|f| f.path.as_str()).collect()
}

#[test]
fn text_order_is_the_order_of_str() {
    let words = [
        "", "a", "A", "ab", "b", "a/b", "a-b", "\u{e9}", "z", "\u{1f40d}", "aa", "10", "9",
    ];
    for a in words {
        for b in words {
            assert_eq!(text_le_exec(a, b), a <= b, "{:?} <= {:?}", a, b);
        }
    }
}

#[test]
fn text_order_examples() {
    assert!(text_le_exec("", ""));
    assert!(text_le_exec("", "a"));
    assert!(!text_le_exec("a", ""));
    assert!(text_le_exec("a", "ab"));
    assert!(!text_le_exec("ab", "a"));
    assert!(text_le_exec("10", "9"));
    assert!(text_le_exec("same", "same"));
}

#[test]
fn missing_key_comes_first() {
    let a = "a".to_string();
    let b = "b".to_string();
    assert!(key_le_exec(None, None));
    assert!(key_le_exec(None, Some(&a)));
    assert!(!key_le_exec(Some(&a), None));
    assert!(key_le_exec(Some(&a), Some(&b)));
    assert!(!key_le_exec(Some(&b), Some(&a)));
    assert!(key_le_exec(Some(&a), Some(&a)));
}

#[test]
fn first_attribute_is_the_first_with_that_key() {
    let f = file("p", &[("k", "2"), ("size", "10"), ("k", "1")]);
    assert_eq!(get_first_attribute(&f, "k"), Some(&"2".to_string()));
    assert_eq!(get_first_attribute(&f, "size"), Some(&"10".to_string()));
    assert_eq!(get_first_attribute(&f, "none"), None);
    assert_eq!(get_first_attribute(&file("q", &[]), "k"), None);
}

#[test]
fn sort_by_path_orders_paths() {
    let mut files = vec![
        file("c", &[]),
        file("a", &[]),
        file("b", &[]),
        file("", &[]),
        file("ab", &[]),
    ];
    sort_by_path(&mut files);
    assert_eq!(paths(&files), vec!["", "a", "ab", "b", "c"]);
}

#[test]
fn sort_of_nothing_and_of_one() {
    let mut files: Vec<SearchResult> = Vec::new();
    sort_by_path(&mut files);
    assert!(files.is_empty());
    let mut files = vec![file("a", &[])];
    sort_by_attribute(&mut files, "k");
    assert_eq!(paths(&files), vec!["a"]);
}

#[test]
fn sort_by_attribute_is_stable_and_puts_missing_first() {
    let mut files = vec![
        file("p1", &[("size", "20")]),
        file("p2", &[("size", "10")]),
        file("p3", &[]),
        file("p4", &[("size", "10"), ("size", "05")]),
        file("p5", &[("other", "00")]),
        file("p6", &[("size", "20")]),
        file("p7", &[("size", "9")]),
    ];
    sort_by_attribute(&mut files, "size");
    assert_eq!(paths(&files), vec!["p3", "p5", "p2", "p4", "p1", "p6", "p7"]);
}

#[test]
fn sort_keeps_the_files_whole() {
    let mut files = vec![
        SearchResult {
            path: "b".to_string(),
            tags: vec!["t".to_string()],
            attributes: vec![("k".to_string(), "v".to_string())],
        },
        file("a", &[]),
    ];
    sort_by_path(&mut files);
    assert_eq!(files[1].path, "b");
    assert_eq!(files[1].tags, vec!["t".to_string()]);
    assert_eq!(files[1].attributes, vec![("k".to_string(), "v".to_string())]);
}

#[test]
fn sort_agrees_with_a_stable_sort_of_the_keys() {
    let values = ["m", "b", "", "zz", "b", "a", "m", "aa", "b"];
    let mut files: Vec<SearchResult> = values
        .iter()
        .enumerate()
        .map(|(i, v)| file(&format!("{}", i), &[("k", v)]))
        .collect();
    let mut expected: Vec<(usize, &str)> = values.iter().copied().enumerate().collect();
    expected.sort_by(|a, b| a.1.cmp(b.1));
    sort_by_attribute(&mut files, "k");
    let got: Vec<String> = files.iter().map(|f| f.path.clone()).collect();
    let want: Vec<String> = expected.iter().map(|(i, _)| format!("{}", i)).collect();
    assert_eq!(got, want);
}
