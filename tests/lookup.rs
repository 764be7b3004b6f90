use simple_i18n::{
    flatten, load_locale, Catalog, FlatCatalog, Language, LocaleEntry, ValueTree,
    DEFAULT_LANGUAGE,
};

fn text(s: &str) -> ValueTree {
    ValueTree::Text(s.to_string())
}

fn table(entries: Vec<(&str, ValueTree)>) -> ValueTree {
    ValueTree::Table(entries.into_iter().map(|(k, v)| (k.to_string(), v)).collect())
}

fn file(name: &str, content: ValueTree) -> LocaleEntry {
    LocaleEntry::File { name: name.to_string(), content: Some(content) }
}

fn two_languages() -> Catalog {
    let root = vec![
        file("en-us.json", table(vec![("hello", text("Hi")), ("only_en", text("E"))])),
        file("zh-cn.json", table(vec![("hello", text("你好"))])),
    ];
    match load_locale(&root) {
        Ok(c) => c,
        Err(_) => panic!("load should succeed"),
    }
}

#[test]
fn switching_language_changes_lookup() {
    let c = two_languages();
    let lang = Language::new("en-us");
    assert_eq!(c.lookup_loose(lang.name(), "hello"), "Hi");
    let lang = Language::new("zh-cn");
    assert_eq!(c.lookup_loose(lang.name(), "hello"), "你好");
    assert_eq!(c.lookup_loose("en-us", "missing"), "missing");
    assert_eq!(c.lookup_loose("zh-cn", "missing"), "missing");
}

#[test]
fn loose_lookup_of_absent_language_returns_key() {
    let c = two_languages();
    assert_eq!(c.lookup_loose("fr", "hello"), "hello");
    assert_eq!(c.match_message("fr", "hello"), None);
}

#[test]
fn loose_lookup_of_field_missing_in_one_language() {
    let c = two_languages();
    assert_eq!(c.lookup_loose("en-us", "only_en"), "E");
    assert_eq!(c.lookup_loose("zh-cn", "only_en"), "only_en");
}

#[test]
fn strict_checks_language_and_coverage() {
    let c = two_languages();
    assert!(c.check_language("en-us"));
    assert!(c.check_language("zh-cn"));
    assert!(!c.check_language("fr"));
    assert!(c.check_field("hello"));
    assert!(!c.check_field("only_en"));
    assert!(!c.check_field("missing"));
    assert_eq!(c.lookup_strict("zh-cn", "hello"), "你好");
    assert_eq!(c.match_message("en-us", "hello"), Some("Hi".to_string()));
}

#[test]
fn every_field_of_an_empty_catalog_is_covered() {
    let c = Catalog::new();
    assert!(c.check_field("anything"));
    assert!(!c.check_language("en-us"));
}

#[test]
fn catalog_insert_overrides_language() {
    let mut c = Catalog::new();
    let mut a = FlatCatalog::new();
    a.insert("k".to_string(), "old".to_string());
    let mut b = FlatCatalog::new();
    b.insert("k".to_string(), "new".to_string());
    c.insert("en".to_string(), a);
    c.insert("en".to_string(), b);
    assert_eq!(c.lookup_loose("en", "k"), "new");
}

#[test]
fn flatten_joins_nested_names_with_dots() {
    let t = table(vec![(
        "words",
        table(vec![("greetings", table(vec![("hi", text("Hi!"))])), ("bye", text("Bye"))]),
    )]);
    let f = flatten("", &t);
    assert_eq!(f.get("words.greetings.hi"), Some(&"Hi!".to_string()));
    assert_eq!(f.get("words.bye"), Some(&"Bye".to_string()));
    assert_eq!(f.get("words"), None);
    assert_eq!(f.pair_count(), 2);
    let g = flatten("root", &t);
    assert_eq!(g.get("root.words.bye"), Some(&"Bye".to_string()));
}

#[test]
fn flatten_of_text_uses_prefix_as_key() {
    let f = flatten("a.b", &text("x"));
    assert_eq!(f.get("a.b"), Some(&"x".to_string()));
    assert_eq!(f.pair_count(), 1);
}

#[test]
fn flatten_of_empty_table_is_empty() {
    let f = flatten("", &table(vec![]));
    assert_eq!(f.pair_count(), 0);
    assert!(!f.contains_key(""));
}

#[test]
fn flat_catalog_keeps_insertion_order() {
    let mut f = FlatCatalog::new();
    f.insert("a".to_string(), "1".to_string());
    f.insert("b".to_string(), "2".to_string());
    f.insert("a".to_string(), "3".to_string());
    assert_eq!(f.get("a"), Some(&"3".to_string()));
    assert_eq!(f.pair(1), (&"b".to_string(), &"2".to_string()));
    assert!(f.contains_key("b"));
}

#[test]
fn language_default_and_name() {
    let d = Language::default();
    assert_eq!(d.name(), "en-us");
    assert_eq!(DEFAULT_LANGUAGE, "en-us");
    assert_eq!(Language::new("zh-cn").name(), "zh-cn");
}
