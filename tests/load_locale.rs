use simple_i18n::{load_locale, load_one_locale, Catalog, LoadError, LocaleEntry, ValueTree};

fn text(s: &str) -> ValueTree {
    ValueTree::Text(s.to_string())
}

fn table(entries: Vec<(&str, ValueTree)>) -> ValueTree {
    ValueTree::Table(entries.into_iter().map(|(k, v)| (k.to_string(), v)).collect())
}

fn file(name: &str, content: ValueTree) -> LocaleEntry {
    LocaleEntry::File { name: name.to_string(), content: Some(content) }
}

fn dir(name: &str, children: Vec<LocaleEntry>) -> LocaleEntry {
    LocaleEntry::Dir { name: name.to_string(), children }
}

fn load(entries: Vec<LocaleEntry>) -> Catalog {
    match load_locale(&entries) {
        Ok(c) => c,
        Err(LoadError::NotFileNorDir(name)) => panic!("unexpected entry {}", name),
    }
}

fn get(c: &Catalog, code: &str, field: &str) -> Option<String> {
    c.get(code).and_then(|f| f.get(field).cloned())
}

/// The example locale root: `zh-cn` as a directory, `en-us` as one file.
fn example_locale() -> Vec<LocaleEntry> {
    vec![
        dir(
            "zh-cn",
            vec![
                file(".common.toml", table(vec![("name", text("中文"))])),
                file("log.yml", table(vec![("level", text("日志等级"))])),
                dir("path1", vec![file("path2.json", table(vec![("path3", text("ppp"))]))]),
            ],
        ),
        file(
            "en-us.json",
            table(vec![
                ("name", text("English")),
                ("log", table(vec![("level", text("Log level"))])),
                ("path1", table(vec![("path2", table(vec![("path3", text("ppp"))]))])),
            ]),
        ),
    ]
}

#[test]
fn test_load_locale() {
    let map = load(example_locale());
    assert!(map.get("zh-cn").is_some());
    assert_eq!(get(&map, "zh-cn", "name"), Some("中文".to_owned()));
    assert_eq!(get(&map, "zh-cn", "log.level"), Some("日志等级".to_owned()));
    assert_eq!(get(&map, "zh-cn", "path1.path2.path3"), Some("ppp".to_owned()));
    assert!(map.get("en-us").is_some());
    assert_eq!(get(&map, "en-us", "name"), Some("English".to_owned()));
    assert_eq!(get(&map, "en-us", "log.level"), Some("Log level".to_owned()));
    assert_eq!(get(&map, "en-us", "path1.path2.path3"), Some("ppp".to_owned()));
}

#[test]
fn directory_nesting_builds_dotted_keys() {
    let root = vec![dir(
        "fr",
        vec![dir("greetings", vec![file("casual.json", table(vec![("hi", text("Salut"))]))])],
    )];
    let c = load(root);
    assert_eq!(get(&c, "fr", "greetings.casual.hi"), Some("Salut".to_owned()));
    assert_eq!(get(&c, "fr", "hi"), None);
}

#[test]
fn ignore_marker_file_adds_no_segment() {
    let root = vec![dir(
        "en",
        vec![file(".common.toml", table(vec![("ok", text("OK"))]))],
    )];
    let c = load(root);
    assert_eq!(get(&c, "en", "ok"), Some("OK".to_owned()));
    assert_eq!(get(&c, "en", "common.ok"), None);
    assert_eq!(get(&c, "en", ".common.ok"), None);
}

#[test]
fn top_level_ignore_marker_file_has_empty_code() {
    let c = load(vec![file(".shared.json", table(vec![("a", text("b"))]))]);
    assert_eq!(get(&c, "", "a"), Some("b".to_owned()));
    assert!(!c.check_language("shared"));
}

#[test]
fn unsupported_file_contributes_nothing() {
    let root = vec![dir(
        "en",
        vec![
            LocaleEntry::File { name: "README.md".to_string(), content: None },
            file("main.toml", table(vec![("x", text("y"))])),
        ],
    )];
    let c = load(root);
    assert_eq!(get(&c, "en", "main.x"), Some("y".to_owned()));
    assert_eq!(get(&c, "en", "README"), None);
}

#[test]
fn entry_neither_file_nor_dir_fails_the_load() {
    let root = vec![
        file("en.json", table(vec![("a", text("b"))])),
        dir("fr", vec![LocaleEntry::Other { name: "socket".to_string() }]),
    ];
    match load_locale(&root) {
        Err(LoadError::NotFileNorDir(name)) => assert_eq!(name, "socket"),
        Ok(_) => panic!("load should fail"),
    }
    match load_one_locale(&LocaleEntry::Other { name: "x".to_string() }) {
        Err(LoadError::NotFileNorDir(name)) => assert_eq!(name, "x"),
        Ok(_) => panic!("load should fail"),
    }
}

#[test]
fn load_one_locale_names_file_by_stem() {
    match load_one_locale(&file("de.yaml", table(vec![("k", text("v"))]))) {
        Ok((name, messages)) => {
            assert_eq!(name, "de");
            assert_eq!(messages.get("k"), Some(&"v".to_string()));
        }
        Err(_) => panic!("load should succeed"),
    }
}

#[test]
fn later_entry_overrides_earlier_key() {
    let root = vec![dir(
        "en",
        vec![
            file(".a.json", table(vec![("k", text("first"))])),
            file(".b.json", table(vec![("k", text("second"))])),
        ],
    )];
    let c = load(root);
    assert_eq!(get(&c, "en", "k"), Some("second".to_owned()));
}

#[test]
fn empty_root_gives_empty_catalog() {
    let c = load(vec![]);
    assert!(c.get("en-us").is_none());
    assert_eq!(c.lookup_loose("en-us", "hello"), "hello");
}
