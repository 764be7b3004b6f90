use simple_i18n::{
    field_of_file, file_extension, file_stem, find_locale, find_step, format_of, is_absolute,
    join_field, parent_dir, unescape, workspace_root_of, FindStep, Format, Probe,
};

#[test]
fn stems_and_extensions() {
    assert_eq!(file_stem("en-us.json"), "en-us");
    assert_eq!(file_stem(".common.toml"), ".common");
    assert_eq!(file_stem(".hidden"), ".hidden");
    assert_eq!(file_stem("a.b.yaml"), "a.b");
    assert_eq!(file_stem("plain"), "plain");
    assert_eq!(file_extension("a.b.yaml"), Some("yaml".to_string()));
    assert_eq!(file_extension(".hidden"), None);
    assert_eq!(file_extension("plain"), None);
    assert_eq!(file_extension("trailing."), Some("".to_string()));
}

#[test]
fn formats_by_extension() {
    assert_eq!(format_of("x.toml"), Some(Format::Toml));
    assert_eq!(format_of("x.json"), Some(Format::Json));
    assert_eq!(format_of("x.yml"), Some(Format::Yaml));
    assert_eq!(format_of("x.yaml"), Some(Format::Yaml));
    assert_eq!(format_of("README.md"), None);
    assert_eq!(format_of("LICENSE"), None);
    assert_eq!(format_of(".json"), None);
}

#[test]
fn file_fields_drop_ignore_marker() {
    assert_eq!(field_of_file("casual.json"), "casual");
    assert_eq!(field_of_file(".common.toml"), "");
    assert_eq!(field_of_file(".toml"), "");
}

#[test]
fn join_field_with_and_without_prefix() {
    assert_eq!(join_field("", "a"), "a");
    assert_eq!(join_field("a.b", "c"), "a.b.c");
}

#[test]
fn locale_paths_join_onto_workspace_root() {
    assert_eq!(find_locale("/work/space", "locale"), "/work/space/locale");
    assert_eq!(find_locale("/work/space/", "locale"), "/work/space/locale");
    assert_eq!(find_locale("/work/space", "/abs/locale"), "/abs/locale");
    assert_eq!(find_locale("", "locale"), "locale");
    assert!(is_absolute("/a"));
    assert!(!is_absolute("a/b"));
    assert!(!is_absolute(""));
}

#[test]
fn workspace_root_from_metadata() {
    let json = r#"{"packages":[],"workspace_root":"/home/u/proj","metadata":null}"#;
    assert_eq!(workspace_root_of(json), Some("/home/u/proj".to_string()));
    let win = r#"{"workspace_root":"C:\\proj\\x"}"#;
    assert_eq!(workspace_root_of(win), Some("C:\\proj\\x".to_string()));
    assert_eq!(workspace_root_of(r#"{"target_directory":"/t"}"#), None);
    assert_eq!(workspace_root_of(r#"{"workspace_root":"#), None);
    assert_eq!(workspace_root_of(r#"{"workspace_root":"unterminated"#), None);
}

#[test]
fn unescape_halves_backslash_pairs() {
    assert_eq!(unescape("a\\\\b"), "a\\b");
    assert_eq!(unescape("\\\\\\"), "\\\\");
    assert_eq!(unescape("plain"), "plain");
    assert_eq!(unescape(""), "");
}

#[test]
fn parents_of_paths() {
    assert_eq!(parent_dir("/a/b"), Some("/a".to_string()));
    assert_eq!(parent_dir("/a"), Some("/".to_string()));
    assert_eq!(parent_dir("/"), None);
    assert_eq!(parent_dir(""), None);
    assert_eq!(parent_dir("a"), Some("".to_string()));
    assert_eq!(parent_dir("a/b/"), Some("a".to_string()));
    assert_eq!(parent_dir("a//b"), Some("a".to_string()));
    assert_eq!(parent_dir("//a"), Some("/".to_string()));
}

#[test]
fn find_steps_walk_up_to_the_root() {
    match find_step("/w/out", "locale", Probe::Directory) {
        FindStep::Found(p) => assert_eq!(p, "/w/out/locale"),
        _ => panic!("expected Found"),
    }
    match find_step("/w/out", "locale", Probe::Missing) {
        FindStep::TryParent(p) => assert_eq!(p, "/w"),
        _ => panic!("expected TryParent"),
    }
    match find_step("/w", "locale", Probe::NotDirectory) {
        FindStep::TryParent(p) => assert_eq!(p, "/"),
        _ => panic!("expected TryParent"),
    }
    assert!(matches!(find_step("/", "locale", Probe::Missing), FindStep::NotFound));
    assert!(matches!(find_step("/w", "locale", Probe::Failed), FindStep::Failed));
}
