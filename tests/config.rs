use dir::config::{
    color_by_name, filemode_by_name, filetype_by_name, load_config_data, load_config_extension,
    load_config_filemode, load_config_filetype, ConfigErrorKind, ConfigValue,
};
use dir::settings::{SortKey, FM_EXEC, FT_DIR, FT_SYMLINK};

fn text(s: &str) -> ConfigValue {
    ConfigValue::Text(s.to_string())
}

fn table(pairs: Vec<(&str, ConfigValue)>) -> ConfigValue {
    ConfigValue::Table(pairs.into_iter().map(|(k, v)| (k.to_string(), v)).collect())
}

fn kinds(errors: &[dir::config::ConfigError]) -> Vec<(ConfigErrorKind, String)> {
    errors.iter().map(|e| (e.kind, e.subject.clone())).collect()
}

#[test]
fn color_names() {
    assert_eq!(color_by_name("normal"), Some(0));
    assert_eq!(color_by_name("reverse"), Some(7));
    assert_eq!(color_by_name("red"), Some(31));
    assert_eq!(color_by_name("white"), Some(37));
    assert_eq!(color_by_name("bg black"), Some(40));
    assert_eq!(color_by_name("bg white"), Some(47));
    assert_eq!(color_by_name("Red"), None);
    assert_eq!(color_by_name("purple"), None);
}

#[test]
fn type_and_mode_names() {
    assert_eq!(filetype_by_name("directory"), Some(FT_DIR));
    assert_eq!(filetype_by_name("symlink"), Some(FT_SYMLINK));
    assert_eq!(filetype_by_name("dir"), None);
    assert_eq!(filemode_by_name("exec"), Some(FM_EXEC));
    assert_eq!(filemode_by_name("sticky"), Some(3));
    assert_eq!(filemode_by_name("setuid"), None);
}

#[test]
fn empty_document_gives_defaults() {
    let settings = load_config_data(&table(vec![])).ok().unwrap();
    assert!(settings.color && settings.bold && settings.classify && settings.long);
    assert!(!settings.all && !settings.one && !settings.sort_reverse);
    assert_eq!(settings.sort_key, SortKey::Name);
    assert!(settings.color_by_extension.is_empty());
    assert_eq!(settings.color_by_filetype, [0; 7]);
    assert_eq!(settings.color_by_mode, [0; 4]);
    assert!(load_config_data(&ConfigValue::Other).is_ok());
}

#[test]
fn document_sets_flags_and_tables() {
    let doc = table(vec![
        ("color", ConfigValue::Bool(false)),
        ("bold", ConfigValue::Bool(false)),
        ("extension", table(vec![("TXT", text("Cyan")), ("rs", text("bg red"))])),
        ("filetype", table(vec![("Directory", text("blue"))])),
        ("mode", table(vec![("exec", text("green"))])),
    ]);
    let settings = load_config_data(&doc).ok().unwrap();
    assert!(!settings.color);
    assert!(!settings.bold);
    assert!(settings.classify);
    assert_eq!(
        settings.color_by_extension,
        vec![("txt".to_string(), 36), ("rs".to_string(), 41)]
    );
    assert_eq!(settings.color_by_filetype, [0, 34, 0, 0, 0, 0, 0]);
    assert_eq!(settings.color_by_mode, [32, 0, 0, 0]);
}

#[test]
fn later_extension_entry_wins() {
    let (map, errors) =
        load_config_extension(&table(vec![("TXT", text("red")), ("txt", text("green"))]));
    assert!(errors.is_empty());
    assert_eq!(map, vec![("txt".to_string(), 32)]);
}

#[test]
fn every_error_is_reported_in_order() {
    let doc = table(vec![
        ("color", text("yes")),
        ("classify", ConfigValue::Other),
        ("extension", table(vec![("a", text("purple")), ("b", ConfigValue::Bool(true))])),
        ("filetype", table(vec![("pipe", text("red")), ("file", ConfigValue::Other)])),
        ("mode", text("red")),
    ]);
    let errors = load_config_data(&doc).err().unwrap();
    assert_eq!(
        kinds(&errors),
        vec![
            (ConfigErrorKind::NotBoolean, "color".to_string()),
            (ConfigErrorKind::NotBoolean, "classify".to_string()),
            (ConfigErrorKind::InvalidColorName, "purple".to_string()),
            (ConfigErrorKind::InvalidColorString, "extension".to_string()),
            (ConfigErrorKind::InvalidName, "pipe".to_string()),
            (ConfigErrorKind::InvalidColorString, "filetype".to_string()),
            (ConfigErrorKind::NotMap, "mode".to_string()),
        ]
    );
}

#[test]
fn sections_that_are_not_tables() {
    let (map, errors) = load_config_extension(&text("x"));
    assert!(map.is_empty());
    assert_eq!(kinds(&errors), vec![(ConfigErrorKind::NotMap, "extension".to_string())]);
    let (t, errors) = load_config_filetype(&ConfigValue::Bool(true));
    assert_eq!(t, [0; 7]);
    assert_eq!(kinds(&errors), vec![(ConfigErrorKind::NotMap, "filetype".to_string())]);
    let (m, errors) = load_config_filemode(&table(vec![("SUID", text("RED")), ("x", text("red"))]));
    assert_eq!(m, [0, 31, 0, 0]);
    assert_eq!(kinds(&errors), vec![(ConfigErrorKind::InvalidName, "x".to_string())]);
}
