use playertwo::host::expand_placeholders;
use playertwo::ident::{id_from_text, username_from_captures, username_from_logs, IdError};
use playertwo::model::UniqueId;

#[test]
fn id_from_text_by_kind() {
    let re = UniqueId::FileRegex { file: "f".to_string(), regex: "\"id\":\\s*\"([^\"]+)\"".to_string() };
    assert!(matches!(id_from_text(&re, Some("{\"id\": \"abc\"}".to_string())), Ok(Some(ref s)) if s == "abc"));
    assert!(matches!(id_from_text(&re, None), Ok(None)));
    let bad = UniqueId::FileRegex { file: "f".to_string(), regex: "[".to_string() };
    assert!(matches!(id_from_text(&bad, Some("x".to_string())), Err(IdError::InvalidRegex)));
    let js = UniqueId::JsonField { file: "f".to_string(), pointer: "/user/0/name".to_string() };
    assert!(matches!(id_from_text(&js, Some("{\"user\":[{\"name\":\"n1\"}]}".to_string())), Ok(Some(ref s)) if s == "n1"));
    let reg = UniqueId::Registry { key: "k".to_string(), value: "v".to_string() };
    assert!(matches!(id_from_text(&reg, Some("anything".to_string())), Ok(None)));
}

#[test]
fn username_from_newest_log_with_a_name() {
    let logs = vec![
        "no names here".to_string(),
        "epicUserName: \"  Gamer  \"".to_string(),
        "AccountName=Later".to_string(),
    ];
    assert_eq!(username_from_logs(&logs), Some("Gamer".to_string()));
    assert_eq!(username_from_logs(&vec!["AccountName=Solo".to_string()]), Some("Solo".to_string()));
    assert_eq!(username_from_logs(&vec!["nothing".to_string()]), None);
}

#[test]
fn placeholders_expand_from_first_table_entry() {
    let table = vec![
        ("AppData".to_string(), "C:\\Users\\u\\AppData\\Roaming".to_string()),
        ("AppData".to_string(), "ignored".to_string()),
    ];
    assert_eq!(expand_placeholders("%AppData%\\x\\%Missing%\\50%", &table), "C:\\Users\\u\\AppData\\Roaming\\x\\%Missing%\\50%");
    assert_eq!(expand_placeholders("no vars", &table), "no vars");
    assert_eq!(expand_placeholders("%%", &table), "%%");
}

#[test]
fn username_from_pattern_results() {
    let caps = vec![Some(None), Some(Some("  ".to_string())), Some(Some(" Name ".to_string())), Some(Some("Later".to_string()))];
    assert_eq!(username_from_captures(&caps), Some("Name".to_string()));
    assert_eq!(username_from_captures(&vec![None, Some(Some("x".to_string()))]), None);
    assert_eq!(username_from_captures(&vec![]), None);
}
