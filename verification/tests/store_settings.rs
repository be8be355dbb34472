use playertwo::model::Account;
use playertwo::settings::{epic_silent, set_platform_enabled, set_platform_silent, PlatformSettings, Settings};
use playertwo::store::{accounts_format, join, sanitize, AccountsFormat, RegistrySnapshot, Store, StoreError};

fn acct(id: &str, name: &str) -> Account {
    Account { id: id.to_string(), display_name: name.to_string(), note: None, image: None, last_used: None }
}

fn ids(v: &[Account]) -> Vec<String> {
    v.iter().map(|a| a.id.clone()).collect()
}

#[test]
fn store_layout_paths() {
    let s = Store::new("D:/data".to_string());
    assert_eq!(s.platform_dir("steam"), "D:/data/accounts/steam");
    assert_eq!(s.account_dir("epic", "a:b/c"), "D:/data/accounts/epic/a_b_c");
    assert_eq!(s.accounts_file("x"), "D:/data/accounts/x/accounts.json");
    assert_eq!(s.registry_file("x", "id"), "D:/data/accounts/x/id/registry.json");
    assert_eq!(s.last_used_file("x"), "D:/data/accounts/x/last_used.json");
    assert_eq!(s.lock_path(), "D:/data/.playertwo.lock");
    assert_eq!(join("a", "b"), "a/b");
}

#[test]
fn paths_join_like_path_join() {
    assert_eq!(join("", "b"), "b");
    assert_eq!(join("a/", "b"), "a/b");
    assert_eq!(join("C:\\data\\", "b"), "C:\\data\\b");
    let s = Store::new(String::new());
    assert_eq!(s.account_dir("epic", "id"), "accounts/epic/id");
    assert_eq!(s.lock_path(), ".playertwo.lock");
    let s = Store::new("D:/data/".to_string());
    assert_eq!(s.platform_dir("steam"), "D:/data/accounts/steam");
}

#[test]
fn sanitize_replaces_every_unsafe_character() {
    assert_eq!(sanitize("a\\b/c:d*e?f\"g<h>i|j"), "a_b_c_d_e_f_g_h_i_j");
    assert_eq!(sanitize("plain-id_1"), "plain-id_1");
}

#[test]
fn upsert_replaces_in_place_or_appends() {
    let mut v = vec![acct("a", "A"), acct("b", "B")];
    Store::upsert_account(&mut v, acct("b", "B2"));
    assert_eq!(ids(&v), vec!["a", "b"]);
    assert_eq!(v[1].display_name, "B2");
    Store::upsert_account(&mut v, acct("c", "C"));
    assert_eq!(ids(&v), vec!["a", "b", "c"]);
    // upserting the same account again changes nothing
    Store::upsert_account(&mut v, acct("c", "C"));
    assert_eq!(ids(&v), vec!["a", "b", "c"]);
    assert_eq!(v[2].display_name, "C");
}

#[test]
fn remove_drops_every_match_and_keeps_order() {
    let mut v = vec![acct("a", "A"), acct("b", "B"), acct("a", "A2"), acct("c", "C")];
    Store::remove_account(&mut v, "a");
    assert_eq!(ids(&v), vec!["b", "c"]);
    Store::remove_account(&mut v, "zzz");
    assert_eq!(ids(&v), vec!["b", "c"]);
}

#[test]
fn accounts_format_detection() {
    assert!(matches!(accounts_format("  [{\"id\":\"x\",\"display_name\":\"X\"}]"), Ok(AccountsFormat::Legacy)));
    assert!(matches!(accounts_format("{ \"version\": 1, \"accounts\": [] }"), Ok(AccountsFormat::Versioned)));
    assert!(matches!(accounts_format("{ not valid json"), Ok(AccountsFormat::Versioned)));
    assert!(matches!(accounts_format(" \n\t"), Err(StoreError::EmptyAccountsFile)));
    assert!(matches!(accounts_format(""), Err(StoreError::EmptyAccountsFile)));
}

#[test]
fn registry_snapshot_insert_and_get() {
    let mut s = RegistrySnapshot::new();
    assert_eq!(s.get("v"), None);
    s.insert("v".to_string(), "1".to_string());
    s.insert("w".to_string(), "2".to_string());
    s.insert("v".to_string(), "3".to_string());
    assert_eq!(s.get("v"), Some("3".to_string()));
    assert_eq!(s.get("w"), Some("2".to_string()));
    assert_eq!(s.entries.len(), 2);
}

#[test]
fn platform_enabled_follows_setting_then_detection() {
    let mut s = Settings::default();
    assert!(s.auto_start);
    assert!(!s.platform_enabled("steam", false));
    assert!(s.platform_enabled("steam", true));
    set_platform_enabled(&mut s, "steam", false);
    assert!(!s.platform_enabled("steam", true));
    set_platform_enabled(&mut s, "steam", true);
    assert!(s.platform_enabled("steam", false));
    assert!(s.platform_enabled("epic", true));
    assert_eq!(s.platforms.len(), 1);
}

#[test]
fn epic_silent_defaults_to_true() {
    let mut s = Settings::default();
    assert!(epic_silent(&s));
    set_platform_silent(&mut s, "epic", false);
    assert!(!epic_silent(&s));
    let p: Option<PlatformSettings> = s.platform("epic");
    assert!(matches!(p, Some(PlatformSettings { enabled: None, silent: Some(false) })));
    set_platform_enabled(&mut s, "epic", true);
    assert!(matches!(s.platform("epic"), Some(PlatformSettings { enabled: Some(true), silent: Some(false) })));
}
