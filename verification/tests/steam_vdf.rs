use playertwo::steam::{current, current_from, list_accounts, loginusers_path, steam_path, switch, SteamError};
use playertwo::vdf::{parse, serialize, tokenize, Tok, UserBlock};

const LOGINUSERS: &str = "\"users\"\n{\n\t\"7656119800000001\"\n\t{\n\t\t\"AccountName\"\t\t\"alice\"\n\t\t\"PersonaName\"\t\t\"Alice A\"\n\t\t\"MostRecent\"\t\t\"1\"\n\t\t\"Timestamp\"\t\t\"123\"\n\t}\n\t\"7656119800000002\"\n\t{\n\t\t\"AccountName\"\t\t\"Bob\"\n\t\t\"PersonaName\"\t\t\"\"\n\t\t\"MostRecent\"\t\t\"0\"\n\t}\n}\n";

fn block(id: &str, kvs: &[(&str, &str)]) -> UserBlock {
    UserBlock {
        steamid: id.to_string(),
        kvs: kvs.iter().map(|(k, v)| (k.to_string(), v.to_string())).collect(),
    }
}

#[test]
fn tokenize_reads_strings_braces_and_escapes() {
    let toks = tokenize("\"a\\\"b\" { \"c\" } x \"open");
    assert_eq!(toks.len(), 5);
    assert!(matches!(&toks[0], Tok::Str(s) if s == "a\"b"));
    assert!(matches!(&toks[1], Tok::Open));
    assert!(matches!(&toks[2], Tok::Str(s) if s == "c"));
    assert!(matches!(&toks[3], Tok::Close));
    assert!(matches!(&toks[4], Tok::Str(s) if s == "open"));
}

#[test]
fn parse_reads_blocks_in_order() {
    let blocks = parse(LOGINUSERS);
    assert_eq!(blocks.len(), 2);
    assert_eq!(blocks[0].steamid, "7656119800000001");
    assert_eq!(blocks[0].kvs.len(), 4);
    assert_eq!(blocks[0].get("accountname"), Some("alice".to_string()));
    assert_eq!(blocks[1].get("MostRecent"), Some("0".to_string()));
    assert_eq!(blocks[1].get("Missing"), None);
}

#[test]
fn serialize_then_parse_round_trips() {
    let blocks = vec![
        block("1", &[("AccountName", "a"), ("Unknown", "keep me")]),
        block("2", &[]),
    ];
    let text = serialize(&blocks);
    assert_eq!(
        text,
        "\"users\"\n{\n\t\"1\"\n\t{\n\t\t\"AccountName\"\t\t\"a\"\n\t\t\"Unknown\"\t\t\"keep me\"\n\t}\n\t\"2\"\n\t{\n\t}\n}\n"
    );
    let back = parse(&text);
    assert_eq!(back.len(), 2);
    assert_eq!(back[0].steamid, "1");
    assert_eq!(back[0].kvs, blocks[0].kvs);
    assert_eq!(back[1].steamid, "2");
    assert!(back[1].kvs.is_empty());
}

#[test]
fn set_replaces_in_place_or_appends() {
    let mut b = block("1", &[("mostrecent", "0"), ("X", "y")]);
    b.set("MostRecent", "1");
    assert_eq!(b.kvs[0], ("mostrecent".to_string(), "1".to_string()));
    assert_eq!(b.get("MostRecent"), Some("1".to_string()));
    assert_eq!(b.get("X"), Some("y".to_string()));
    b.set("AllowAutoLogin", "1");
    assert_eq!(b.kvs.len(), 3);
    assert_eq!(b.kvs[2], ("AllowAutoLogin".to_string(), "1".to_string()));
}

#[test]
fn list_accounts_uses_persona_then_account_name() {
    let accts = list_accounts(Some(LOGINUSERS));
    assert_eq!(accts.len(), 2);
    assert_eq!(accts[0].id, "7656119800000001");
    assert_eq!(accts[0].display_name, "Alice A");
    assert_eq!(accts[0].note, Some("alice".to_string()));
    assert_eq!(accts[1].display_name, "Bob");
    assert!(list_accounts(None).is_empty());
}

#[test]
fn current_prefers_auto_login_user_then_most_recent() {
    assert_eq!(current(Some("BOB".to_string()), Some(LOGINUSERS)), Some("7656119800000002".to_string()));
    assert_eq!(current(Some("".to_string()), Some(LOGINUSERS)), Some("7656119800000001".to_string()));
    assert_eq!(current(Some("nobody".to_string()), Some(LOGINUSERS)), Some("7656119800000001".to_string()));
    assert_eq!(current(None, None), None);
    assert_eq!(current(None, Some("\"users\" { }")), None);
}

#[test]
fn switch_flips_flags_and_then_reads_as_current() {
    let sw = match switch(LOGINUSERS, "7656119800000002") {
        Ok(sw) => sw,
        Err(_) => panic!("switch should succeed"),
    };
    assert_eq!(sw.account_name, "Bob");
    let blocks = parse(&sw.vdf);
    assert_eq!(blocks[0].get("MostRecent"), Some("0".to_string()));
    assert_eq!(blocks[0].get("Timestamp"), Some("123".to_string()));
    assert_eq!(blocks[1].get("MostRecent"), Some("1".to_string()));
    assert_eq!(blocks[1].get("AllowAutoLogin"), Some("1".to_string()));
    assert_eq!(current(Some(sw.account_name.clone()), Some(&sw.vdf)), Some("7656119800000002".to_string()));
}

#[test]
fn switch_to_unknown_account_is_refused() {
    assert!(matches!(switch(LOGINUSERS, "999"), Err(SteamError::AccountNotFound)));
    let no_name = "\"users\" { \"5\" { \"PersonaName\" \"x\" } }";
    assert!(matches!(switch(no_name, "5"), Err(SteamError::AccountNotFound)));
}

#[test]
fn steam_paths() {
    assert_eq!(steam_path(Some("c:/program files (x86)/steam".to_string())), Some("c:\\program files (x86)\\steam".to_string()));
    assert_eq!(steam_path(None), None);
    assert_eq!(loginusers_path("C:\\Steam"), "C:\\Steam/config/loginusers.vdf");
    assert_eq!(loginusers_path("C:\\Steam\\"), "C:\\Steam\\config/loginusers.vdf");
    assert_eq!(loginusers_path(""), "config/loginusers.vdf");
}

#[test]
fn current_from_lowered_names() {
    let blocks = parse(LOGINUSERS);
    let names = vec![Some("alice".to_string()), Some("bob".to_string())];
    assert_eq!(current_from("bob", &blocks, &names), Some("7656119800000002".to_string()));
    assert_eq!(current_from("", &blocks, &names), Some("7656119800000001".to_string()));
    assert_eq!(current_from("carol", &blocks, &names), Some("7656119800000001".to_string()));
    assert_eq!(current_from("bob", &blocks, &vec![None, None]), Some("7656119800000001".to_string()));
}

fn same(a: &[UserBlock], b: &[UserBlock]) -> bool {
    a.len() == b.len() && a.iter().zip(b).all(|(x, y)| x.steamid == y.steamid && x.kvs == y.kvs)
}

#[test]
fn serialize_escapes_quotes_and_backslashes() {
    let blocks = vec![block("7656119800000003", &[("AccountName", "carol"), ("PersonaName", "C \"the\" \\ one")])];
    let text = serialize(&blocks);
    assert!(text.contains("\"C \\\"the\\\" \\\\ one\""));
    assert!(same(&parse(&text), &blocks));
    // a file whose persona name holds an escaped quote survives a rewrite
    let src = "\"users\"\n{\n\t\"1\"\n\t{\n\t\t\"PersonaName\"\t\t\"a\\\"b\"\n\t}\n}\n";
    let parsed = parse(src);
    assert_eq!(parsed[0].kvs[0].1, "a\"b");
    assert!(same(&parse(&serialize(&parsed)), &parsed));
}
