use playertwo::epic::{
    capture_token, clear_write, current_id, current_token, extract_token, fingerprint,
    has_live_token, saved_token, switch_write, unconfirmed_switch, EpicError, PendingSwitch,
};
use playertwo::ini::edit_remember_me;

fn long_token(fill: char) -> String {
    std::iter::repeat(fill).take(600).collect()
}

#[test]
fn fingerprint_is_fnv1a_hex_and_byte_length() {
    assert_eq!(fingerprint("abc"), "e71fa2190541574b.3");
    assert_eq!(fingerprint(""), "cbf29ce484222325.0");
    assert_eq!(fingerprint("héllo"), "a35ff71f960240e0.6");
}

#[test]
fn extract_token_takes_first_long_data_value() {
    let tok = long_token('x');
    let text = format!("[A]\nData=short\n[RememberMe]\nEnable=True\nData=  {tok}  \n");
    assert_eq!(extract_token(&text), Some(tok.clone()));
    assert_eq!(extract_token("[RememberMe]\nData=short\n"), None);
    assert_eq!(extract_token(""), None);
}

#[test]
fn token_of_exactly_minimum_length_counts() {
    let tok: String = std::iter::repeat('a').take(500).collect();
    assert_eq!(extract_token(&format!("Data={tok}")), Some(tok.clone()));
    let short: String = std::iter::repeat('a').take(499).collect();
    assert_eq!(extract_token(&format!("Data={short}")), None);
}

#[test]
fn current_and_live_token_follow_the_ini() {
    let tok = long_token('t');
    let text = format!("[RememberMe]\nData={tok}\n");
    assert_eq!(current_token(Some(&text)), Some(tok));
    assert!(has_live_token(Some(&text)));
    assert!(!has_live_token(None));
    assert!(!has_live_token(Some("[RememberMe]\nData=\n")));
}

#[test]
fn current_id_is_trimmed_registry_value() {
    assert_eq!(current_id(Some("  abc123 \n".to_string())), Some("abc123".to_string()));
    assert_eq!(current_id(Some("   ".to_string())), None);
    assert_eq!(current_id(None), None);
}

#[test]
fn switch_write_plants_token_and_records_it() {
    let tok = long_token('z');
    let w = switch_write(Some("[Other]\nKey=Val\n"), "acct1", &tok);
    assert!(w.ini.contains("Key=Val"));
    assert_eq!(extract_token(&w.ini), Some(tok.clone()));
    assert_eq!(w.pending.account_id, "acct1");
    assert_eq!(w.pending.token_fp, fingerprint(&tok));
    let fresh = switch_write(None, "acct2", &tok);
    assert_eq!(fresh.ini, format!("[RememberMe]\nEnable=True\nData={tok}\n"));
}

#[test]
fn written_token_reads_back_with_crlf() {
    let tok = long_token('q');
    let out = edit_remember_me("[RememberMe]\r\nEnable=False\r\nData=old\r\n", true, &tok);
    assert_eq!(extract_token(&out), Some(tok));
}

#[test]
fn clear_write_blanks_token() {
    let tok = long_token('k');
    let ini = format!("[RememberMe]\nEnable=True\nData={tok}\n[Other]\nA=1\n");
    let out = clear_write(&ini);
    assert_eq!(out, "[RememberMe]\nEnable=False\nData=\n[Other]\nA=1\n");
    assert_eq!(extract_token(&out), None);
}

#[test]
fn unconfirmed_switch_cases() {
    let tok = long_token('p');
    let pending = || PendingSwitch { account_id: "idB".to_string(), token_fp: fingerprint(&tok) };
    // nothing pending
    let r = unconfirmed_switch(None, Some("idA".to_string()), Some(tok.clone()));
    assert_eq!(r.account, None);
    assert!(!r.clear_record);
    // launcher confirmed the planted account
    let r = unconfirmed_switch(Some(pending()), Some("idB".to_string()), Some(tok.clone()));
    assert_eq!(r.account, None);
    assert!(r.clear_record);
    // a different token is live: someone signed in for real
    let r = unconfirmed_switch(Some(pending()), Some("idA".to_string()), Some(long_token('r')));
    assert_eq!(r.account, None);
    assert!(r.clear_record);
    // planted token still live, registry names someone else: unconfirmed
    let r = unconfirmed_switch(Some(pending()), Some("idA".to_string()), Some(tok.clone()));
    assert_eq!(r.account, Some("idB".to_string()));
    assert!(!r.clear_record);
    let r = unconfirmed_switch(Some(pending()), None, None);
    assert_eq!(r.account, Some("idB".to_string()));
}

#[test]
fn capture_refuses_planted_or_missing_token() {
    assert!(matches!(
        capture_token(Some("idB".to_string()), "idA", Some("tok".to_string())),
        Err(EpicError::PlantedForOther)
    ));
    assert!(matches!(capture_token(None, "idA", None), Err(EpicError::NoLiveToken)));
    assert!(matches!(
        capture_token(Some("idA".to_string()), "idA", Some("tok".to_string())),
        Ok(ref t) if t == "tok"
    ));
    assert!(matches!(capture_token(None, "idA", Some("t2".to_string())), Ok(ref t) if t == "t2"));
}

#[test]
fn saved_token_prefers_token_file() {
    let tok = long_token('m');
    let ini = format!("[RememberMe]\nData={tok}\n");
    assert_eq!(saved_token(Some("  abc \n"), Some(&ini)), Some("abc".to_string()));
    assert_eq!(saved_token(Some("   "), Some(&ini)), Some(tok.clone()));
    assert_eq!(saved_token(None, Some(&ini)), Some(tok));
    assert_eq!(saved_token(None, Some("Data=x")), None);
    assert_eq!(saved_token(None, None), None);
}

#[test]
fn remember_me_keeps_multibyte_lines_in_section() {
    assert_eq!(
        edit_remember_me("[RememberMe]\nÄÄÄÄ\n", true, "T"),
        "[RememberMe]\nÄÄÄÄ\nEnable=True\nData=T\n"
    );
    assert_eq!(
        edit_remember_me("[RememberMe]\nabcdéxy\nEnable=é\n", false, ""),
        "[RememberMe]\nabcdéxy\nEnable=False\nData=\n"
    );
}

#[test]
fn rejected_switch_does_not_misfile_planted_token() {
    let tok_b = long_token('b');
    let w = switch_write(Some("[RememberMe]\nEnable=True\nData=old\n"), "idB", &tok_b);
    // the launcher never signed in: AccountId still names idA, B's token is live
    let live = extract_token(&w.ini);
    let check = unconfirmed_switch(Some(w.pending), Some("idA".to_string()), live.clone());
    assert_eq!(check.account, Some("idB".to_string()));
    assert!(!check.clear_record);
    assert!(matches!(capture_token(check.account, "idA", live), Err(EpicError::PlantedForOther)));
}
