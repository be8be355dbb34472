use playertwo::ini::edit_remember_me;

#[test]
fn preserves_other_sections_when_setting_token() {
    let existing = "[/Script/Foo.Bar]\nWindowMode=1\nResolution=1920x1080\n\n[RememberMe]\nEnable=True\nData=oldtoken\n";
    let out = edit_remember_me(existing, true, "NEWTOKEN");
    assert!(out.contains("[/Script/Foo.Bar]"));
    assert!(out.contains("WindowMode=1"));
    assert!(out.contains("Resolution=1920x1080"));
    assert!(out.contains("Data=NEWTOKEN"));
    assert!(!out.contains("oldtoken"));
    // exactly one RememberMe section, one Data line
    assert_eq!(out.matches("[RememberMe]").count(), 1);
    assert_eq!(out.matches("Data=").count(), 1);
}

#[test]
fn creates_section_when_absent() {
    let existing = "[Other]\nKey=Val\n";
    let out = edit_remember_me(existing, true, "TT");
    assert!(out.contains("[Other]"));
    assert!(out.contains("Key=Val"));
    assert!(out.contains("[RememberMe]"));
    assert!(out.contains("Enable=True"));
    assert!(out.contains("Data=TT"));
}

#[test]
fn clear_blanks_only_the_token() {
    let existing = "[Other]\nKey=Val\n[RememberMe]\nEnable=True\nData=secret\n";
    let out = edit_remember_me(existing, false, "");
    assert!(out.contains("[Other]"));
    assert!(out.contains("Key=Val"));
    assert!(out.contains("Enable=False"));
    assert!(out.contains("Data=\n") || out.ends_with("Data="));
    assert!(!out.contains("secret"));
}

#[test]
fn preserves_crlf_line_endings() {
    let existing = "[RememberMe]\r\nEnable=True\r\nData=old\r\n";
    let out = edit_remember_me(existing, true, "NEW");
    assert!(out.contains("\r\n"));
    assert!(out.contains("Data=NEW"));
    assert!(!out.contains("Data=old"));
}

#[test]
fn empty_input_produces_clean_section() {
    let out = edit_remember_me("", true, "TT");
    assert_eq!(out, "[RememberMe]\nEnable=True\nData=TT\n");
}

#[test]
fn editing_twice_is_editing_once() {
    for text in [
        "",
        "  \n",
        "[RememberMe]\nEnable=False\nData=\n",
        "[Other]\nx=1\n[RememberMe]\nData=old\n[Tail]\ny=2",
        "[RememberMe]\r\nEnable=True\r\n\r\n[A]\r\n",
        "[rememberme]\nfoo=bar\n[RememberMe]\nenable=1\n",
        "a\n\r",
        "[RememberMe]\nEnable=True\nData=T\n[X]\n\r",
    ] {
        for (enable, token) in [(true, "TOKEN"), (false, "")] {
            let once = edit_remember_me(text, enable, token);
            assert_eq!(edit_remember_me(&once, enable, token), once, "on {text:?}");
        }
    }
}
