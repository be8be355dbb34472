use playertwo::commands::{
    apply_mru, checked_data_dir, epic_account_name, find_saved, launch_def, merge_steam_overrides, new_account,
    platform_summary, unknown_platform, AppState,
};
use playertwo::defs::by_id;
use playertwo::host::host;
use playertwo::model::{Account, ExeLocator, LoginArtifact, PlatformDef, UniqueId};
use playertwo::plans::{
    app_paths_keys, backup_plan, capture_plan, clear_plan, launch_args, located_path, parse_command_exe,
    login_probes, registered_scheme_keys, resolve_exe, restore_plan, rollback_plan, strip_quotes, url_command_key, url_scheme_key, with_suffix,
    BackupItem, BackupStep, CaptureStep, ClearStep, InstallProbe, RestoreStep,
};
use playertwo::settings::{set_platform_enabled, Settings};
use playertwo::store::RegistrySnapshot;

fn acct(id: &str, name: &str, last: Option<u64>) -> Account {
    Account { id: id.to_string(), display_name: name.to_string(), note: None, image: None, last_used: last }
}

fn def(id: &str, uid: UniqueId) -> PlatformDef {
    PlatformDef {
        id: id.to_string(),
        name: format!("{id} name"),
        exe_default: Some("%PF%\\app.exe".to_string()),
        exe_locators: Vec::new(),
        exe_args: Some("-silent".to_string()),
        exes_to_end: Vec::new(),
        exit_timeout_secs: None,
        login: vec![
            LoginArtifact::File { live: "%APPDATA%\\x\\*.dat".to_string(), saved: "dat".to_string() },
            LoginArtifact::Registry { key: "HKCU\\K".to_string(), value: "V".to_string(), saved: "v".to_string() },
            LoginArtifact::File { live: "%APPDATA%\\y.cfg".to_string(), saved: "y.cfg".to_string() },
        ],
        clear: vec!["%APPDATA%\\cache".to_string()],
        unique_id: uid,
    }
}

fn ids(v: &[Account]) -> Vec<String> {
    v.iter().map(|a| a.id.clone()).collect()
}

#[test]
fn mru_orders_recent_first_and_keeps_ties_stable() {
    let accounts = vec![acct("a", "A", None), acct("b", "B", None), acct("c", "C", None), acct("d", "D", None)];
    let mru = vec![("c".to_string(), 50), ("b".to_string(), 100), ("d".to_string(), 50)];
    let out = apply_mru(accounts, &mru);
    assert_eq!(ids(&out), vec!["b", "c", "d", "a"]);
    assert_eq!(out[0].last_used, Some(100));
    assert_eq!(out[3].last_used, None);
}

#[test]
fn mru_timestamps_replace_stored_ones() {
    let accounts = vec![acct("a", "A", Some(999)), acct("b", "B", None)];
    let out = apply_mru(accounts, &vec![("b".to_string(), 1)]);
    assert_eq!(ids(&out), vec!["b", "a"]);
    assert_eq!(out[1].last_used, None);
    assert!(apply_mru(Vec::new(), &vec![]).is_empty());
}

#[test]
fn steam_overrides_merge_name_note_and_image() {
    let mut live_a = acct("1", "persona", None);
    live_a.note = Some("login".to_string());
    let live = vec![live_a, acct("2", "other", None)];
    let mut o = acct("1", "My Main", None);
    o.image = Some("img.png".to_string());
    let out = merge_steam_overrides(live, &vec![o]);
    assert_eq!(out[0].display_name, "My Main");
    assert_eq!(out[0].note, Some("login".to_string()));
    assert_eq!(out[0].image, Some("img.png".to_string()));
    assert_eq!(out[1].display_name, "other");
    let mut o2 = acct("2", "Alt", None);
    o2.note = Some("mine".to_string());
    let out = merge_steam_overrides(out, &vec![o2]);
    assert_eq!(out[1].note, Some("mine".to_string()));
}

#[test]
fn find_saved_returns_first_match() {
    let v = vec![acct("x", "first", None), acct("x", "second", None)];
    assert_eq!(find_saved(&v, "x").map(|a| a.display_name), Some("first".to_string()));
    assert!(find_saved(&v, "y").is_none());
}

#[test]
fn unknown_platform_message() {
    assert_eq!(unknown_platform("zzz"), "unknown platform: zzz");
}

#[test]
fn epic_account_name_falls_back() {
    assert_eq!(epic_account_name("Named".to_string(), Some("log".to_string()), "id"), "Named");
    assert_eq!(epic_account_name("  ".to_string(), Some("log".to_string()), "id"), "log");
    assert_eq!(epic_account_name("".to_string(), None, "id"), "id");
    let a = new_account("id".to_string(), "N".to_string());
    assert!(a.note.is_none() && a.image.is_none() && a.last_used.is_none());
}

#[test]
fn data_dir_is_trimmed_and_not_empty() {
    assert_eq!(checked_data_dir("  \\\\nas\\share  "), Ok("\\\\nas\\share".to_string()));
    assert_eq!(checked_data_dir("   "), Err("empty path".to_string()));
    assert_eq!(AppState::new("d".to_string()).data_dir, "d");
}

#[test]
fn launch_def_drops_epic_args_when_not_silent() {
    let d = def("epic", UniqueId::Registry { key: "k".to_string(), value: "v".to_string() });
    assert_eq!(launch_def(d, "epic", false).exe_args, None);
    let d = def("epic", UniqueId::Registry { key: "k".to_string(), value: "v".to_string() });
    assert_eq!(launch_def(d, "epic", true).exe_args, Some("-silent".to_string()));
    let d = def("other", UniqueId::Registry { key: "k".to_string(), value: "v".to_string() });
    assert_eq!(launch_def(d, "other", false).exe_args, Some("-silent".to_string()));
}

#[test]
fn summary_uses_settings_then_detection() {
    let d = def("gog", UniqueId::Registry { key: "k".to_string(), value: "v".to_string() });
    let mut s = Settings::default();
    let sum = platform_summary(&d, 3, true, &s);
    assert_eq!((sum.id.as_str(), sum.account_count, sum.detected, sum.enabled), ("gog", 3, true, true));
    set_platform_enabled(&mut s, "gog", false);
    assert!(!platform_summary(&d, 3, true, &s).enabled);
}

#[test]
fn by_id_finds_first_definition() {
    let r = || UniqueId::Registry { key: "k".to_string(), value: "v".to_string() };
    let defs = vec![def("a", r()), def("b", r()), def("b", r())];
    assert_eq!(by_id(defs, "b").map(|d| d.id), Some("b".to_string()));
    let defs = vec![def("a", r())];
    assert!(by_id(defs, "zz").is_none());
}

#[test]
fn default_host_is_empty() {
    let h = host();
    assert_eq!(h.get_registry("k", "v"), None);
}

#[test]
fn capture_and_restore_plans_follow_artifacts() {
    let d = def("p", UniqueId::GeneratedFile { file: "%APPDATA%\\id.txt".to_string() });
    let cap = capture_plan(&d, "S/acc");
    assert_eq!(cap.len(), 3);
    assert!(matches!(&cap[0], CaptureStep::CopyIntoSaved { live, dest } if live == "%APPDATA%\\x\\*.dat" && dest == "S/acc/dat"));
    assert!(matches!(&cap[1], CaptureStep::ReadRegistry { key, value, saved } if key == "HKCU\\K" && value == "V" && saved == "v"));
    let mut snap = RegistrySnapshot::new();
    snap.insert("v".to_string(), "data".to_string());
    let res = restore_plan(&d, "S/acc", &snap);
    assert!(matches!(&res[0], RestoreStep::CopyFromSaved { saved, live } if saved == "S/acc/dat" && live == "%APPDATA%\\x\\*.dat"));
    assert!(matches!(&res[1], RestoreStep::WriteRegistry { data: Some(d), .. } if d == "data"));
    let res = restore_plan(&d, "S/acc", &RegistrySnapshot::new());
    assert!(matches!(&res[1], RestoreStep::WriteRegistry { data: None, .. }));
}

#[test]
fn clear_and_backup_plans_number_copies() {
    let d = def("p", UniqueId::GeneratedFile { file: "%APPDATA%\\id.txt".to_string() });
    let clear = clear_plan(&d);
    assert_eq!(clear.len(), 5);
    assert!(matches!(&clear[1], ClearStep::DeleteRegistry { key, value } if key == "HKCU\\K" && value == "V"));
    assert!(matches!(&clear[3], ClearStep::DeleteLive { path } if path == "%APPDATA%\\cache"));
    assert!(matches!(&clear[4], ClearStep::RemoveMarker { path } if path == "%APPDATA%\\id.txt"));
    let backup = backup_plan(&d);
    assert_eq!(backup.len(), 5);
    assert!(matches!(&backup[0], BackupStep::CopyOut { rel, .. } if rel == "f0"));
    assert!(matches!(&backup[1], BackupStep::ReadRegistry { .. }));
    assert!(matches!(&backup[2], BackupStep::CopyOut { rel, .. } if rel == "f1"));
    assert!(matches!(&backup[3], BackupStep::CopyOut { rel, live } if rel == "f2" && live == "%APPDATA%\\cache"));
    assert!(matches!(&backup[4], BackupStep::CopyOut { rel, .. } if rel == "f3"));
    let items = vec![
        BackupItem::File { live: "L".to_string(), rel: "f0".to_string() },
        BackupItem::Registry { key: "K".to_string(), value: "V".to_string(), data: None },
    ];
    let back = rollback_plan(&items, "B");
    assert!(matches!(&back[0], RestoreStep::CopyFromSaved { saved, live } if saved == "B/f0" && live == "L"));
    assert!(matches!(&back[1], RestoreStep::WriteRegistry { data: None, .. }));
}

#[test]
fn launcher_location_helpers() {
    assert_eq!(strip_quotes("  \"C:\\a b\\x.exe\"  "), "C:\\a b\\x.exe");
    assert_eq!(strip_quotes("\"\""), "");
    assert_eq!(parse_command_exe("\"C:\\P F\\X.exe\" %1"), "C:\\P F\\X.exe");
    assert_eq!(parse_command_exe("  C:\\X.exe %1 %2 "), "C:\\X.exe");
    assert_eq!(parse_command_exe("C:\\X.exe"), "C:\\X.exe");
    assert_eq!(parse_command_exe("\"unterminated %1"), "\"unterminated");
    let (a, b) = app_paths_keys("x.exe");
    assert_eq!(a, "HKLM\\SOFTWARE\\Microsoft\\Windows\\CurrentVersion\\App Paths\\x.exe");
    assert_eq!(b, "HKLM\\SOFTWARE\\WOW6432Node\\Microsoft\\Windows\\CurrentVersion\\App Paths\\x.exe");
    assert_eq!(url_command_key("steam"), "HKCR\\steam\\shell\\open\\command");
    assert_eq!(url_scheme_key("steam"), "HKCR\\steam");
    assert_eq!(with_suffix("C:\\G".to_string(), &Some("\\g.exe".to_string())), "C:\\G\\g.exe");
    assert_eq!(with_suffix("C:\\G".to_string(), &None), "C:\\G");
}

#[test]
fn located_paths_and_resolution() {
    let p = ExeLocator::Path { path: "%PF%\\a.exe".to_string() };
    assert_eq!(located_path(&p, "C:\\PF\\a.exe".to_string(), None, None), Some("C:\\PF\\a.exe".to_string()));
    let r = ExeLocator::Registry { key: "k".to_string(), value: "v".to_string(), suffix: Some("\\b.exe".to_string()) };
    assert_eq!(located_path(&r, String::new(), Some("C:\\B".to_string()), None), Some("C:\\B\\b.exe".to_string()));
    assert_eq!(located_path(&r, String::new(), None, None), None);
    let ap = ExeLocator::AppPaths { exe: "c.exe".to_string() };
    assert_eq!(located_path(&ap, String::new(), None, Some("\"C:\\c.exe\"".to_string())), Some("C:\\c.exe".to_string()));
    let u = ExeLocator::UrlProtocol { scheme: "s".to_string() };
    assert_eq!(located_path(&u, String::new(), Some("\"C:\\u.exe\" \"%1\"".to_string()), None), Some("C:\\u.exe".to_string()));
    let cands = vec![(Some("missing".to_string()), false), (None, true), (Some("here".to_string()), true)];
    assert_eq!(resolve_exe(&cands, Some("default".to_string())), Some("here".to_string()));
    assert_eq!(resolve_exe(&vec![(Some("missing".to_string()), false)], Some("default".to_string())), Some("default".to_string()));
    assert_eq!(resolve_exe(&vec![], None), None);
    let d = def("p", UniqueId::GeneratedFile { file: "f".to_string() });
    assert_eq!(launch_args(&d), "-silent");
}

#[test]
fn scheme_keys_come_from_url_protocol_locators_in_order() {
    let mut p = def("p", UniqueId::GeneratedFile { file: "m".to_string() });
    p.exe_locators = vec![
        ExeLocator::UrlProtocol { scheme: "steam".to_string() },
        ExeLocator::Path { path: "C:\\x.exe".to_string() },
        ExeLocator::AppPaths { exe: "x.exe".to_string() },
        ExeLocator::UrlProtocol { scheme: "com.epicgames.launcher".to_string() },
    ];
    assert_eq!(
        registered_scheme_keys(&p),
        vec!["HKCR\\steam".to_string(), "HKCR\\com.epicgames.launcher".to_string()]
    );
    assert!(registered_scheme_keys(&def("q", UniqueId::GeneratedFile { file: "m".to_string() })).is_empty());
}

/// A machine of paths and registry values, each present with its content.
#[derive(Clone, PartialEq, Debug, Default)]
struct Machine {
    paths: std::collections::BTreeMap<String, String>,
    reg: std::collections::BTreeMap<(String, String), String>,
}

fn run_capture(m: &mut Machine, steps: &[CaptureStep]) -> RegistrySnapshot {
    let mut snap = RegistrySnapshot::new();
    for s in steps {
        match s {
            CaptureStep::CopyIntoSaved { live, dest } => match m.paths.get(live).cloned() {
                Some(c) => {
                    m.paths.insert(dest.clone(), c);
                }
                None => {
                    m.paths.remove(dest);
                }
            },
            CaptureStep::ReadRegistry { key, value, saved } => {
                if let Some(d) = m.reg.get(&(key.clone(), value.clone())) {
                    snap.insert(saved.clone(), d.clone());
                }
            }
        }
    }
    snap
}

fn run_clear(m: &mut Machine, steps: &[ClearStep]) {
    for s in steps {
        match s {
            ClearStep::DeleteLive { path } | ClearStep::RemoveMarker { path } => {
                m.paths.remove(path);
            }
            ClearStep::DeleteRegistry { key, value } => {
                m.reg.remove(&(key.clone(), value.clone()));
            }
        }
    }
}

fn run_restore(m: &mut Machine, steps: &[RestoreStep]) {
    for s in steps {
        match s {
            RestoreStep::CopyFromSaved { saved, live } => {
                if let Some(c) = m.paths.get(saved).cloned() {
                    m.paths.insert(live.clone(), c);
                }
            }
            RestoreStep::WriteRegistry { key, value, data } => {
                if let Some(d) = data {
                    m.reg.insert((key.clone(), value.clone()), d.clone());
                }
            }
        }
    }
}

fn live_state(m: &Machine) -> Machine {
    Machine {
        paths: m.paths.iter().filter(|(k, _)| !k.starts_with("S/") && !k.starts_with("B/")).map(|(k, v)| (k.clone(), v.clone())).collect(),
        reg: m.reg.clone(),
    }
}

#[test]
fn restore_after_capture_gives_the_login_back() {
    let d = def("p", UniqueId::GeneratedFile { file: "id.txt".to_string() });
    // the first artifact is present, the third absent; the registry value present
    let mut m = Machine::default();
    m.paths.insert("%APPDATA%\\x\\*.dat".to_string(), "login".to_string());
    m.reg.insert(("HKCU\\K".to_string(), "V".to_string()), "acct".to_string());
    let before = live_state(&m);
    let snap = run_capture(&mut m, &capture_plan(&d, "S/acc"));
    // another account is signed in meanwhile
    m.paths.insert("%APPDATA%\\x\\*.dat".to_string(), "other".to_string());
    m.paths.insert("%APPDATA%\\y.cfg".to_string(), "other cfg".to_string());
    m.reg.insert(("HKCU\\K".to_string(), "V".to_string()), "other".to_string());
    run_clear(&mut m, &clear_plan(&d));
    run_restore(&mut m, &restore_plan(&d, "S/acc", &snap));
    let after = live_state(&m);
    assert_eq!(after.paths.get("%APPDATA%\\x\\*.dat"), before.paths.get("%APPDATA%\\x\\*.dat"));
    assert_eq!(after.paths.get("%APPDATA%\\y.cfg"), None);
    assert_eq!(after.reg, before.reg);
}

#[test]
fn rollback_after_backup_gives_the_backed_up_state_back() {
    let d = def("p", UniqueId::GeneratedFile { file: "id.txt".to_string() });
    let mut m = Machine::default();
    m.paths.insert("%APPDATA%\\y.cfg".to_string(), "cfg".to_string());
    m.paths.insert("%APPDATA%\\cache".to_string(), "cache".to_string());
    m.paths.insert("id.txt".to_string(), "acct-1".to_string());
    let before = live_state(&m);
    let mut items = Vec::new();
    for step in backup_plan(&d) {
        match step {
            BackupStep::CopyOut { live, rel } => {
                if let Some(c) = m.paths.get(&live).cloned() {
                    m.paths.insert(format!("B/{rel}"), c);
                }
                items.push(BackupItem::File { live, rel });
            }
            BackupStep::ReadRegistry { key, value } => {
                let data = m.reg.get(&(key.clone(), value.clone())).cloned();
                items.push(BackupItem::Registry { key, value, data });
            }
        }
    }
    // a partial restore writes some artifacts
    m.paths.insert("%APPDATA%\\x\\*.dat".to_string(), "half".to_string());
    m.reg.insert(("HKCU\\K".to_string(), "V".to_string()), "half".to_string());
    m.paths.remove("id.txt");
    run_clear(&mut m, &clear_plan(&d));
    run_restore(&mut m, &rollback_plan(&items, "B"));
    assert_eq!(live_state(&m), before);
}

#[test]
fn login_probes_follow_artifacts() {
    let d = def("p", UniqueId::GeneratedFile { file: "m".to_string() });
    let probes = login_probes(&d);
    assert_eq!(probes.len(), 3);
    assert!(matches!(&probes[0], InstallProbe::FolderOf { live } if live == "%APPDATA%\\x\\*.dat"));
    assert!(matches!(&probes[1], InstallProbe::ValueExists { key, value } if key == "HKCU\\K" && value == "V"));
    assert!(matches!(&probes[2], InstallProbe::FolderOf { live } if live == "%APPDATA%\\y.cfg"));
}
