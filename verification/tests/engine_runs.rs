use playertwo::engine::{exit_poll_attempts, Action, Engine, Event, ExitWait, Failure, Flow, Outcome, Stage, WaitStep};
use playertwo::host::{Host, StubHost};
use playertwo::model::{LoginArtifact, PlatformDef, UniqueId};
use playertwo::store::Store;

fn plat(auto_id: UniqueId) -> PlatformDef {
    PlatformDef {
        id: "testplat".to_string(),
        name: "Test Platform".to_string(),
        exe_default: None,
        exe_locators: Vec::new(),
        exe_args: None,
        exes_to_end: vec!["Test.exe".to_string()],
        exit_timeout_secs: None,
        login: vec![LoginArtifact::File { live: "%LIVE%\\login.dat".to_string(), saved: "login.dat".to_string() }],
        clear: Vec::new(),
        unique_id: auto_id,
    }
}

fn reg_plat() -> PlatformDef {
    plat(UniqueId::Registry { key: "HKCU\\Software\\Test".to_string(), value: "AccountId".to_string() })
}

fn engine() -> Engine<StubHost> {
    Engine::new(StubHost::new(), Store::new("store".to_string()))
}

fn accounts(ids: &[&str]) -> Event {
    Event::Accounts(ids.iter().map(|s| s.to_string()).collect())
}

#[test]
fn run_full_switch_sequence() {
    let e = engine();
    let p = reg_plat();
    let (mut run, a) = e.switch(&p, "idB", true);
    assert!(matches!(a, Action::KillProcesses));
    assert_eq!(run.timeout_secs, 10);
    assert_eq!(run.exes, vec!["Test.exe".to_string()]);
    assert!(matches!(run.next(Event::Done), Action::WaitForExit));
    assert!(matches!(run.next(Event::Exited(true)), Action::ReadCurrent));
    assert!(matches!(run.next(Event::Current(Some("idA".to_string()), false)), Action::ListAccounts));
    assert!(matches!(run.next(accounts(&["idA", "idB"])), Action::CaptureCurrent));
    assert!(matches!(run.next(Event::Done), Action::BackupLive));
    assert!(matches!(run.next(Event::Done), Action::ClearLogin));
    assert!(matches!(run.next(Event::Done), Action::RestoreTarget));
    assert!(matches!(run.next(Event::Done), Action::Launch));
    assert!(matches!(run.next(Event::Launched(true)), Action::Finish));
    assert!(matches!(run.outcome, Some(Outcome::Switched { launched: true })));
    assert!(matches!(run.stage, Stage::Finished));
    assert!(run.errors.is_empty());
}

#[test]
fn run_already_active_short_circuits() {
    let e = engine();
    let p = reg_plat();
    let (mut run, _) = e.switch(&p, "idA", false);
    run.next(Event::Done);
    run.next(Event::Exited(true));
    assert!(matches!(run.next(Event::Current(Some("idA".to_string()), false)), Action::Finish));
    assert!(matches!(run.outcome, Some(Outcome::AlreadyActive { launched: false })));
    assert!(run.already_active);
}

#[test]
fn run_failed_restore_rolls_back() {
    let e = engine();
    let p = reg_plat();
    let (mut run, _) = e.switch(&p, "idB", true);
    run.next(Event::Done);
    run.next(Event::Exited(true));
    run.next(Event::Current(Some("idA".to_string()), false));
    run.next(accounts(&["idA", "idB"]));
    run.next(Event::Done);
    run.next(Event::Done);
    run.next(Event::Done);
    assert!(matches!(run.next(Event::Failed("copy failed".to_string())), Action::RestoreBackup));
    assert!(matches!(run.next(Event::Done), Action::Finish));
    assert!(matches!(run.outcome, Some(Outcome::Failed(Failure::RolledBack))));
    assert_eq!(run.errors, vec!["copy failed".to_string()]);
}

#[test]
fn run_capture_failure_aborts_before_clear() {
    let e = engine();
    let p = reg_plat();
    let (mut run, _) = e.switch(&p, "idB", true);
    run.next(Event::Done);
    run.next(Event::Exited(true));
    run.next(Event::Current(Some("idA".to_string()), false));
    assert!(matches!(run.next(accounts(&["idA", "idB"])), Action::CaptureCurrent));
    assert!(matches!(run.next(Event::Failed("Token".to_string())), Action::Finish));
    assert!(matches!(run.outcome, Some(Outcome::Failed(Failure::StepFailed))));
    // a finished run stays finished
    assert!(matches!(run.next(Event::Done), Action::Finish));
    assert!(matches!(run.outcome, Some(Outcome::Failed(Failure::StepFailed))));
}

#[test]
fn run_unsaved_current_is_not_captured() {
    let e = engine();
    let p = reg_plat();
    let (mut run, _) = e.switch(&p, "idB", false);
    run.next(Event::Done);
    run.next(Event::Exited(true));
    run.next(Event::Current(Some("stranger".to_string()), false));
    assert!(matches!(run.next(accounts(&["idB"])), Action::BackupLive));
}

#[test]
fn run_no_current_goes_straight_to_backup() {
    let e = engine();
    let p = reg_plat();
    let (mut run, _) = e.switch(&p, "idB", false);
    run.next(Event::Done);
    run.next(Event::Exited(true));
    assert!(matches!(run.next(Event::Current(None, false)), Action::BackupLive));
}

#[test]
fn run_processes_that_stay_up_abort() {
    let e = engine();
    let mut p = reg_plat();
    p.exit_timeout_secs = Some(3);
    let (mut run, _) = e.switch(&p, "idB", true);
    assert_eq!(run.timeout_secs, 3);
    run.next(Event::Done);
    assert!(matches!(run.next(Event::Exited(false)), Action::Finish));
    assert!(matches!(run.outcome, Some(Outcome::Failed(Failure::StillRunning))));
}

#[test]
fn run_rejects_unexpected_event() {
    let e = engine();
    let p = reg_plat();
    let (mut run, _) = e.switch(&p, "idB", true);
    assert!(matches!(run.next(Event::Launched(true)), Action::Finish));
    assert!(matches!(run.outcome, Some(Outcome::Failed(Failure::UnexpectedEvent))));
}

#[test]
fn epic_run_reapplies_token_when_account_id_is_stale() {
    let e = engine();
    let p = reg_plat();
    let (mut run, _) = e.switch_epic(&p, "idA", true);
    assert!(matches!(run.flow, Flow::EpicSwitch));
    assert_eq!(run.platform, "epic");
    run.next(Event::Done);
    run.next(Event::Exited(true));
    // AccountId still says idA but no live token: re-apply, not already-active
    assert!(matches!(run.next(Event::Current(Some("idA".to_string()), false)), Action::RestoreTarget));
    assert!(matches!(run.next(Event::Done), Action::Launch));
    assert!(matches!(run.next(Event::Launched(false)), Action::Finish));
    assert!(matches!(run.outcome, Some(Outcome::Switched { launched: false })));
}

#[test]
fn epic_run_captures_rotated_token_before_switching_away() {
    let e = engine();
    let p = reg_plat();
    let (mut run, _) = e.switch_epic(&p, "idIn", false);
    run.next(Event::Done);
    run.next(Event::Exited(true));
    assert!(matches!(run.next(Event::Current(Some("idOut".to_string()), true)), Action::ListAccounts));
    assert!(matches!(run.next(accounts(&["idOut", "idIn"])), Action::CaptureCurrentIfTrusted));
    assert!(matches!(run.next(Event::Done), Action::RestoreTarget));
    assert!(matches!(run.next(Event::Done), Action::Finish));
    assert!(matches!(run.outcome, Some(Outcome::Switched { launched: false })));
}

#[test]
fn epic_run_already_active_with_live_token() {
    let e = engine();
    let p = reg_plat();
    let (mut run, _) = e.switch_epic(&p, "idA", false);
    run.next(Event::Done);
    run.next(Event::Exited(true));
    assert!(matches!(run.next(Event::Current(Some("idA".to_string()), true)), Action::Finish));
    assert!(matches!(run.outcome, Some(Outcome::AlreadyActive { launched: false })));
}

#[test]
fn epic_renew_skips_failed_capture() {
    let e = engine();
    let (mut run, a) = e.epic_renew();
    assert!(matches!(a, Action::ReadCurrent));
    assert!(matches!(run.next(Event::Current(Some("idA".to_string()), true)), Action::ListAccounts));
    assert!(matches!(run.next(accounts(&["idA"])), Action::CaptureCurrentIfTrusted));
    assert!(matches!(run.next(Event::Failed("planted".to_string())), Action::Finish));
    assert!(matches!(run.outcome, Some(Outcome::Renewed)));
    let (mut run, _) = e.epic_renew();
    assert!(matches!(run.next(Event::Current(None, false)), Action::Finish));
    assert!(matches!(run.outcome, Some(Outcome::Renewed)));
}

#[test]
fn steam_run_flips_flags_after_stop() {
    let e = engine();
    let p = reg_plat();
    let (mut run, _) = e.switch_steam(&p, "765", true);
    run.next(Event::Done);
    assert!(matches!(run.next(Event::Exited(true)), Action::RestoreTarget));
    assert!(matches!(run.next(Event::Done), Action::Launch));
    assert!(matches!(run.next(Event::Launched(true)), Action::Finish));
    assert!(matches!(run.outcome, Some(Outcome::Switched { launched: true })));
}

#[test]
fn new_login_clears_after_capturing_saved_current() {
    let e = engine();
    let p = reg_plat();
    let (mut run, _) = e.begin_new_login(&p, true);
    run.next(Event::Done);
    run.next(Event::Exited(true));
    assert!(matches!(run.next(Event::Current(Some("idA".to_string()), false)), Action::ListAccounts));
    assert!(matches!(run.next(accounts(&["idA"])), Action::CaptureCurrent));
    assert!(matches!(run.next(Event::Done), Action::ClearLogin));
    assert!(matches!(run.next(Event::Done), Action::Launch));
    assert!(matches!(run.next(Event::Launched(true)), Action::Finish));
    assert!(matches!(run.outcome, Some(Outcome::Opened { launched: true })));
}

#[test]
fn launch_without_auto_start_finishes_at_once() {
    let e = engine();
    let p = reg_plat();
    let (run, a) = e.launch(&p, false);
    assert!(matches!(a, Action::Finish));
    assert!(matches!(run.outcome, Some(Outcome::Opened { launched: false })));
    let (run, a) = e.launch(&p, true);
    assert!(matches!(a, Action::Launch));
    assert!(run.outcome.is_none());
}

#[test]
fn current_id_reads_registry_through_host() {
    let mut host = StubHost::new().with_var("ROOT", "HKCU\\Software");
    host.set_registry("HKCU\\Software\\Test", "AccountId", "idA");
    let e = Engine::new(host, Store::new("s".to_string()));
    let p = plat(UniqueId::Registry { key: "%ROOT%\\Test".to_string(), value: "AccountId".to_string() });
    assert!(matches!(e.current_id(&p, None), Ok(Some(ref id)) if id == "idA"));
    let mut host = StubHost::new();
    host.fail_registry_read("AccountId");
    let e = Engine::new(host, Store::new("s".to_string()));
    assert!(e.current_id(&reg_plat(), None).is_err());
}

#[test]
fn current_id_from_file_text() {
    let e = engine();
    let re = plat(UniqueId::FileRegex { file: "f".to_string(), regex: "user=(\\w+)".to_string() });
    assert!(matches!(e.current_id(&re, Some("x user=bob y".to_string())), Ok(Some(ref id)) if id == "bob"));
    assert!(matches!(e.current_id(&re, Some("nothing".to_string())), Ok(None)));
    assert!(matches!(e.current_id(&re, None), Ok(None)));
    let bad = plat(UniqueId::FileRegex { file: "f".to_string(), regex: "(".to_string() });
    assert!(e.current_id(&bad, Some("x".to_string())).is_err());
    let js = plat(UniqueId::JsonField { file: "f".to_string(), pointer: "/a/b".to_string() });
    assert!(matches!(e.current_id(&js, Some("{\"a\":{\"b\":\"id9\"}}".to_string())), Ok(Some(ref id)) if id == "id9"));
    assert!(matches!(e.current_id(&js, Some("{\"a\":{\"b\":5}}".to_string())), Ok(None)));
    assert!(matches!(e.current_id(&js, Some("not json".to_string())), Ok(None)));
    let gen = plat(UniqueId::GeneratedFile { file: "f".to_string() });
    assert!(matches!(e.current_id(&gen, Some("  acct-1\n".to_string())), Ok(Some(ref id)) if id == "acct-1"));
}

#[test]
fn is_installed_needs_any_evidence() {
    let e = engine();
    assert!(!e.is_installed(false, &vec![false], &vec![false, false]));
    assert!(e.is_installed(true, &vec![], &vec![]));
    assert!(e.is_installed(false, &vec![false, true], &vec![]));
    assert!(e.is_installed(false, &vec![], &vec![false, true]));
}

#[test]
fn engine_reads_through_helpers() {
    let e = engine();
    assert_eq!(e.epic_current(Some(" guid ".to_string())), Some("guid".to_string()));
    assert_eq!(
        e.epic_username(&vec!["nothing here".to_string(), "x \"DisplayName\": \"Player One\" y".to_string()]),
        Some("Player One".to_string())
    );
    assert_eq!(e.epic_username(&vec![]), None);
    assert_eq!(e.store().root, "store");
}

#[test]
fn stub_host_registry_and_processes() {
    let mut h = StubHost::new().with_var("A", "x").with_var("A", "y");
    assert_eq!(h.expand_vars("%A%/%B%/%"), "y/%B%/%");
    assert!(h.write_registry("K", "v", "d").is_ok());
    assert!(matches!(h.read_registry("K", "v"), Ok(Some(ref d)) if d == "d"));
    h.fail_registry_write_data("bad");
    assert!(h.write_registry("K", "v", "bad").is_err());
    assert_eq!(h.get_registry("K", "v"), Some("d".to_string()));
    assert!(h.delete_registry_value("K", "v").is_ok());
    assert_eq!(h.get_registry("K", "v"), None);
    assert!(!h.are_running(&["steam.exe".to_string()]));
    h.set_running(vec!["steam.exe".to_string(), "other.exe".to_string()]);
    assert!(h.are_running(&["STEAM.EXE".to_string()]));
    assert!(h.kill_processes(&["Steam.exe".to_string()]).is_ok());
    assert!(!h.are_running(&["steam.exe".to_string()]));
    assert!(h.are_running(&["other.exe".to_string()]));
    assert!(h.launch("app.exe", "-silent", false).is_ok());
}

#[test]
fn refused_stub_write_leaves_value_and_later_writes_succeed() {
    let mut h = StubHost::new();
    h.set_registry("HKCU\\T", "V", "old");
    h.fail_registry_write_data("bad");
    assert!(h.write_registry("HKCU\\T", "V", "bad").is_err());
    assert_eq!(h.get_registry("HKCU\\T", "V"), Some("old".to_string()));
    assert!(h.write_registry("HKCU\\T", "V", "ok").is_ok());
    assert_eq!(h.get_registry("HKCU\\T", "V"), Some("ok".to_string()));
    h.fail_registry_write_data("x");
    assert!(matches!(h.write_registry("HKCU\\T", "V", "x"), Err(ref e) if e.message == "stub: registry write of x failed"));
    h.fail_registry_read("V");
    assert!(matches!(h.read_registry("HKCU\\T", "V"), Err(ref e) if e.message == "stub: registry read of V failed"));
    assert!(h.delete_registry_value("HKCU\\T", "V").is_ok());
    assert!(h.read_registry("HKCU\\T", "V").is_err());
}

#[test]
fn exit_wait_polls_every_tenth_of_a_second() {
    assert_eq!(exit_poll_attempts(10), 100);
    assert_eq!(exit_poll_attempts(3), 30);
    assert_eq!(exit_poll_attempts(0), 1);
}

#[test]
fn exit_wait_sleeps_between_polls_then_gives_up() {
    let mut w = ExitWait::new(0);
    assert_eq!(w.sleeps_left, 1);
    assert!(matches!(w.next(true), WaitStep::Sleep));
    assert!(matches!(w.next(true), WaitStep::Exited(false)));
    let mut w = ExitWait::new(1);
    assert_eq!(w.sleeps_left, 10);
    for _ in 0..10 {
        assert!(matches!(w.next(true), WaitStep::Sleep));
    }
    assert!(matches!(w.next(false), WaitStep::Exited(true)));
    let mut g = ExitWait::grace();
    assert_eq!(g.sleeps_left, 15);
    for _ in 0..15 {
        assert!(matches!(g.next(true), WaitStep::Sleep));
    }
    assert!(matches!(g.next(true), WaitStep::Exited(false)));
    let mut w = ExitWait::new(10);
    assert!(matches!(w.next(false), WaitStep::Exited(true)));
    assert_eq!(w.sleeps_left, 100);
}
