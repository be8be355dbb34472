use playertwo::adding::{AddAction, AddEvent, AddKind, AddRun};
use playertwo::model::{Account, LoginArtifact, PlatformDef, UniqueId};

fn def(uid: UniqueId) -> PlatformDef {
    PlatformDef {
        id: "p".to_string(),
        name: "P".to_string(),
        exe_default: None,
        exe_locators: Vec::new(),
        exe_args: None,
        exes_to_end: Vec::new(),
        exit_timeout_secs: None,
        login: vec![LoginArtifact::File { live: "%A%\\f".to_string(), saved: "f".to_string() }],
        clear: Vec::new(),
        unique_id: uid,
    }
}

fn reg() -> UniqueId {
    UniqueId::Registry { key: "k".to_string(), value: "v".to_string() }
}

fn acct(id: &str, name: &str) -> Account {
    Account { id: id.to_string(), display_name: name.to_string(), note: None, image: None, last_used: None }
}

fn error_of(run: &AddRun) -> String {
    match &run.outcome {
        Some(Err(e)) => e.clone(),
        _ => panic!("the add should have failed"),
    }
}

#[test]
fn steam_add_saves_name_without_capturing() {
    let (mut run, a) = AddRun::new("steam", &def(reg()), "Main".to_string(), 0);
    assert!(matches!(run.kind, AddKind::Steam));
    assert!(matches!(a, AddAction::ReadCurrent));
    assert!(matches!(run.next(AddEvent::Current(Ok(Some("765".to_string())))), AddAction::ListAccounts));
    assert!(matches!(run.next(AddEvent::Accounts(vec![acct("111", "Other")])), AddAction::Save));
    let acc = run.account.as_ref().map(|a| (a.id.clone(), a.display_name.clone()));
    assert_eq!(acc, Some(("765".to_string(), "Main".to_string())));
    assert!(matches!(run.next(AddEvent::Done), AddAction::Finish));
    assert!(matches!(&run.outcome, Some(Ok(r)) if !r.exists && r.account.id == "765"));
}

#[test]
fn existing_account_is_reported_not_overwritten() {
    let (mut run, _) = AddRun::new("gog", &def(reg()), "New name".to_string(), 0);
    run.next(AddEvent::Current(Ok(Some("idA".to_string()))));
    assert!(matches!(run.next(AddEvent::Accounts(vec![acct("idA", "Old name")])), AddAction::Finish));
    assert!(matches!(&run.outcome, Some(Ok(r)) if r.exists && r.account.display_name == "Old name"));
}

#[test]
fn epic_add_takes_name_from_logs_when_blank() {
    let (mut run, _) = AddRun::new("epic", &def(reg()), "  ".to_string(), 0);
    run.next(AddEvent::Current(Ok(Some("e1".to_string()))));
    assert!(matches!(run.next(AddEvent::Accounts(vec![])), AddAction::CaptureEpic));
    assert!(matches!(run.next(AddEvent::Done), AddAction::ReadLogs));
    let logs = vec!["LogAuth: DisplayName=Player Two, x".to_string()];
    assert!(matches!(run.next(AddEvent::Logs(logs)), AddAction::Save));
    assert_eq!(run.account.as_ref().map(|a| a.display_name.clone()), Some("Player Two".to_string()));
    let (mut run, _) = AddRun::new("epic", &def(reg()), "".to_string(), 0);
    run.next(AddEvent::Current(Ok(Some("e1".to_string()))));
    run.next(AddEvent::Accounts(vec![]));
    run.next(AddEvent::Done);
    run.next(AddEvent::Logs(vec![]));
    assert_eq!(run.account.as_ref().map(|a| a.display_name.clone()), Some("e1".to_string()));
}

#[test]
fn epic_add_with_name_skips_logs() {
    let (mut run, _) = AddRun::new("epic", &def(reg()), "Mine".to_string(), 0);
    run.next(AddEvent::Current(Ok(Some("e1".to_string()))));
    run.next(AddEvent::Accounts(vec![]));
    assert!(matches!(run.next(AddEvent::Done), AddAction::Save));
}

#[test]
fn generated_id_is_written_then_captured() {
    let gen = def(UniqueId::GeneratedFile { file: "%A%\\id.txt".to_string() });
    let (mut run, _) = AddRun::new("game", &gen, "G".to_string(), 1700000000);
    assert_eq!(run.marker, Some("%A%\\id.txt".to_string()));
    assert!(matches!(run.next(AddEvent::Current(Ok(None))), AddAction::WriteMarker));
    assert_eq!(run.id, "acct-1700000000");
    assert!(matches!(run.next(AddEvent::Done), AddAction::ListAccounts));
    assert!(matches!(run.next(AddEvent::Accounts(vec![])), AddAction::CaptureLogin));
    assert!(matches!(run.next(AddEvent::Failed("disk full".to_string())), AddAction::Finish));
    assert_eq!(error_of(&run), "disk full");
    assert!(run.account.is_none());
}

#[test]
fn nobody_signed_in_errors_per_platform() {
    let (mut run, _) = AddRun::new("steam", &def(reg()), "x".to_string(), 0);
    run.next(AddEvent::Current(Ok(None)));
    assert_eq!(error_of(&run), "No Steam account is currently signed in");
    let (mut run, _) = AddRun::new("epic", &def(reg()), "x".to_string(), 0);
    run.next(AddEvent::Current(Ok(None)));
    assert_eq!(error_of(&run), "No Epic account is currently signed in");
    let (mut run, _) = AddRun::new("gog", &def(reg()), "x".to_string(), 0);
    run.next(AddEvent::Current(Ok(None)));
    assert_eq!(error_of(&run), "Could not detect a logged-in account to add");
    let (mut run, _) = AddRun::new("gog", &def(reg()), "x".to_string(), 0);
    run.next(AddEvent::Current(Err("registry unreadable".to_string())));
    assert_eq!(error_of(&run), "registry unreadable");
}

#[test]
fn add_rejects_answers_out_of_turn() {
    let (mut run, _) = AddRun::new("gog", &def(reg()), "x".to_string(), 0);
    assert!(matches!(run.next(AddEvent::Done), AddAction::Finish));
    assert_eq!(error_of(&run), "internal error: a step answered out of turn");
    assert!(matches!(run.next(AddEvent::Done), AddAction::Finish));
}
