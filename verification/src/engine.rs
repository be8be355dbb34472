//! The account-switch engine.
//!
//! A switch is a sequence of steps, each of which touches the machine (ending
//! processes, copying login files, registry values, launching). The engine
//! decides the steps: a [`Run`] answers each step's result ([`Event`]) with the
//! next step to perform ([`Action`]), until it finishes with an [`Outcome`].
//! The caller performs the actions.
//!
//! Generic switch:
//! 1. End the platform's processes and wait for them to exit (abort if they won't).
//! 2. Read who is logged in; if it is the target, the account is already active.
//! 3. If that account is a saved one, capture its live login first (a failed
//!    capture aborts before anything is cleared).
//! 4. Back up the live login, clear it, restore the target's saved login.
//! 5. If the restore fails, roll the backup back into place.
//! 6. Optionally launch the platform.
//!
//! Steam switches by flipping flags in `loginusers.vdf`; Epic by rewriting the
//! RememberMe token (capturing the outgoing account's rotated token first, but
//! only when the launcher confirmed it).

use crate::host::Host;
use crate::ident::{id_from_text, spec_id_from_text, IdError};
use crate::model::{opt_view, Account, PlatformDef, SwitchOutcome, UniqueId};
use crate::store::Store;
use vstd::prelude::*;

verus! {

/// Default time allowed for a platform's processes to exit.
pub const DEFAULT_EXIT_TIMEOUT_SECS: u64 = 10;

/// How often to re-check whether the processes have exited.
pub const EXIT_POLL_INTERVAL_MS: u64 = 100;

/// The kind of operation a run performs.
#[derive(Clone, Copy)]
pub enum Flow {
    /// Generic file/registry switch to a saved account.
    Switch,
    /// Clear the live login and launch, for signing into a new account.
    NewLogin,
    /// Launch only.
    Launch,
    /// Steam: flip `loginusers.vdf` flags and `AutoLoginUser`.
    SteamSwitch,
    /// Epic: write the target's RememberMe token.
    EpicSwitch,
    /// Epic: clear the RememberMe token and launch.
    EpicNewLogin,
    /// Epic: refresh the saved token of the active account.
    EpicRenew,
}

/// Where a run is.
#[derive(Clone, Copy)]
pub enum Stage {
    Killing,
    Waiting,
    ReadingCurrent,
    Listing,
    Capturing,
    BackingUp,
    Clearing,
    Restoring,
    RollingBack,
    Launching,
    Finished,
}

/// A step for the caller to perform.
#[derive(Clone, Copy)]
pub enum Action {
    /// End the platform's processes (`Host::kill_processes`).
    KillProcesses,
    /// Poll until they exit, up to the run's timeout; answer `Exited`.
    WaitForExit,
    /// Read the current account; answer `Current` (Epic also reports whether
    /// a live token is present).
    ReadCurrent,
    /// List the saved accounts of the run's platform; answer `Accounts`.
    ListAccounts,
    /// Save the current account's live login under its id.
    CaptureCurrent,
    /// Epic: save the current account's live token unless it was planted for
    /// another account (then skip the capture).
    CaptureCurrentIfTrusted,
    /// Snapshot the live login so a failed restore can be rolled back.
    BackupLive,
    /// Delete the live login.
    ClearLogin,
    /// Put the target's saved login in place (Steam: flip flags; Epic: write token).
    RestoreTarget,
    /// Roll the snapshot back after a failed restore.
    RestoreBackup,
    /// Launch the platform; answer `Launched` (whether a launcher was found).
    Launch,
    /// The run is over; its outcome is in [`Run::outcome`].
    Finish,
}

/// The result of the last action.
pub enum Event {
    /// It succeeded.
    Done,
    /// It failed, with a message.
    Failed(String),
    /// Whether the processes exited in time.
    Exited(bool),
    /// The current account id, and whether a live login token is present (Epic).
    Current(Option<String>, bool),
    /// The ids of the platform's saved accounts.
    Accounts(Vec<String>),
    /// Whether the platform was launched.
    Launched(bool),
}

/// Why a run failed.
#[derive(Clone, Copy)]
pub enum Failure {
    /// The processes were still running when the timeout elapsed.
    StillRunning,
    /// A step failed (its message is the run's last error).
    StepFailed,
    /// The restore failed and the previous login was rolled back.
    RolledBack,
    /// The restore failed and so did the rollback.
    RollbackFailed,
    /// An event did not answer the run's last action.
    UnexpectedEvent,
}

/// How a run ended.
#[derive(Clone, Copy)]
pub enum Outcome {
    /// The target is now the live login.
    Switched { launched: bool },
    /// The target was already the live login.
    AlreadyActive { launched: bool },
    /// The login was cleared (new login) or nothing was switched (launch only).
    Opened { launched: bool },
    /// The renew run finished (a failed capture is skipped).
    Renewed,
    /// The run failed.
    Failed(Failure),
}

/// A switch in progress.
pub struct Run {
    pub flow: Flow,
    pub stage: Stage,
    /// Saved-store platform id.
    pub platform: String,
    /// Platform name, for messages.
    pub name: String,
    /// The target account (SteamID for Steam).
    pub target: String,
    /// Launch the platform at the end.
    pub auto_start: bool,
    /// Process image names to end.
    pub exes: Vec<String>,
    /// How long to wait for them.
    pub timeout_secs: u64,
    /// The account found logged in, once read.
    pub current: Option<String>,
    /// The target was already the live login.
    pub already_active: bool,
    /// Messages of failed steps, in order.
    pub errors: Vec<String>,
    /// How the run ended, once finished.
    pub outcome: Option<Outcome>,
}

/// The event's value, messages and strings reduced to what decides.
pub enum EventV {
    Done,
    Failed,
    Exited(bool),
    Current(Option<Seq<char>>, bool),
    Accounts(Seq<Seq<char>>),
    Launched(bool),
}

/// Value of an event.
pub open spec fn event_view(e: Event) -> EventV {
    match e {
        Event::Done => EventV::Done,
        Event::Failed(_) => EventV::Failed,
        Event::Exited(b) => EventV::Exited(b),
        Event::Current(c, t) => EventV::Current(opt_view(c), t),
        Event::Accounts(ids) => EventV::Accounts(ids@.map_values(|s: String| s@)),
        Event::Launched(b) => EventV::Launched(b),
    }
}

/// What decides a run's next step.
pub struct RunV {
    pub flow: Flow,
    pub stage: Stage,
    pub target: Seq<char>,
    pub auto_start: bool,
    pub current: Option<Seq<char>>,
    pub already_active: bool,
    pub outcome: Option<Outcome>,
}

impl Run {
    /// The deciding part of the run.
    pub open spec fn view_run(&self) -> RunV {
        RunV {
            flow: self.flow,
            stage: self.stage,
            target: self.target@,
            auto_start: self.auto_start,
            current: opt_view(self.current),
            already_active: self.already_active,
            outcome: self.outcome,
        }
    }
}

/// The run finished with `o`.
pub open spec fn finish(r: RunV, o: Outcome) -> (RunV, Action) {
    (RunV { stage: Stage::Finished, outcome: Some(o), ..r }, Action::Finish)
}

/// The run failed.
pub open spec fn fail(r: RunV, f: Failure) -> (RunV, Action) {
    finish(r, Outcome::Failed(f))
}

/// The run moves to `stage` and asks for `a`.
pub open spec fn go(r: RunV, stage: Stage, a: Action) -> (RunV, Action) {
    (RunV { stage, ..r }, a)
}

/// The launch step: launch when auto-start is on, else finish unlaunched.
pub open spec fn to_launch(r: RunV) -> (RunV, Action) {
    if r.auto_start {
        go(r, Stage::Launching, Action::Launch)
    } else {
        finish(r, done_outcome(r, false))
    }
}

/// The successful outcome of a run of this flow.
pub open spec fn done_outcome(r: RunV, launched: bool) -> Outcome {
    if r.already_active {
        Outcome::AlreadyActive { launched }
    } else {
        match r.flow {
            Flow::Switch | Flow::SteamSwitch | Flow::EpicSwitch => Outcome::Switched { launched },
            Flow::EpicRenew => Outcome::Renewed,
            _ => Outcome::Opened { launched },
        }
    }
}

/// The step after the processes exited.
pub open spec fn after_stopped(r: RunV) -> (RunV, Action) {
    match r.flow {
        Flow::SteamSwitch => go(r, Stage::Restoring, Action::RestoreTarget),
        Flow::Launch => to_launch(r),
        _ => go(r, Stage::ReadingCurrent, Action::ReadCurrent),
    }
}

/// The step after the current account was read.
pub open spec fn after_current(r: RunV, cur: Option<Seq<char>>, live: bool) -> (RunV, Action) {
    let r = RunV { current: cur, ..r };
    match r.flow {
        Flow::Switch => match cur {
            None => go(r, Stage::BackingUp, Action::BackupLive),
            Some(c) => if c == r.target {
                to_launch(RunV { already_active: true, ..r })
            } else {
                go(r, Stage::Listing, Action::ListAccounts)
            },
        },
        Flow::EpicSwitch => if cur == Some(r.target) && live {
            to_launch(RunV { already_active: true, ..r })
        } else if cur is Some && cur != Some(r.target) {
            go(r, Stage::Listing, Action::ListAccounts)
        } else {
            go(r, Stage::Restoring, Action::RestoreTarget)
        },
        Flow::EpicRenew => match cur {
            None => finish(r, Outcome::Renewed),
            Some(_) => go(r, Stage::Listing, Action::ListAccounts),
        },
        _ => match cur {
            None => go(r, Stage::Clearing, Action::ClearLogin),
            Some(_) => go(r, Stage::Listing, Action::ListAccounts),
        },
    }
}

/// The step after the saved accounts were listed: capture the current
/// account only when it is a saved one.
pub open spec fn after_listing(r: RunV, ids: Seq<Seq<char>>) -> (RunV, Action) {
    let saved_current = r.current is Some && ids.contains(r.current.unwrap());
    match r.flow {
        Flow::Switch => if saved_current {
            go(r, Stage::Capturing, Action::CaptureCurrent)
        } else {
            go(r, Stage::BackingUp, Action::BackupLive)
        },
        Flow::EpicSwitch => if saved_current {
            go(r, Stage::Capturing, Action::CaptureCurrentIfTrusted)
        } else {
            go(r, Stage::Restoring, Action::RestoreTarget)
        },
        Flow::EpicRenew => if saved_current {
            go(r, Stage::Capturing, Action::CaptureCurrentIfTrusted)
        } else {
            finish(r, Outcome::Renewed)
        },
        _ => if saved_current {
            go(r, Stage::Capturing, Action::CaptureCurrent)
        } else {
            go(r, Stage::Clearing, Action::ClearLogin)
        },
    }
}

/// The step after a successful capture.
pub open spec fn after_capture(r: RunV) -> (RunV, Action) {
    match r.flow {
        Flow::Switch => go(r, Stage::BackingUp, Action::BackupLive),
        Flow::EpicSwitch => go(r, Stage::Restoring, Action::RestoreTarget),
        Flow::EpicRenew => finish(r, Outcome::Renewed),
        _ => go(r, Stage::Clearing, Action::ClearLogin),
    }
}

/// The run's next state and step, given the result of its last step.
pub open spec fn spec_next(r: RunV, e: EventV) -> (RunV, Action) {
    match r.stage {
        Stage::Finished => (r, Action::Finish),
        Stage::Killing => match e {
            EventV::Done => go(r, Stage::Waiting, Action::WaitForExit),
            EventV::Failed => fail(r, Failure::StepFailed),
            _ => fail(r, Failure::UnexpectedEvent),
        },
        Stage::Waiting => match e {
            EventV::Exited(true) => after_stopped(r),
            EventV::Exited(false) => fail(r, Failure::StillRunning),
            _ => fail(r, Failure::UnexpectedEvent),
        },
        Stage::ReadingCurrent => match e {
            EventV::Current(c, live) => after_current(r, c, live),
            EventV::Failed => fail(r, Failure::StepFailed),
            _ => fail(r, Failure::UnexpectedEvent),
        },
        Stage::Listing => match e {
            EventV::Accounts(ids) => after_listing(r, ids),
            EventV::Failed => fail(r, Failure::StepFailed),
            _ => fail(r, Failure::UnexpectedEvent),
        },
        Stage::Capturing => match e {
            EventV::Done => after_capture(r),
            EventV::Failed => if r.flow is EpicRenew {
                finish(r, Outcome::Renewed)
            } else {
                fail(r, Failure::StepFailed)
            },
            _ => fail(r, Failure::UnexpectedEvent),
        },
        Stage::BackingUp => match e {
            EventV::Done => go(r, Stage::Clearing, Action::ClearLogin),
            EventV::Failed => fail(r, Failure::StepFailed),
            _ => fail(r, Failure::UnexpectedEvent),
        },
        Stage::Clearing => match e {
            EventV::Done => if r.flow is Switch {
                go(r, Stage::Restoring, Action::RestoreTarget)
            } else {
                to_launch(r)
            },
            EventV::Failed => fail(r, Failure::StepFailed),
            _ => fail(r, Failure::UnexpectedEvent),
        },
        Stage::Restoring => match e {
            EventV::Done => to_launch(r),
            EventV::Failed => if r.flow is Switch {
                go(r, Stage::RollingBack, Action::RestoreBackup)
            } else {
                fail(r, Failure::StepFailed)
            },
            _ => fail(r, Failure::UnexpectedEvent),
        },
        Stage::RollingBack => match e {
            EventV::Done => fail(r, Failure::RolledBack),
            EventV::Failed => fail(r, Failure::RollbackFailed),
            _ => fail(r, Failure::UnexpectedEvent),
        },
        Stage::Launching => match e {
            EventV::Launched(b) => finish(r, done_outcome(r, b)),
            EventV::Failed => fail(r, Failure::StepFailed),
            _ => fail(r, Failure::UnexpectedEvent),
        },
    }
}

/// Whether some flag is set.
fn any_true(v: &Vec<bool>) -> (b: bool)
    ensures
        b == exists|i: int| 0 <= i < v@.len() && #[trigger] v@[i],
{
    let mut i: usize = 0;
    while i < v.len()
        invariant
            i <= v.len(),
            forall|k: int| 0 <= k < i ==> !#[trigger] v@[k],
        decreases v.len() - i,
    {
        if v[i] {
            return true;
        }
        i = i + 1;
    }
    false
}

fn contains_id(ids: &Vec<String>, id: &String) -> (b: bool)
    ensures
        b == ids@.map_values(|s: String| s@).contains(id@),
{
    let ghost v = ids@.map_values(|s: String| s@);
    let mut i: usize = 0;
    while i < ids.len()
        invariant
            i <= ids.len(),
            v == ids@.map_values(|s: String| s@),
            forall|k: int| 0 <= k < i ==> #[trigger] v[k] != id@,
        decreases ids.len() - i,
    {
        assert(v[i as int] == ids@[i as int]@);
        if ids[i] == *id {
            assert(v.contains(v[i as int]));
            return true;
        }
        i = i + 1;
    }
    false
}

impl Run {
    fn new(flow: Flow, stage: Stage, plat: &PlatformDef, platform: &str, target: &str, auto_start: bool) -> (r: Run)
        ensures
            r.flow == flow,
            r.stage == stage,
            r.target@ == target@,
            r.platform@ == platform@,
            r.name@ == plat.name@,
            r.auto_start == auto_start,
            r.current is None,
            !r.already_active,
            r.outcome is None,
            r.errors@.len() == 0,
            r.exes@.map_values(|s: String| s@) == plat.exes_to_end@.map_values(|s: String| s@),
            r.timeout_secs == exit_timeout(plat.exit_timeout_secs),
    {
        let exes = crate::model::copy_strings(&plat.exes_to_end);
        assert(exes@.map_values(|s: String| s@) =~= plat.exes_to_end@.map_values(|s: String| s@));
        Run {
            flow,
            stage,
            platform: String::from_str(platform),
            name: plat.name.clone(),
            target: String::from_str(target),
            auto_start,
            exes,
            timeout_secs: match plat.exit_timeout_secs {
                Some(t) => t,
                None => DEFAULT_EXIT_TIMEOUT_SECS,
            },
            current: None,
            already_active: false,
            errors: Vec::new(),
            outcome: None,
        }
    }

    fn finish_with(&mut self, o: Outcome) -> (a: Action)
        ensures
            final(self).view_run() == (RunV { stage: Stage::Finished, outcome: Some(o), ..old(self).view_run() }),
            a == Action::Finish,
            final(self).errors == old(self).errors,
            final(self).platform == old(self).platform,
            final(self).name == old(self).name,
            final(self).exes == old(self).exes,
            final(self).timeout_secs == old(self).timeout_secs,
    {
        self.stage = Stage::Finished;
        self.outcome = Some(o);
        Action::Finish
    }

    fn go_to(&mut self, stage: Stage, a: Action) -> (r: Action)
        ensures
            final(self).view_run() == (RunV { stage, ..old(self).view_run() }),
            r == a,
            final(self).errors == old(self).errors,
            final(self).platform == old(self).platform,
            final(self).name == old(self).name,
            final(self).exes == old(self).exes,
            final(self).timeout_secs == old(self).timeout_secs,
    {
        self.stage = stage;
        a
    }

    fn launch_step(&mut self) -> (a: Action)
        ensures
            (final(self).view_run(), a) == to_launch(old(self).view_run()),
            final(self).errors == old(self).errors,
            final(self).platform == old(self).platform,
            final(self).name == old(self).name,
            final(self).exes == old(self).exes,
            final(self).timeout_secs == old(self).timeout_secs,
    {
        if self.auto_start {
            self.go_to(Stage::Launching, Action::Launch)
        } else {
            let o = self.success(false);
            self.finish_with(o)
        }
    }

    fn success(&self, launched: bool) -> (o: Outcome)
        ensures
            o == done_outcome(self.view_run(), launched),
    {
        if self.already_active {
            Outcome::AlreadyActive { launched }
        } else {
            match self.flow {
                Flow::Switch | Flow::SteamSwitch | Flow::EpicSwitch => Outcome::Switched { launched },
                Flow::EpicRenew => Outcome::Renewed,
                _ => Outcome::Opened { launched },
            }
        }
    }

    /// Answers the last step's result with the next step. A failed step's
    /// message is recorded in `errors`.
    pub fn next(&mut self, e: Event) -> (a: Action)
        ensures
            (final(self).view_run(), a) == spec_next(old(self).view_run(), event_view(e)),
            final(self).errors@ == match e {
                Event::Failed(m) => if old(self).stage is Finished {
                    old(self).errors@
                } else {
                    old(self).errors@.push(m)
                },
                _ => old(self).errors@,
            },
            final(self).platform == old(self).platform,
            final(self).name == old(self).name,
            final(self).exes == old(self).exes,
            final(self).timeout_secs == old(self).timeout_secs,
    {
        let ghost ev = event_view(e);
        if let Stage::Finished = self.stage {
            return Action::Finish;
        }
        if let Event::Failed(m) = &e {
            self.errors.push(m.clone());
        }
        let a = match self.stage {
            Stage::Finished => Action::Finish,
            Stage::Killing => match e {
                Event::Done => self.go_to(Stage::Waiting, Action::WaitForExit),
                Event::Failed(_) => self.finish_with(Outcome::Failed(Failure::StepFailed)),
                _ => self.finish_with(Outcome::Failed(Failure::UnexpectedEvent)),
            },
            Stage::Waiting => match e {
                Event::Exited(true) => match self.flow {
                    Flow::SteamSwitch => self.go_to(Stage::Restoring, Action::RestoreTarget),
                    Flow::Launch => self.launch_step(),
                    _ => self.go_to(Stage::ReadingCurrent, Action::ReadCurrent),
                },
                Event::Exited(false) => self.finish_with(Outcome::Failed(Failure::StillRunning)),
                _ => self.finish_with(Outcome::Failed(Failure::UnexpectedEvent)),
            },
            Stage::ReadingCurrent => match e {
                Event::Current(cur, live) => {
                    let is_target = match &cur {
                        Some(c) => *c == self.target,
                        None => false,
                    };
                    let some = cur.is_some();
                    self.current = cur;
                    match self.flow {
                        Flow::Switch => if !some {
                            self.go_to(Stage::BackingUp, Action::BackupLive)
                        } else if is_target {
                            self.already_active = true;
                            self.launch_step()
                        } else {
                            self.go_to(Stage::Listing, Action::ListAccounts)
                        },
                        Flow::EpicSwitch => if is_target && live {
                            self.already_active = true;
                            self.launch_step()
                        } else if some && !is_target {
                            self.go_to(Stage::Listing, Action::ListAccounts)
                        } else {
                            self.go_to(Stage::Restoring, Action::RestoreTarget)
                        },
                        Flow::EpicRenew => if !some {
                            self.finish_with(Outcome::Renewed)
                        } else {
                            self.go_to(Stage::Listing, Action::ListAccounts)
                        },
                        _ => if !some {
                            self.go_to(Stage::Clearing, Action::ClearLogin)
                        } else {
                            self.go_to(Stage::Listing, Action::ListAccounts)
                        },
                    }
                },
                Event::Failed(_) => self.finish_with(Outcome::Failed(Failure::StepFailed)),
                _ => self.finish_with(Outcome::Failed(Failure::UnexpectedEvent)),
            },
            Stage::Listing => match e {
                Event::Accounts(ids) => {
                    let is_saved = match &self.current {
                        Some(c) => contains_id(&ids, c),
                        None => false,
                    };
                    match self.flow {
                        Flow::Switch => if is_saved {
                            self.go_to(Stage::Capturing, Action::CaptureCurrent)
                        } else {
                            self.go_to(Stage::BackingUp, Action::BackupLive)
                        },
                        Flow::EpicSwitch => if is_saved {
                            self.go_to(Stage::Capturing, Action::CaptureCurrentIfTrusted)
                        } else {
                            self.go_to(Stage::Restoring, Action::RestoreTarget)
                        },
                        Flow::EpicRenew => if is_saved {
                            self.go_to(Stage::Capturing, Action::CaptureCurrentIfTrusted)
                        } else {
                            self.finish_with(Outcome::Renewed)
                        },
                        _ => if is_saved {
                            self.go_to(Stage::Capturing, Action::CaptureCurrent)
                        } else {
                            self.go_to(Stage::Clearing, Action::ClearLogin)
                        },
                    }
                },
                Event::Failed(_) => self.finish_with(Outcome::Failed(Failure::StepFailed)),
                _ => self.finish_with(Outcome::Failed(Failure::UnexpectedEvent)),
            },
            Stage::Capturing => match e {
                Event::Done => match self.flow {
                    Flow::Switch => self.go_to(Stage::BackingUp, Action::BackupLive),
                    Flow::EpicSwitch => self.go_to(Stage::Restoring, Action::RestoreTarget),
                    Flow::EpicRenew => self.finish_with(Outcome::Renewed),
                    _ => self.go_to(Stage::Clearing, Action::ClearLogin),
                },
                Event::Failed(_) => if let Flow::EpicRenew = self.flow {
                    self.finish_with(Outcome::Renewed)
                } else {
                    self.finish_with(Outcome::Failed(Failure::StepFailed))
                },
                _ => self.finish_with(Outcome::Failed(Failure::UnexpectedEvent)),
            },
            Stage::BackingUp => match e {
                Event::Done => self.go_to(Stage::Clearing, Action::ClearLogin),
                Event::Failed(_) => self.finish_with(Outcome::Failed(Failure::StepFailed)),
                _ => self.finish_with(Outcome::Failed(Failure::UnexpectedEvent)),
            },
            Stage::Clearing => match e {
                Event::Done => if let Flow::Switch = self.flow {
                    self.go_to(Stage::Restoring, Action::RestoreTarget)
                } else {
                    self.launch_step()
                },
                Event::Failed(_) => self.finish_with(Outcome::Failed(Failure::StepFailed)),
                _ => self.finish_with(Outcome::Failed(Failure::UnexpectedEvent)),
            },
            Stage::Restoring => match e {
                Event::Done => self.launch_step(),
                Event::Failed(_) => if let Flow::Switch = self.flow {
                    self.go_to(Stage::RollingBack, Action::RestoreBackup)
                } else {
                    self.finish_with(Outcome::Failed(Failure::StepFailed))
                },
                _ => self.finish_with(Outcome::Failed(Failure::UnexpectedEvent)),
            },
            Stage::RollingBack => match e {
                Event::Done => self.finish_with(Outcome::Failed(Failure::RolledBack)),
                Event::Failed(_) => self.finish_with(Outcome::Failed(Failure::RollbackFailed)),
                _ => self.finish_with(Outcome::Failed(Failure::UnexpectedEvent)),
            },
            Stage::Launching => match e {
                Event::Launched(b) => {
                    let o = self.success(b);
                    self.finish_with(o)
                },
                Event::Failed(_) => self.finish_with(Outcome::Failed(Failure::StepFailed)),
                _ => self.finish_with(Outcome::Failed(Failure::UnexpectedEvent)),
            },
        };
        a
    }
}

/// The time allowed for exiting: the platform's own, else the default.
pub open spec fn exit_timeout(t: Option<u64>) -> u64 {
    match t {
        Some(t) => t,
        None => DEFAULT_EXIT_TIMEOUT_SECS,
    }
}

/// How many times a wait for exiting processes polls within `timeout_secs`
/// (one poll every [`EXIT_POLL_INTERVAL_MS`]): at least once.
pub fn exit_poll_attempts(timeout_secs: u64) -> (r: u64)
    requires
        timeout_secs * 1000 <= u64::MAX,
    ensures
        r == (if (timeout_secs * 1000) / (EXIT_POLL_INTERVAL_MS as int) >= 1 {
            (timeout_secs * 1000) / (EXIT_POLL_INTERVAL_MS as int)
        } else {
            1
        }),
{
    let n = timeout_secs * 1000 / EXIT_POLL_INTERVAL_MS;
    if n >= 1 {
        n
    } else {
        1
    }
}

/// How a wait for the platform's processes goes on after a poll.
pub enum WaitStep {
    /// Still running: sleep [`EXIT_POLL_INTERVAL_MS`], then poll again.
    Sleep,
    /// The wait is over: whether the processes have exited.
    Exited(bool),
}

/// A wait for the platform's processes to exit: polls with a sleep between
/// them, up to the exit timeout, and one last poll after the last sleep.
pub struct ExitWait {
    /// Sleeps left before the last poll.
    pub sleeps_left: u64,
}

impl ExitWait {
    /// A wait of up to `timeout_secs`: [`exit_poll_attempts`] sleeps.
    pub fn new(timeout_secs: u64) -> (w: ExitWait)
        requires
            timeout_secs * 1000 <= u64::MAX,
        ensures
            w.sleeps_left == (if (timeout_secs * 1000) / (EXIT_POLL_INTERVAL_MS as int) >= 1 {
                (timeout_secs * 1000) / (EXIT_POLL_INTERVAL_MS as int)
            } else {
                1
            }),
    {
        ExitWait { sleeps_left: exit_poll_attempts(timeout_secs) }
    }

    /// The short wait a kill gives the platform's processes to close on
    /// their own before they are forced: 15 sleeps of
    /// [`EXIT_POLL_INTERVAL_MS`] (about 1.5 s).
    pub fn grace() -> (w: ExitWait)
        ensures
            w.sleeps_left == 15,
    {
        ExitWait { sleeps_left: 15 }
    }

    /// Answers a poll, `running` telling whether a process still runs: the
    /// wait is over when none does, or when no sleep is left; else one more
    /// sleep.
    pub fn next(&mut self, running: bool) -> (step: WaitStep)
        ensures
            !running ==> step == WaitStep::Exited(true) && final(self).sleeps_left == old(self).sleeps_left,
            running && old(self).sleeps_left == 0 ==> step == WaitStep::Exited(false) && final(self).sleeps_left
                == 0,
            running && old(self).sleeps_left > 0 ==> step == WaitStep::Sleep && final(self).sleeps_left == old(
                self,
            ).sleeps_left - 1,
    {
        if !running {
            WaitStep::Exited(true)
        } else if self.sleeps_left == 0 {
            WaitStep::Exited(false)
        } else {
            self.sleeps_left = self.sleeps_left - 1;
            WaitStep::Sleep
        }
    }
}

/// A run just started by one of the [`Engine`] operations.
pub open spec fn started(r: Run, flow: Flow, plat: PlatformDef, platform: Seq<char>, target: Seq<char>, auto_start: bool) -> bool {
    &&& r.flow == flow
    &&& r.platform@ == platform
    &&& r.target@ == target
    &&& r.name@ == plat.name@
    &&& r.auto_start == auto_start
    &&& r.current is None
    &&& !r.already_active
    &&& r.errors@.len() == 0
    &&& r.exes@.map_values(|s: String| s@) == plat.exes_to_end@.map_values(|s: String| s@)
    &&& r.timeout_secs == exit_timeout(plat.exit_timeout_secs)
}

/// Why reading the current account failed.
pub enum EngineError {
    /// The host's registry read failed.
    Host(String),
    /// The platform's `unique_id` regex does not compile.
    InvalidRegex,
}

/// The account-switch engine: a host and the saved-account store.
pub struct Engine<H: Host> {
    host: H,
    store: Store,
}

impl<H: Host> Engine<H> {
    /// The host the engine reads through.
    pub closed spec fn host_of(&self) -> H {
        self.host
    }

    /// The engine's store.
    pub closed spec fn store_of(&self) -> Store {
        self.store
    }

    /// An engine over `host` and `store`.
    pub fn new(host: H, store: Store) -> (e: Engine<H>)
        ensures
            e.host_of() == host,
            e.store_of().root@ == store.root@,
    {
        Engine { host, store }
    }

    /// The saved-account store.
    pub fn store(&self) -> (s: &Store)
        ensures
            s.root@ == self.store_of().root@,
    {
        &self.store
    }

    /// The host.
    pub fn host(&self) -> (h: &H)
        ensures
            *h == self.host_of(),
    {
        &self.host
    }

    /// The host, for performing a step.
    pub fn host_mut(&mut self) -> (h: &mut H)
        ensures
            *h == old(self).host_of(),
            final(self).store_of() == old(self).store_of(),
            final(self).host_of() == *final(h),
    {
        &mut self.host
    }

    /// Expands `%VAR%` placeholders through the host.
    pub fn expand_vars(&self, input: &str) -> (r: String)
        ensures
            self.host_of().expands(input@, r@),
    {
        self.host.expand_vars(input)
    }

    /// The currently logged-in account of a platform: the registry value for
    /// a registry `unique_id` (read through the host), else the id found in
    /// the file's text, given it when it could be read.
    pub fn current_id(&self, plat: &PlatformDef, file_text: Option<String>) -> (r: Result<Option<String>, EngineError>)
        ensures
            !(plat.unique_id is Registry) ==> match spec_id_from_text(plat.unique_id, opt_view(file_text)) {
                Ok(o) => r matches Ok(x) && opt_view(x) == o,
                Err(_) => r matches Err(EngineError::InvalidRegex),
            },
            plat.unique_id matches UniqueId::Registry { key, value } ==> match r {
                Ok(o) => self.host_of().reads(key@, value@, Ok(opt_view(o))),
                Err(EngineError::Host(m)) => self.host_of().reads(key@, value@, Err(m@)),
                Err(EngineError::InvalidRegex) => false,
            },
    {
        match &plat.unique_id {
            UniqueId::Registry { key, value } => match self.host.read_registry(key.as_str(), value.as_str()) {
                Ok(v) => Ok(v),
                Err(e) => Err(EngineError::Host(e.message)),
            },
            _ => match id_from_text(&plat.unique_id, file_text) {
                Ok(v) => Ok(v),
                Err(IdError::InvalidRegex) => Err(EngineError::InvalidRegex),
            },
        }
    }

    /// Starts a switch of a generic platform to the saved `account_id`: the
    /// first step ends the platform's processes.
    pub fn switch(&self, plat: &PlatformDef, account_id: &str, auto_start: bool) -> (r: (Run, Action))
        ensures
            started(r.0, Flow::Switch, *plat, plat.id@, account_id@, auto_start),
            r.0.stage == Stage::Killing,
            r.0.outcome is None,
            r.1 == Action::KillProcesses,
    {
        (Run::new(Flow::Switch, Stage::Killing, plat, plat.id.as_str(), account_id, auto_start), Action::KillProcesses)
    }

    /// Starts a new-account login: stop the platform, save the current
    /// account if it is a saved one, clear the login, launch.
    pub fn begin_new_login(&self, plat: &PlatformDef, auto_start: bool) -> (r: (Run, Action))
        ensures
            started(r.0, Flow::NewLogin, *plat, plat.id@, Seq::empty(), auto_start),
            r.0.stage == Stage::Killing,
            r.0.outcome is None,
            r.1 == Action::KillProcesses,
    {
        proof {
            reveal_strlit("");
            assert(""@ =~= Seq::<char>::empty());
        }
        (Run::new(Flow::NewLogin, Stage::Killing, plat, plat.id.as_str(), "", auto_start), Action::KillProcesses)
    }

    /// Launches the platform's app when `auto_start` is set.
    pub fn launch(&self, plat: &PlatformDef, auto_start: bool) -> (r: (Run, Action))
        ensures
            started(r.0, Flow::Launch, *plat, plat.id@, Seq::empty(), auto_start),
            auto_start ==> r.0.stage == Stage::Launching && r.0.outcome is None && r.1 == Action::Launch,
            !auto_start ==> r.0.stage == Stage::Finished && r.0.outcome == Some(Outcome::Opened { launched: false })
                && r.1 == Action::Finish,
    {
        proof {
            reveal_strlit("");
            assert(""@ =~= Seq::<char>::empty());
        }
        let mut run = Run::new(Flow::Launch, Stage::Launching, plat, plat.id.as_str(), "", auto_start);
        let a = run.launch_step();
        (run, a)
    }

    /// Starts a Steam switch to `steamid`.
    pub fn switch_steam(&self, plat: &PlatformDef, steamid: &str, auto_start: bool) -> (r: (Run, Action))
        ensures
            started(r.0, Flow::SteamSwitch, *plat, plat.id@, steamid@, auto_start),
            r.0.stage == Stage::Killing,
            r.0.outcome is None,
            r.1 == Action::KillProcesses,
    {
        (Run::new(Flow::SteamSwitch, Stage::Killing, plat, plat.id.as_str(), steamid, auto_start), Action::KillProcesses)
    }

    /// Starts an Epic switch to `account_id`.
    pub fn switch_epic(&self, plat: &PlatformDef, account_id: &str, auto_start: bool) -> (r: (Run, Action))
        ensures
            started(r.0, Flow::EpicSwitch, *plat, crate::epic::PLATFORM@, account_id@, auto_start),
            r.0.stage == Stage::Killing,
            r.0.outcome is None,
            r.1 == Action::KillProcesses,
    {
        (Run::new(Flow::EpicSwitch, Stage::Killing, plat, crate::epic::PLATFORM, account_id, auto_start), Action::KillProcesses)
    }

    /// Starts clearing Epic's live login for a fresh sign-in.
    pub fn epic_new_login(&self, plat: &PlatformDef, auto_start: bool) -> (r: (Run, Action))
        ensures
            started(r.0, Flow::EpicNewLogin, *plat, crate::epic::PLATFORM@, Seq::empty(), auto_start),
            r.0.stage == Stage::Killing,
            r.0.outcome is None,
            r.1 == Action::KillProcesses,
    {
        proof {
            reveal_strlit("");
            assert(""@ =~= Seq::<char>::empty());
        }
        (Run::new(Flow::EpicNewLogin, Stage::Killing, plat, crate::epic::PLATFORM, "", auto_start), Action::KillProcesses)
    }

    /// Starts refreshing the saved token of the active Epic account: no
    /// process is stopped; the first step reads the current account.
    pub fn epic_renew(&self) -> (r: (Run, Action))
        ensures
            r.0.flow == Flow::EpicRenew,
            r.0.platform@ == crate::epic::PLATFORM@,
            r.0.stage == Stage::ReadingCurrent,
            !r.0.auto_start,
            r.0.current is None,
            !r.0.already_active,
            r.0.outcome is None,
            r.0.errors@.len() == 0,
            r.1 == Action::ReadCurrent,
    {
        let run = Run {
            flow: Flow::EpicRenew,
            stage: Stage::ReadingCurrent,
            platform: String::from_str(crate::epic::PLATFORM),
            name: String::from_str(crate::epic::PLATFORM),
            target: String::new(),
            auto_start: false,
            exes: Vec::new(),
            timeout_secs: DEFAULT_EXIT_TIMEOUT_SECS,
            current: None,
            already_active: false,
            errors: Vec::new(),
            outcome: None,
        };
        (run, Action::ReadCurrent)
    }

    /// Whether the platform looks installed or used on this machine: its
    /// launcher resolves to an existing file (`exe_present`), or one of its
    /// URL-protocol schemes is registered (`schemes_registered`, one per such
    /// locator), or some login artifact's folder or registry value exists
    /// (`artifacts_present`, one per artifact).
    pub fn is_installed(&self, exe_present: bool, schemes_registered: &Vec<bool>, artifacts_present: &Vec<bool>) -> (b: bool)
        ensures
            b == (exe_present || (exists|i: int| 0 <= i < schemes_registered@.len() && #[trigger] schemes_registered@[i])
                || (exists|i: int| 0 <= i < artifacts_present@.len() && #[trigger] artifacts_present@[i])),
    {
        exe_present || any_true(schemes_registered) || any_true(artifacts_present)
    }

    /// The accounts Steam knows about, given `loginusers.vdf` when readable.
    pub fn steam_accounts(&self, loginusers: Option<&str>) -> (r: Vec<Account>)
        ensures
            loginusers is None ==> r@.len() == 0,
            loginusers matches Some(t) ==> r@.map_values(|a: Account| a@) == crate::vdf::spec_parse(t@).map_values(
                |b: crate::vdf::BlockV| crate::steam::block_account(b),
            ),
    {
        crate::steam::list_accounts(loginusers)
    }

    /// The SteamID Steam will auto-login, given `AutoLoginUser` and
    /// `loginusers.vdf` when readable.
    pub fn steam_current(&self, auto_login_user: Option<String>, loginusers: Option<&str>) -> (r: Option<String>)
        ensures
            loginusers is None ==> r is None,
            loginusers matches Some(t) ==> opt_view(r) == crate::steam::spec_current(
                crate::model::or_empty(auto_login_user),
                crate::vdf::spec_parse(t@),
            ),
    {
        crate::steam::current(auto_login_user, loginusers)
    }

    /// Epic's signed-in account, from the `AccountId` registry value.
    pub fn epic_current(&self, registry_value: Option<String>) -> (r: Option<String>)
        ensures
            registry_value is None ==> r is None,
            registry_value matches Some(v) ==> (r matches Some(id) ==> id@ == crate::text::trim(v@) && id@.len() > 0),
            registry_value matches Some(v) ==> (r is None <==> crate::text::trim(v@).len() == 0),
    {
        crate::epic::current_id(registry_value)
    }

    /// A user name from the Epic logs' texts, newest first.
    pub fn epic_username(&self, log_texts: &Vec<String>) -> (r: Option<String>)
        ensures
            opt_view(r) == crate::ident::spec_username(log_texts@.map_values(|t: String| t@)),
    {
        crate::ident::username_from_logs(log_texts)
    }

    /// The Epic token to save for `account_id`, given the unconfirmed account
    /// (if any) and the live token.
    pub fn capture_epic(&self, planted: Option<String>, account_id: &str, live_token: Option<String>) -> (r: Result<String, crate::epic::EpicError>)
        ensures
            (planted matches Some(p) && p@ != account_id@) ==> r matches Err(crate::epic::EpicError::PlantedForOther),
            !(planted matches Some(p) && p@ != account_id@) ==> match live_token {
                Some(t) => r matches Ok(v) && v@ == t@,
                None => r matches Err(crate::epic::EpicError::NoLiveToken),
            },
    {
        crate::epic::capture_token(planted, account_id, live_token)
    }

    /// The Epic account whose planted token was never signed in with, given
    /// the pending record, the current `AccountId` and the live token.
    pub fn epic_unconfirmed(
        &self,
        pending: Option<crate::epic::PendingSwitch>,
        current_id: Option<String>,
        live_token: Option<String>,
    ) -> (r: crate::epic::UnconfirmedCheck)
        ensures
            ({
                let p = match pending {
                    Some(p) => Some((p.account_id@, p.token_fp@)),
                    None => None,
                };
                let (acc, clear) = crate::epic::spec_unconfirmed(p, opt_view(current_id), opt_view(live_token));
                &&& r.clear_record == clear
                &&& opt_view(r.account) == acc
            }),
    {
        let r = crate::epic::unconfirmed_switch(pending, current_id, live_token);
        r
    }
}

// ---- laws of the engine -------------------------------------------------

/// A finished run stays finished, with the same outcome, whatever it is told.
pub proof fn law_finished_is_final(r: RunV, e: EventV)
    requires
        r.stage is Finished,
    ensures
        spec_next(r, e) == (r, Action::Finish),
{
}

/// Before touching a login the platform is stopped: a failed kill, or
/// processes still running after the timeout, end the run with a failure.
pub proof fn law_stop_failure_aborts(r: RunV, e: EventV)
    requires
        r.stage is Killing && e is Failed || r.stage is Waiting && e == EventV::Exited(false),
    ensures
        spec_next(r, e).0.stage is Finished,
        spec_next(r, e).0.outcome matches Some(Outcome::Failed(_)),
{
}

/// A failed capture of the outgoing account aborts the run before anything
/// is cleared or restored (a renew run simply skips it).
pub proof fn law_capture_failure_aborts(r: RunV)
    requires
        r.stage is Capturing,
        !(r.flow is EpicRenew),
    ensures
        spec_next(r, EventV::Failed).0.stage is Finished,
        spec_next(r, EventV::Failed).0.outcome == Some(Outcome::Failed(Failure::StepFailed)),
{
}

/// A failed restore in a generic switch rolls the previous login back, and
/// the run then fails, saying whether the rollback worked.
pub proof fn law_failed_restore_rolls_back(r: RunV)
    requires
        r.stage is Restoring,
        r.flow is Switch,
    ensures
        spec_next(r, EventV::Failed).1 == Action::RestoreBackup,
        spec_next(spec_next(r, EventV::Failed).0, EventV::Done).0.outcome == Some(Outcome::Failed(Failure::RolledBack)),
        spec_next(spec_next(r, EventV::Failed).0, EventV::Failed).0.outcome == Some(Outcome::Failed(Failure::RollbackFailed)),
{
}

/// Switching to the account that is already logged in disturbs nothing: the
/// run only launches (if asked) and reports the account already active.
pub proof fn law_already_active_short_circuits(r: RunV, live: bool)
    requires
        r.stage is ReadingCurrent,
        r.flow is Switch,
        !r.already_active,
    ensures
        spec_next(r, EventV::Current(Some(r.target), live)).1 == (if r.auto_start {
            Action::Launch
        } else {
            Action::Finish
        }),
        !r.auto_start ==> spec_next(r, EventV::Current(Some(r.target), live)).0.outcome == Some(
            Outcome::AlreadyActive { launched: false },
        ),
        r.auto_start ==> spec_next(spec_next(r, EventV::Current(Some(r.target), live)).0, EventV::Launched(true)).0.outcome
            == Some(Outcome::AlreadyActive { launched: true }),
{
}

/// Epic counts as already active only with a live token: an `AccountId` left
/// behind after a sign-out re-applies the saved login instead.
pub proof fn law_epic_stale_id_reapplies(r: RunV)
    requires
        r.stage is ReadingCurrent,
        r.flow is EpicSwitch,
    ensures
        spec_next(r, EventV::Current(Some(r.target), false)).1 == Action::RestoreTarget,
{
}

/// Only a saved account is captured before the login is replaced: an
/// unknown current account is never copied into the store.
pub proof fn law_only_saved_accounts_captured(r: RunV, ids: Seq<Seq<char>>)
    requires
        r.stage is Listing,
        !(r.current matches Some(c) && ids.contains(c)),
    ensures
        spec_next(r, EventV::Accounts(ids)).1 != Action::CaptureCurrent,
        spec_next(r, EventV::Accounts(ids)).1 != Action::CaptureCurrentIfTrusted,
{
}

/// The actions a run asks for, answering its steps with `events` in turn.
pub open spec fn trace(r: RunV, events: Seq<EventV>) -> Seq<Action>
    decreases events.len(),
{
    if events.len() == 0 {
        Seq::empty()
    } else {
        let (r2, a) = spec_next(r, events[0]);
        seq![a] + trace(r2, events.skip(1))
    }
}

proof fn lemma_finished_trace(r: RunV, events: Seq<EventV>)
    requires
        r.stage is Finished,
    ensures
        forall|i: int| 0 <= i < trace(r, events).len() ==> #[trigger] trace(r, events)[i] == Action::Finish,
        trace(r, events).len() == events.len(),
    decreases events.len(),
{
    if events.len() > 0 {
        lemma_finished_trace(r, events.skip(1));
    }
}

/// A login is never lost to a failed capture: once the capture of the
/// outgoing account fails, no later step of the run clears or replaces the
/// live login.
pub proof fn law_no_clear_after_failed_capture(r: RunV, events: Seq<EventV>)
    requires
        r.stage is Capturing,
        !(r.flow is EpicRenew),
        events.len() > 0,
        events[0] is Failed,
    ensures
        forall|i: int| 0 <= i < trace(r, events).len() ==> {
            let a = #[trigger] trace(r, events)[i];
            a != Action::ClearLogin && a != Action::RestoreTarget && a != Action::BackupLive
        },
{
    let (r2, a) = spec_next(r, events[0]);
    lemma_finished_trace(r2, events.skip(1));
    assert forall|i: int| 0 <= i < trace(r, events).len() implies {
        let a = #[trigger] trace(r, events)[i];
        a != Action::ClearLogin && a != Action::RestoreTarget && a != Action::BackupLive
    } by {
        if i > 0 {
            assert(trace(r, events)[i] == trace(r2, events.skip(1))[i - 1]);
        }
    }
}

// ---- runs over many steps ---------------------------------------------------

/// The run's state after `evs` answered its steps in order from `r`.
pub open spec fn run_after(r: RunV, evs: Seq<EventV>) -> RunV
    decreases evs.len(),
{
    if evs.len() == 0 {
        r
    } else {
        spec_next(run_after(r, evs.drop_last()), evs.last()).0
    }
}

/// The steps a run from `r` asks for while `evs` answer them, one per event.
pub open spec fn run_steps(r: RunV, evs: Seq<EventV>) -> Seq<Action>
    decreases evs.len(),
{
    if evs.len() == 0 {
        Seq::empty()
    } else {
        run_steps(r, evs.drop_last()).push(spec_next(run_after(r, evs.drop_last()), evs.last()).1)
    }
}

/// Some step of `acts` is `ClearLogin`.
pub open spec fn asked_clear(acts: Seq<Action>) -> bool {
    exists|j: int| 0 <= j < acts.len() && #[trigger] acts[j] is ClearLogin
}

/// One step of a new-login run: it stays a new login; it launches only from
/// clearing (or restoring, which it never enters); it enters clearing only by
/// asking to clear; it never starts restoring or rolling back.
proof fn lemma_new_login_step(s: RunV, e: EventV)
    requires
        s.flow is NewLogin,
    ensures
        spec_next(s, e).0.flow is NewLogin,
        spec_next(s, e).1 is Launch ==> s.stage is Clearing || s.stage is Restoring,
        spec_next(s, e).0.stage is Clearing ==> spec_next(s, e).1 is ClearLogin || s.stage is Clearing,
        spec_next(s, e).0.stage is Launching ==> s.stage is Clearing || s.stage is Launching || s.stage is Restoring,
        !(s.stage is Restoring || s.stage is RollingBack) ==> !(spec_next(s, e).0.stage is Restoring
            || spec_next(s, e).0.stage is RollingBack),
{
}

/// What holds at every point of a new-login run started at `Killing`.
spec fn new_login_inv(s: RunV, acts: Seq<Action>) -> bool {
    &&& s.flow is NewLogin
    &&& !(s.stage is Restoring || s.stage is RollingBack)
    &&& (s.stage is Clearing || s.stage is Launching) ==> asked_clear(acts)
    &&& forall|k: int| 0 <= k < acts.len() && #[trigger] acts[k] is Launch ==> asked_clear(acts.take(k))
}

proof fn lemma_new_login_run(r: RunV, evs: Seq<EventV>)
    requires
        r.flow is NewLogin,
        r.stage is Killing,
    ensures
        new_login_inv(run_after(r, evs), run_steps(r, evs)),
        run_steps(r, evs).len() == evs.len(),
    decreases evs.len(),
{
    if evs.len() > 0 {
        let d = evs.drop_last();
        lemma_new_login_run(r, d);
        let s = run_after(r, d);
        let acts = run_steps(r, d);
        let e = evs.last();
        lemma_new_login_step(s, e);
        let a = spec_next(s, e).1;
        let acts2 = acts.push(a);
        assert(run_steps(r, evs) == acts2);
        assert forall|j: int| 0 <= j < acts.len() && #[trigger] acts[j] is ClearLogin implies asked_clear(acts2) by {
            assert(acts2[j] == acts[j]);
        }
        if asked_clear(acts) {
            let j = choose|j: int| 0 <= j < acts.len() && #[trigger] acts[j] is ClearLogin;
            assert(acts2[j] == acts[j]);
        }
        if a is ClearLogin {
            assert(acts2[acts.len() as int] is ClearLogin);
        }
        assert forall|k: int| 0 <= k < acts2.len() && #[trigger] acts2[k] is Launch implies asked_clear(acts2.take(k)) by {
            if k < acts.len() {
                assert(acts2[k] == acts[k]);
                assert(acts2.take(k) =~= acts.take(k));
            } else {
                assert(acts2.take(k) =~= acts);
            }
        }
    }
}

/// A new-account login clears the live login before it launches: from the
/// start of a new-login run, whatever answers its steps get (whether or not
/// the signed-in account is a saved one), every `Launch` it asks for comes
/// after a `ClearLogin`.
pub proof fn law_new_login_clears_before_launch(r: RunV, evs: Seq<EventV>, k: int)
    requires
        r.flow is NewLogin,
        r.stage is Killing,
        0 <= k < run_steps(r, evs).len(),
        run_steps(r, evs)[k] is Launch,
    ensures
        exists|j: int| 0 <= j < k && #[trigger] run_steps(r, evs)[j] is ClearLogin,
{
    lemma_new_login_run(r, evs);
    let acts = run_steps(r, evs);
    assert(asked_clear(acts.take(k)));
    let j = choose|j: int| 0 <= j < acts.take(k).len() && #[trigger] acts.take(k)[j] is ClearLogin;
    assert(acts[j] == acts.take(k)[j]);
}

} // verus!
