//! Adding the currently signed-in account of a platform.
//!
//! Like a switch, an add is a sequence of steps on the machine; an [`AddRun`]
//! answers each step's result with the next step:
//! 1. Read who is signed in. A platform without a natural id gets a generated
//!    `acct-<now>` id, whose marker file is written first.
//! 2. List the saved accounts. An account already saved under that id is
//!    reported as existing and nothing is captured or overwritten.
//! 3. Capture the login (Steam: nothing to capture; Epic: the token, then the
//!    name from the launcher's logs when none was given).
//! 4. Save the new account.

use crate::commands::{epic_account_name, find_saved, generated_id, new_account, spec_epic_account_name};
use crate::ident::{spec_username, username_from_logs};
use crate::model::{accounts_view, Account, AccountV, AddResult, PlatformDef, UniqueId};
use crate::store::lookup_account;
use crate::text::{all_ws, chars_of, is_blank, str_eq};
use vstd::prelude::*;

verus! {

/// Which add procedure a platform uses.
#[derive(Clone, Copy)]
pub enum AddKind {
    Steam,
    Epic,
    Other,
}

/// Where an add is.
#[derive(Clone, Copy)]
pub enum AddStage {
    ReadingCurrent,
    WritingMarker,
    Listing,
    CapturingLogin,
    CapturingEpic,
    ReadingLogs,
    Saving,
    Finished,
}

/// A step for the caller to perform.
#[derive(Clone, Copy)]
pub enum AddAction {
    /// Read the signed-in account's id; answer `Current`.
    ReadCurrent,
    /// Write [`AddRun::id`] into the generated-id marker file
    /// ([`AddRun::marker`], placeholders unexpanded).
    WriteMarker,
    /// List the platform's saved accounts; answer `Accounts`.
    ListAccounts,
    /// Capture the live login files and registry values under the id.
    CaptureLogin,
    /// Save the live Epic token under the id.
    CaptureEpic,
    /// Read the newest launcher logs, newest first; answer `Logs`.
    ReadLogs,
    /// Save [`AddRun::account`] in the platform's account list.
    Save,
    /// The add is over; its result is in [`AddRun::outcome`].
    Finish,
}

/// The result of the last step.
pub enum AddEvent {
    /// The signed-in account's id (`None` when nobody is), or why it could
    /// not be read.
    Current(Result<Option<String>, String>),
    /// The step succeeded.
    Done,
    /// The step failed, with a message.
    Failed(String),
    /// The platform's saved accounts.
    Accounts(Vec<Account>),
    /// The texts of the launcher's newest logs.
    Logs(Vec<String>),
}

/// An add in progress.
pub struct AddRun {
    pub kind: AddKind,
    pub stage: AddStage,
    /// The name to give the new account (blank: Epic uses its log name).
    pub display_name: String,
    /// The time an id is generated from.
    pub now: u64,
    /// The generated-id marker file, for a platform that uses one.
    pub marker: Option<String>,
    /// The id being added, once known.
    pub id: String,
    /// The account to save, once known.
    pub account: Option<Account>,
    /// How the add ended, once finished.
    pub outcome: Option<Result<AddResult, String>>,
}

/// Value of an event.
pub enum AddEventV {
    Current(Result<Option<Seq<char>>, Seq<char>>),
    Done,
    Failed(Seq<char>),
    Accounts(Seq<AccountV>),
    Logs(Seq<Seq<char>>),
}

/// Value of an event.
pub open spec fn add_event_view(e: AddEvent) -> AddEventV {
    match e {
        AddEvent::Current(Ok(o)) => AddEventV::Current(Ok(crate::model::opt_view(o))),
        AddEvent::Current(Err(m)) => AddEventV::Current(Err(m@)),
        AddEvent::Done => AddEventV::Done,
        AddEvent::Failed(m) => AddEventV::Failed(m@),
        AddEvent::Accounts(v) => AddEventV::Accounts(accounts_view(v@)),
        AddEvent::Logs(t) => AddEventV::Logs(t@.map_values(|s: String| s@)),
    }
}

/// Value of an add.
pub struct AddRunV {
    pub kind: AddKind,
    pub stage: AddStage,
    pub display_name: Seq<char>,
    pub now: u64,
    pub generated: bool,
    pub id: Seq<char>,
    pub account: Option<AccountV>,
    /// `Ok((exists, account))` or the error message.
    pub outcome: Option<Result<(bool, AccountV), Seq<char>>>,
}

/// The value of an optional account.
pub open spec fn opt_account(a: Option<Account>) -> Option<AccountV> {
    match a {
        Some(a) => Some(a@),
        None => None,
    }
}

impl AddRun {
    /// The deciding part of the add.
    pub open spec fn view_add(&self) -> AddRunV {
        AddRunV {
            kind: self.kind,
            stage: self.stage,
            display_name: self.display_name@,
            now: self.now,
            generated: self.marker is Some,
            id: self.id@,
            account: opt_account(self.account),
            outcome: match self.outcome {
                Some(Ok(r)) => Some(Ok((r.exists, r.account@))),
                Some(Err(m)) => Some(Err(m@)),
                None => None,
            },
        }
    }
}

/// The step a stage asks for.
pub open spec fn add_action_of(s: AddStage) -> AddAction {
    match s {
        AddStage::ReadingCurrent => AddAction::ReadCurrent,
        AddStage::WritingMarker => AddAction::WriteMarker,
        AddStage::Listing => AddAction::ListAccounts,
        AddStage::CapturingLogin => AddAction::CaptureLogin,
        AddStage::CapturingEpic => AddAction::CaptureEpic,
        AddStage::ReadingLogs => AddAction::ReadLogs,
        AddStage::Saving => AddAction::Save,
        AddStage::Finished => AddAction::Finish,
    }
}

/// The message of an answer that does not fit the step.
pub open spec fn out_of_turn() -> Seq<char> {
    "internal error: a step answered out of turn"@
}

/// The add failed with message `m`.
pub open spec fn add_fail(r: AddRunV, m: Seq<char>) -> AddRunV {
    AddRunV { stage: AddStage::Finished, outcome: Some(Err(m)), ..r }
}

/// The new account, named `name`, is to be saved.
pub open spec fn to_save(r: AddRunV, name: Seq<char>) -> AddRunV {
    AddRunV {
        stage: AddStage::Saving,
        account: Some(AccountV { id: r.id, display_name: name, note: None, image: None, last_used: None }),
        ..r
    }
}

/// The message when no account is signed in.
pub open spec fn nobody_message(r: AddRunV) -> Seq<char> {
    match r.kind {
        AddKind::Steam => "No Steam account is currently signed in"@,
        AddKind::Epic => "No Epic account is currently signed in"@,
        AddKind::Other => "Could not detect a logged-in account to add"@,
    }
}

/// The add's next state, given the result of its last step.
pub open spec fn spec_add_next(r: AddRunV, e: AddEventV) -> AddRunV {
    match r.stage {
        AddStage::Finished => r,
        AddStage::ReadingCurrent => match e {
            AddEventV::Current(Err(m)) => add_fail(r, m),
            AddEventV::Current(Ok(Some(id))) => AddRunV { stage: AddStage::Listing, id, ..r },
            AddEventV::Current(Ok(None)) => if r.kind is Other && r.generated {
                AddRunV { stage: AddStage::WritingMarker, id: generated_id(r.now), ..r }
            } else {
                add_fail(r, nobody_message(r))
            },
            _ => add_fail(r, out_of_turn()),
        },
        AddStage::WritingMarker => match e {
            AddEventV::Done => AddRunV { stage: AddStage::Listing, ..r },
            AddEventV::Failed(m) => add_fail(r, m),
            _ => add_fail(r, out_of_turn()),
        },
        AddStage::Listing => match e {
            AddEventV::Accounts(saved) => match lookup_account(saved, r.id) {
                Some(a) => AddRunV { stage: AddStage::Finished, outcome: Some(Ok((true, a))), ..r },
                None => match r.kind {
                    AddKind::Steam => to_save(r, r.display_name),
                    AddKind::Epic => AddRunV { stage: AddStage::CapturingEpic, ..r },
                    AddKind::Other => AddRunV { stage: AddStage::CapturingLogin, ..r },
                },
            },
            AddEventV::Failed(m) => add_fail(r, m),
            _ => add_fail(r, out_of_turn()),
        },
        AddStage::CapturingLogin => match e {
            AddEventV::Done => to_save(r, r.display_name),
            AddEventV::Failed(m) => add_fail(r, m),
            _ => add_fail(r, out_of_turn()),
        },
        AddStage::CapturingEpic => match e {
            AddEventV::Done => if all_ws(r.display_name) {
                AddRunV { stage: AddStage::ReadingLogs, ..r }
            } else {
                to_save(r, r.display_name)
            },
            AddEventV::Failed(m) => add_fail(r, m),
            _ => add_fail(r, out_of_turn()),
        },
        AddStage::ReadingLogs => match e {
            AddEventV::Logs(texts) => to_save(
                r,
                spec_epic_account_name(r.display_name, spec_username(texts), r.id),
            ),
            _ => add_fail(r, out_of_turn()),
        },
        AddStage::Saving => match e {
            AddEventV::Done => match r.account {
                Some(a) => AddRunV { stage: AddStage::Finished, outcome: Some(Ok((false, a))), ..r },
                None => add_fail(r, out_of_turn()),
            },
            AddEventV::Failed(m) => add_fail(r, m),
            _ => add_fail(r, out_of_turn()),
        },
    }
}

fn out_of_turn_message() -> (m: String)
    ensures
        m@ == out_of_turn(),
{
    String::from_str("internal error: a step answered out of turn")
}

impl AddRun {
    /// Starts adding the signed-in account of `platform` under `display_name`;
    /// the first step reads who is signed in.
    pub fn new(platform: &str, plat: &PlatformDef, display_name: String, now: u64) -> (r: (AddRun, AddAction))
        ensures
            r.0.kind == (if platform@ == "steam"@ {
                AddKind::Steam
            } else if platform@ == "epic"@ {
                AddKind::Epic
            } else {
                AddKind::Other
            }),
            r.0.stage == AddStage::ReadingCurrent,
            r.0.display_name@ == display_name@,
            r.0.now == now,
            r.0.account is None,
            r.0.outcome is None,
            match plat.unique_id {
                UniqueId::GeneratedFile { file } => r.0.marker matches Some(m) && m@ == file@,
                _ => r.0.marker is None,
            },
            r.1 == AddAction::ReadCurrent,
    {
        let kind = if str_eq(platform, "steam") {
            AddKind::Steam
        } else if str_eq(platform, "epic") {
            AddKind::Epic
        } else {
            AddKind::Other
        };
        let marker = match &plat.unique_id {
            UniqueId::GeneratedFile { file } => Some(file.clone()),
            _ => None,
        };
        let run = AddRun {
            kind,
            stage: AddStage::ReadingCurrent,
            display_name,
            now,
            marker,
            id: String::new(),
            account: None,
            outcome: None,
        };
        (run, AddAction::ReadCurrent)
    }

    fn fail_with(&mut self, m: String) -> (a: AddAction)
        ensures
            final(self).view_add() == add_fail(old(self).view_add(), m@),
            a == AddAction::Finish,
            final(self).marker == old(self).marker,
    {
        self.stage = AddStage::Finished;
        self.outcome = Some(Err(m));
        AddAction::Finish
    }

    fn save_as(&mut self, name: String) -> (a: AddAction)
        ensures
            final(self).view_add() == to_save(old(self).view_add(), name@),
            a == AddAction::Save,
            final(self).marker == old(self).marker,
    {
        self.account = Some(new_account(self.id.clone(), name));
        self.stage = AddStage::Saving;
        AddAction::Save
    }

    /// Answers the last step's result with the next step.
    pub fn next(&mut self, e: AddEvent) -> (a: AddAction)
        ensures
            final(self).view_add() == spec_add_next(old(self).view_add(), add_event_view(e)),
            a == add_action_of(final(self).stage),
            final(self).marker == old(self).marker,
    {
        proof {
            reveal_strlit("No Steam account is currently signed in");
            reveal_strlit("No Epic account is currently signed in");
            reveal_strlit("Could not detect a logged-in account to add");
        }
        match self.stage {
            AddStage::Finished => AddAction::Finish,
            AddStage::ReadingCurrent => match e {
                AddEvent::Current(Err(m)) => self.fail_with(m),
                AddEvent::Current(Ok(Some(id))) => {
                    self.id = id;
                    self.stage = AddStage::Listing;
                    AddAction::ListAccounts
                },
                AddEvent::Current(Ok(None)) => {
                    match self.kind {
                        AddKind::Steam => self.fail_with(String::from_str("No Steam account is currently signed in")),
                        AddKind::Epic => self.fail_with(String::from_str("No Epic account is currently signed in")),
                        AddKind::Other => {
                            if self.marker.is_some() {
                                let digits = crate::epic::decimal_chars(self.now);
                                let mut id = String::from_str("acct-");
                                id.append(crate::text::string_of(&digits).as_str());
                                self.id = id;
                                self.stage = AddStage::WritingMarker;
                                AddAction::WriteMarker
                            } else {
                                self.fail_with(String::from_str("Could not detect a logged-in account to add"))
                            }
                        },
                    }
                },
                _ => self.fail_with(out_of_turn_message()),
            },
            AddStage::WritingMarker => match e {
                AddEvent::Done => {
                    self.stage = AddStage::Listing;
                    AddAction::ListAccounts
                },
                AddEvent::Failed(m) => self.fail_with(m),
                _ => self.fail_with(out_of_turn_message()),
            },
            AddStage::Listing => match e {
                AddEvent::Accounts(saved) => match find_saved(&saved, self.id.as_str()) {
                    Some(a) => {
                        self.stage = AddStage::Finished;
                        self.outcome = Some(Ok(AddResult { exists: true, account: a }));
                        AddAction::Finish
                    },
                    None => match self.kind {
                        AddKind::Steam => {
                            let name = self.display_name.clone();
                            self.save_as(name)
                        },
                        AddKind::Epic => {
                            self.stage = AddStage::CapturingEpic;
                            AddAction::CaptureEpic
                        },
                        AddKind::Other => {
                            self.stage = AddStage::CapturingLogin;
                            AddAction::CaptureLogin
                        },
                    },
                },
                AddEvent::Failed(m) => self.fail_with(m),
                _ => self.fail_with(out_of_turn_message()),
            },
            AddStage::CapturingLogin => match e {
                AddEvent::Done => {
                    let name = self.display_name.clone();
                    self.save_as(name)
                },
                AddEvent::Failed(m) => self.fail_with(m),
                _ => self.fail_with(out_of_turn_message()),
            },
            AddStage::CapturingEpic => match e {
                AddEvent::Done => {
                    let c = chars_of(self.display_name.as_str());
                    if is_blank(c.as_slice()) {
                        self.stage = AddStage::ReadingLogs;
                        AddAction::ReadLogs
                    } else {
                        let name = self.display_name.clone();
                        self.save_as(name)
                    }
                },
                AddEvent::Failed(m) => self.fail_with(m),
                _ => self.fail_with(out_of_turn_message()),
            },
            AddStage::ReadingLogs => match e {
                AddEvent::Logs(texts) => {
                    let found = username_from_logs(&texts);
                    let name = epic_account_name(self.display_name.clone(), found, self.id.as_str());
                    self.save_as(name)
                },
                _ => self.fail_with(out_of_turn_message()),
            },
            AddStage::Saving => match e {
                AddEvent::Done => match &self.account {
                    Some(a) => {
                        let account = a.copy();
                        self.stage = AddStage::Finished;
                        self.outcome = Some(Ok(AddResult { exists: false, account }));
                        AddAction::Finish
                    },
                    None => self.fail_with(out_of_turn_message()),
                },
                AddEvent::Failed(m) => self.fail_with(m),
                _ => self.fail_with(out_of_turn_message()),
            },
        }
    }
}

// ---- laws of adding ---------------------------------------------------------

/// An account already saved under the id is reported as existing: nothing is
/// captured and nothing is saved over it.
pub proof fn law_add_reports_existing(r: AddRunV, saved: Seq<AccountV>)
    requires
        r.stage is Listing,
        lookup_account(saved, r.id) is Some,
    ensures
        spec_add_next(r, AddEventV::Accounts(saved)).stage is Finished,
        spec_add_next(r, AddEventV::Accounts(saved)).outcome == Some(
            Ok::<(bool, AccountV), Seq<char>>((true, lookup_account(saved, r.id).unwrap())),
        ),
{
}

/// A failed capture ends the add: the account is not saved.
pub proof fn law_add_capture_failure_saves_nothing(r: AddRunV, m: Seq<char>)
    requires
        r.stage is CapturingLogin || r.stage is CapturingEpic,
    ensures
        spec_add_next(r, AddEventV::Failed(m)).stage is Finished,
        spec_add_next(r, AddEventV::Failed(m)).outcome == Some(Err::<(bool, AccountV), Seq<char>>(m)),
{
}

/// Adding a Steam account never captures files or tokens: Steam keeps every
/// account itself, so only the name is saved.
pub proof fn law_steam_add_captures_nothing(r: AddRunV, e: AddEventV)
    requires
        r.kind is Steam,
        !(r.stage is CapturingLogin || r.stage is CapturingEpic || r.stage is ReadingLogs),
    ensures
        ({
            let s = spec_add_next(r, e).stage;
            !(s is CapturingLogin || s is CapturingEpic || s is ReadingLogs)
        }),
{
}

/// An add saves only an account whose id is not saved yet, under the id
/// that was read (or generated).
pub proof fn law_add_saves_only_new(r: AddRunV, saved: Seq<AccountV>)
    requires
        r.stage is Listing,
        spec_add_next(r, AddEventV::Accounts(saved)).stage is Saving,
    ensures
        lookup_account(saved, r.id) is None,
        spec_add_next(r, AddEventV::Accounts(saved)).account matches Some(a) && a.id == r.id,
{
}

/// A finished add stays finished, whatever it is told.
pub proof fn law_add_finished_is_final(r: AddRunV, e: AddEventV)
    requires
        r.stage is Finished,
    ensures
        spec_add_next(r, e) == r,
{
}

// ---- adds over many steps ---------------------------------------------------

/// The add's state after `evs` answered its steps in order from `r`.
pub open spec fn add_after(r: AddRunV, evs: Seq<AddEventV>) -> AddRunV
    decreases evs.len(),
{
    if evs.len() == 0 {
        r
    } else {
        spec_add_next(add_after(r, evs.drop_last()), evs.last())
    }
}

/// The id an add's first answer settles: the id read, or the generated one
/// when nobody is signed in and the platform uses a marker file.
pub open spec fn first_answer_id(r: AddRunV, e: AddEventV) -> Option<Seq<char>> {
    match e {
        AddEventV::Current(Ok(Some(x))) => Some(x),
        AddEventV::Current(Ok(None)) => if r.generated {
            Some(generated_id(r.now))
        } else {
            None
        },
        _ => None,
    }
}

/// What holds at every point of an add of a platform other than Steam and
/// Epic, started by reading who is signed in.
spec fn other_add_inv(r: AddRunV, s: AddRunV, n: int) -> bool {
    &&& s.kind is Other
    &&& s.display_name == r.display_name
    &&& s.now == r.now
    &&& s.generated == r.generated
    &&& !(s.stage is CapturingEpic || s.stage is ReadingLogs)
    &&& (n == 0 ==> s == r)
    &&& (n > 0 ==> !(s.stage is ReadingCurrent))
    &&& (s.account matches Some(a) ==> a.display_name == r.display_name && a.id == s.id)
    &&& (s.outcome matches Some(Ok(p)) ==> (!p.0 ==> p.1.display_name == r.display_name && p.1.id == s.id))
}

proof fn lemma_other_add_run(r: AddRunV, evs: Seq<AddEventV>)
    requires
        r.kind is Other,
        r.stage is ReadingCurrent,
        r.account is None,
        r.outcome is None,
    ensures
        other_add_inv(r, add_after(r, evs), evs.len() as int),
        evs.len() > 0 ==> (first_answer_id(r, evs[0]) matches Some(x) ==> add_after(r, evs).id == x),
    decreases evs.len(),
{
    if evs.len() > 0 {
        let d = evs.drop_last();
        lemma_other_add_run(r, d);
        if d.len() > 0 {
            assert(d[0] == evs[0]);
        } else {
            assert(evs.last() == evs[0]);
        }
    }
}

/// An add of a platform other than Steam and Epic saves the new account
/// under the name the user gave, with the id read (or generated): whatever
/// answers its steps get, an account it is about to save, and one it reports
/// saved as new, carry the given display name and the add's id; and that id
/// is the one the first answer settled.
pub proof fn law_other_add_keeps_given_name(r: AddRunV, evs: Seq<AddEventV>)
    requires
        r.kind is Other,
        r.stage is ReadingCurrent,
        r.account is None,
        r.outcome is None,
    ensures
        add_after(r, evs).account matches Some(a) ==> a.display_name == r.display_name && a.id == add_after(
            r,
            evs,
        ).id,
        add_after(r, evs).outcome matches Some(Ok(p)) ==> (!p.0 ==> p.1.display_name == r.display_name && p.1.id
            == add_after(r, evs).id),
        evs.len() > 0 ==> (first_answer_id(r, evs[0]) matches Some(x) ==> add_after(r, evs).id == x),
{
    lemma_other_add_run(r, evs);
}

} // verus!
