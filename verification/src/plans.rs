//! The file and registry operations of capture, restore, clear and backup,
//! worked out from a platform definition; and the helpers that locate a
//! platform's launcher.
//!
//! `live` paths in the plans are the definition's templates: the caller
//! expands their `%VAR%` placeholders through the host before touching them.

use crate::epic::{decimal, decimal_chars};
use crate::model::{opt_view, or_empty, ExeLocator, LoginArtifact, PlatformDef, UniqueId};
use crate::store::{join, join_path, lookup_pair, RegistrySnapshot};
use crate::text::{chars_of, copy_range, string_of, trim, trim_chars};
use vstd::prelude::*;

verus! {

/// One step of capturing a live login into an account folder.
pub enum CaptureStep {
    /// Replace the saved copy `dest` with a copy of the live path.
    CopyIntoSaved { live: String, dest: String },
    /// Read a registry value; when present, save it under `saved`.
    ReadRegistry { key: String, value: String, saved: String },
}

/// The capture step of one artifact.
pub open spec fn capture_step_for(s: CaptureStep, a: LoginArtifact, dir: Seq<char>) -> bool {
    match (s, a) {
        (CaptureStep::CopyIntoSaved { live, dest }, LoginArtifact::File { live: l, saved }) => live@
            == l@ && dest@ == join_path(dir, saved@),
        (
            CaptureStep::ReadRegistry { key, value, saved },
            LoginArtifact::Registry { key: k, value: v, saved: sv },
        ) => key@ == k@ && value@ == v@ && saved@ == sv@,
        _ => false,
    }
}

/// `r` captures the login of `plat` into folder `dir`: one step per login
/// artifact, in order.
pub open spec fn is_capture_plan(plat: PlatformDef, dir: Seq<char>, r: Seq<CaptureStep>) -> bool {
    &&& r.len() == plat.login@.len()
    &&& forall|i: int| 0 <= i < r.len() ==> capture_step_for(#[trigger] r[i], plat.login@[i], dir)
}

/// The steps that capture the live login into the account folder `dir`, one
/// per login artifact, in order.
pub fn capture_plan(plat: &PlatformDef, dir: &str) -> (r: Vec<CaptureStep>)
    ensures
        is_capture_plan(*plat, dir@, r@),
{
    let mut r: Vec<CaptureStep> = Vec::new();
    let mut i: usize = 0;
    while i < plat.login.len()
        invariant
            i <= plat.login.len(),
            r@.len() == i,
            forall|k: int| 0 <= k < i ==> capture_step_for(#[trigger] r@[k], plat.login@[k], dir@),
        decreases plat.login.len() - i,
    {
        let step = match &plat.login[i] {
            LoginArtifact::File { live, saved } => CaptureStep::CopyIntoSaved {
                live: live.clone(),
                dest: join(dir, saved.as_str()),
            },
            LoginArtifact::Registry { key, value, saved } => CaptureStep::ReadRegistry {
                key: key.clone(),
                value: value.clone(),
                saved: saved.clone(),
            },
        };
        r.push(step);
        i = i + 1;
    }
    r
}

/// One step of restoring a login.
pub enum RestoreStep {
    /// Copy a saved path back to its live location (nothing when it is absent).
    CopyFromSaved { saved: String, live: String },
    /// Write a registry value, when there is data for it.
    WriteRegistry { key: String, value: String, data: Option<String> },
}

/// The restore step of one artifact.
pub open spec fn restore_step_for(
    s: RestoreStep,
    a: LoginArtifact,
    dir: Seq<char>,
    snapshot: Seq<(Seq<char>, Seq<char>)>,
) -> bool {
    match (s, a) {
        (RestoreStep::CopyFromSaved { saved, live }, LoginArtifact::File { live: l, saved: sv }) =>
            live@ == l@ && saved@ == join_path(dir, sv@),
        (
            RestoreStep::WriteRegistry { key, value, data },
            LoginArtifact::Registry { key: k, value: v, saved: sv },
        ) => key@ == k@ && value@ == v@ && opt_view(data) == lookup_pair(snapshot, sv@, 0),
        _ => false,
    }
}

/// `r` restores the login of `plat` from folder `dir` and the saved registry
/// values `snapshot`: one step per login artifact, in order.
pub open spec fn is_restore_plan(
    plat: PlatformDef,
    dir: Seq<char>,
    snapshot: Seq<(Seq<char>, Seq<char>)>,
    r: Seq<RestoreStep>,
) -> bool {
    &&& r.len() == plat.login@.len()
    &&& forall|i: int| 0 <= i < r.len() ==> restore_step_for(#[trigger] r[i], plat.login@[i], dir, snapshot)
}

/// The steps that restore an account's saved login from folder `dir` and its
/// saved registry values, one per login artifact, in order.
pub fn restore_plan(plat: &PlatformDef, dir: &str, snapshot: &RegistrySnapshot) -> (r: Vec<
    RestoreStep,
>)
    ensures
        is_restore_plan(*plat, dir@, snapshot.view_pairs(), r@),
{
    let mut r: Vec<RestoreStep> = Vec::new();
    let mut i: usize = 0;
    while i < plat.login.len()
        invariant
            i <= plat.login.len(),
            r@.len() == i,
            forall|k: int|
                0 <= k < i ==> restore_step_for(
                    #[trigger] r@[k],
                    plat.login@[k],
                    dir@,
                    snapshot.view_pairs(),
                ),
        decreases plat.login.len() - i,
    {
        let step = match &plat.login[i] {
            LoginArtifact::File { live, saved } => RestoreStep::CopyFromSaved {
                saved: join(dir, saved.as_str()),
                live: live.clone(),
            },
            LoginArtifact::Registry { key, value, saved } => RestoreStep::WriteRegistry {
                key: key.clone(),
                value: value.clone(),
                data: snapshot.get(saved.as_str()),
            },
        };
        r.push(step);
        i = i + 1;
    }
    r
}

/// One step of clearing the live login.
pub enum ClearStep {
    /// Delete a live path (file, folder or glob).
    DeleteLive { path: String },
    /// Delete a registry value.
    DeleteRegistry { key: String, value: String },
    /// Delete a generated-id marker file (errors ignored).
    RemoveMarker { path: String },
}

/// The clear step of one login artifact.
pub open spec fn clear_step_for(s: ClearStep, a: LoginArtifact) -> bool {
    match (s, a) {
        (ClearStep::DeleteLive { path }, LoginArtifact::File { live, .. }) => path@ == live@,
        (ClearStep::DeleteRegistry { key, value }, LoginArtifact::Registry { key: k, value: v, .. }) =>
            key@ == k@ && value@ == v@,
        _ => false,
    }
}

/// `r` deletes the live login of `plat`: each login artifact, then each extra
/// path of `clear`, then the generated-id marker (if the platform uses one).
pub open spec fn is_clear_plan(plat: PlatformDef, r: Seq<ClearStep>) -> bool {
    let n = plat.login@.len();
    let m = plat.clear@.len();
    &&& r.len() == n + m + (if plat.unique_id is GeneratedFile {
        1int
    } else {
        0int
    })
    &&& forall|i: int| 0 <= i < n ==> clear_step_for(#[trigger] r[i], plat.login@[i])
    &&& forall|j: int|
        0 <= j < m ==> (#[trigger] r[n + j] matches ClearStep::DeleteLive { path } && path@ == plat.clear@[j]@)
    &&& (plat.unique_id matches UniqueId::GeneratedFile { file } ==> r[(n + m) as int] matches ClearStep::RemoveMarker {
        path,
    } && path@ == file@)
}

/// The steps that delete the live login: each login artifact, then each
/// extra path of `clear`, then the generated-id marker (if the platform uses one).
pub fn clear_plan(plat: &PlatformDef) -> (r: Vec<ClearStep>)
    ensures
        is_clear_plan(*plat, r@),
{
    let mut r: Vec<ClearStep> = Vec::new();
    let mut i: usize = 0;
    while i < plat.login.len()
        invariant
            i <= plat.login.len(),
            r@.len() == i,
            forall|k: int| 0 <= k < i ==> clear_step_for(#[trigger] r@[k], plat.login@[k]),
        decreases plat.login.len() - i,
    {
        let step = match &plat.login[i] {
            LoginArtifact::File { live, .. } => ClearStep::DeleteLive { path: live.clone() },
            LoginArtifact::Registry { key, value, .. } => ClearStep::DeleteRegistry {
                key: key.clone(),
                value: value.clone(),
            },
        };
        r.push(step);
        i = i + 1;
    }
    let n = plat.login.len();
    let mut j: usize = 0;
    while j < plat.clear.len()
        invariant
            j <= plat.clear.len(),
            n == plat.login@.len(),
            r@.len() == n + j,
            forall|k: int| 0 <= k < n ==> clear_step_for(#[trigger] r@[k], plat.login@[k]),
            forall|k: int|
                0 <= k < j ==> (#[trigger] r@[n + k] matches ClearStep::DeleteLive { path } && path@
                    == plat.clear@[k]@),
        decreases plat.clear.len() - j,
    {
        r.push(ClearStep::DeleteLive { path: plat.clear[j].clone() });
        j = j + 1;
    }
    match &plat.unique_id {
        UniqueId::GeneratedFile { file } => {
            r.push(ClearStep::RemoveMarker { path: file.clone() });
        },
        _ => {},
    }
    r
}

/// One step of snapshotting the live login before a switch.
pub enum BackupStep {
    /// Copy a live path into the backup folder under `rel`.
    CopyOut { live: String, rel: String },
    /// Read a registry value (absent values stay absent on rollback).
    ReadRegistry { key: String, value: String },
}

/// The name of the `n`th copied path inside the backup folder.
pub open spec fn backup_rel(n: nat) -> Seq<char> {
    seq!['f'] + decimal(n)
}

/// Number of file artifacts among the first `i` login artifacts.
pub open spec fn files_before(login: Seq<LoginArtifact>, i: int) -> nat
    decreases i,
{
    if i <= 0 || login.len() == 0 {
        0
    } else if i > login.len() {
        files_before(login, login.len() as int)
    } else {
        files_before(login, i - 1) + if login[i - 1] is File {
            1nat
        } else {
            0nat
        }
    }
}

/// The backup step of one login artifact, given the number of file copies before it.
pub open spec fn backup_step_for(s: BackupStep, a: LoginArtifact, n: nat) -> bool {
    match (s, a) {
        (BackupStep::CopyOut { live, rel }, LoginArtifact::File { live: l, .. }) => live@ == l@
            && rel@ == backup_rel(n),
        (BackupStep::ReadRegistry { key, value }, LoginArtifact::Registry { key: k, value: v, .. }) =>
            key@ == k@ && value@ == v@,
        _ => false,
    }
}

fn rel_name(n: u64) -> (r: String)
    ensures
        r@ == backup_rel(n as nat),
{
    let mut v: Vec<char> = Vec::new();
    v.push('f');
    let d = decimal_chars(n);
    crate::text::append_chars(&mut v, d.as_slice());
    string_of(&v)
}

/// `r` snapshots the live login of `plat`: each login artifact (files copied
/// out as `f0`, `f1`, ... in order), then each extra `clear` path, then the
/// generated-id marker, numbered on.
pub open spec fn is_backup_plan(plat: PlatformDef, r: Seq<BackupStep>) -> bool {
    let n = plat.login@.len();
    let m = plat.clear@.len();
    let f = files_before(plat.login@, n as int);
    &&& r.len() == n + m + (if plat.unique_id is GeneratedFile {
        1int
    } else {
        0int
    })
    &&& forall|i: int| 0 <= i < n ==> backup_step_for(#[trigger] r[i], plat.login@[i], files_before(plat.login@, i))
    &&& forall|j: int|
        0 <= j < m ==> (#[trigger] r[n + j] matches BackupStep::CopyOut { live, rel } && live@ == plat.clear@[j]@
            && rel@ == backup_rel(f + j as nat))
    &&& (plat.unique_id matches UniqueId::GeneratedFile { file } ==> r[(n + m) as int] matches BackupStep::CopyOut {
        live,
        rel,
    } && live@ == file@ && rel@ == backup_rel(f + m))
}

/// The steps that snapshot the live login for a rollback: each login artifact
/// (files copied out as `f0`, `f1`, ... in order), then each extra `clear`
/// path, then the generated-id marker, numbered on.
pub fn backup_plan(plat: &PlatformDef) -> (r: Vec<BackupStep>)
    requires
        plat.login@.len() + plat.clear@.len() < 0x1_0000_0000,
    ensures
        is_backup_plan(*plat, r@),
{
    let mut r: Vec<BackupStep> = Vec::new();
    let mut count: u64 = 0;
    let mut i: usize = 0;
    while i < plat.login.len()
        invariant
            i <= plat.login.len(),
            plat.login@.len() + plat.clear@.len() < 0x1_0000_0000,
            r@.len() == i,
            count == files_before(plat.login@, i as int),
            count <= i,
            forall|k: int|
                0 <= k < i ==> backup_step_for(#[trigger] r@[k], plat.login@[k], files_before(plat.login@, k)),
        decreases plat.login.len() - i,
    {
        let step = match &plat.login[i] {
            LoginArtifact::File { live, .. } => {
                let s = BackupStep::CopyOut { live: live.clone(), rel: rel_name(count) };
                count = count + 1;
                s
            },
            LoginArtifact::Registry { key, value, .. } => BackupStep::ReadRegistry {
                key: key.clone(),
                value: value.clone(),
            },
        };
        r.push(step);
        i = i + 1;
    }
    let n = plat.login.len();
    let ghost f = count as nat;
    let mut j: usize = 0;
    while j < plat.clear.len()
        invariant
            j <= plat.clear.len(),
            n == plat.login@.len(),
            plat.login@.len() + plat.clear@.len() < 0x1_0000_0000,
            f == files_before(plat.login@, n as int),
            f <= n,
            count == f + j,
            r@.len() == n + j,
            forall|k: int|
                0 <= k < n ==> backup_step_for(#[trigger] r@[k], plat.login@[k], files_before(plat.login@, k)),
            forall|k: int|
                0 <= k < j ==> (#[trigger] r@[n + k] matches BackupStep::CopyOut { live, rel } && live@
                    == plat.clear@[k]@ && rel@ == backup_rel(f + k as nat)),
        decreases plat.clear.len() - j,
    {
        r.push(BackupStep::CopyOut { live: plat.clear[j].clone(), rel: rel_name(count) });
        count = count + 1;
        j = j + 1;
    }
    match &plat.unique_id {
        UniqueId::GeneratedFile { file } => {
            r.push(BackupStep::CopyOut { live: file.clone(), rel: rel_name(count) });
        },
        _ => {},
    }
    r
}

/// A snapshotted live artifact: a copy under `rel` in the backup folder (a
/// missing copy means the artifact was absent), or a registry value (`None`
/// when it was absent).
pub enum BackupItem {
    File { live: String, rel: String },
    Registry { key: String, value: String, data: Option<String> },
}

/// The restore step that puts one snapshotted artifact back.
pub open spec fn rollback_step_for(s: RestoreStep, item: BackupItem, dir: Seq<char>) -> bool {
    match (s, item) {
        (RestoreStep::CopyFromSaved { saved, live }, BackupItem::File { live: l, rel }) => live@ == l@
            && saved@ == join_path(dir, rel@),
        (
            RestoreStep::WriteRegistry { key, value, data },
            BackupItem::Registry { key: k, value: v, data: d },
        ) => key@ == k@ && value@ == v@ && opt_view(data) == opt_view(d),
        _ => false,
    }
}

/// `r` puts the snapshot `items` in folder `dir` back: one step per item, in
/// order.
pub open spec fn is_rollback_plan(items: Seq<BackupItem>, dir: Seq<char>, r: Seq<RestoreStep>) -> bool {
    &&& r.len() == items.len()
    &&& forall|i: int| 0 <= i < r.len() ==> rollback_step_for(#[trigger] r[i], items[i], dir)
}

/// The steps that roll a snapshot in folder `dir` back into place (run after
/// clearing the partly restored login): artifacts absent at snapshot time
/// stay absent.
pub fn rollback_plan(items: &Vec<BackupItem>, dir: &str) -> (r: Vec<RestoreStep>)
    ensures
        is_rollback_plan(items@, dir@, r@),
{
    let mut r: Vec<RestoreStep> = Vec::new();
    let mut i: usize = 0;
    while i < items.len()
        invariant
            i <= items.len(),
            r@.len() == i,
            forall|k: int| 0 <= k < i ==> rollback_step_for(#[trigger] r@[k], items@[k], dir@),
        decreases items.len() - i,
    {
        let step = match &items[i] {
            BackupItem::File { live, rel } => RestoreStep::CopyFromSaved {
                saved: join(dir, rel.as_str()),
                live: live.clone(),
            },
            BackupItem::Registry { key, value, data } => RestoreStep::WriteRegistry {
                key: key.clone(),
                value: value.clone(),
                data: crate::model::copy_opt(data),
            },
        };
        r.push(step);
        i = i + 1;
    }
    r
}

// ---- locating the launcher ---------------------------------------------

/// `s` without its leading `"` characters.
pub open spec fn strip_dq_start(s: Seq<char>) -> Seq<char>
    decreases s.len(),
{
    if s.len() > 0 && s[0] == '"' {
        strip_dq_start(s.skip(1))
    } else {
        s
    }
}

/// `s` without its trailing `"` characters.
pub open spec fn strip_dq_end(s: Seq<char>) -> Seq<char>
    decreases s.len(),
{
    if s.len() > 0 && s.last() == '"' {
        strip_dq_end(s.drop_last())
    } else {
        s
    }
}

/// A registry path string trimmed and without surrounding double quotes
/// (`s.trim().trim_matches('"')`).
pub open spec fn spec_strip_quotes(s: Seq<char>) -> Seq<char> {
    strip_dq_end(strip_dq_start(trim(s)))
}

fn strip_dq_start_exec(s: &[char]) -> (r: Vec<char>)
    ensures
        r@ == strip_dq_start(s@),
{
    let mut i: usize = 0;
    assert(s@.skip(0) == s@);
    while i < s.len() && s[i] == '"'
        invariant
            i <= s.len(),
            strip_dq_start(s@) == strip_dq_start(s@.skip(i as int)),
        decreases s.len() - i,
    {
        assert(s@.skip(i as int).skip(1) == s@.skip(i + 1));
        i = i + 1;
    }
    let r = copy_range(s, i, s.len());
    assert(r@ == s@.skip(i as int));
    r
}

fn strip_dq_end_exec(s: &[char]) -> (r: Vec<char>)
    ensures
        r@ == strip_dq_end(s@),
{
    let mut i: usize = s.len();
    assert(s@.take(i as int) == s@);
    while i > 0 && s[i - 1] == '"'
        invariant
            i <= s.len(),
            strip_dq_end(s@) == strip_dq_end(s@.take(i as int)),
        decreases i,
    {
        assert(s@.take(i as int).drop_last() == s@.take(i - 1));
        i = i - 1;
    }
    copy_range(s, 0, i)
}

/// Strips surrounding double quotes (and whitespace) from a registry path string.
pub fn strip_quotes(s: &str) -> (r: String)
    ensures
        r@ == spec_strip_quotes(s@),
{
    let c = chars_of(s);
    let t = trim_chars(c.as_slice());
    let a = strip_dq_start_exec(t.as_slice());
    let b = strip_dq_end_exec(a.as_slice());
    string_of(&b)
}

/// Index of the first `" %"` of `s` at or after `i`.
pub open spec fn find_arg(s: Seq<char>, i: int) -> Option<int>
    decreases s.len() - i,
{
    if i < 0 || i + 1 >= s.len() {
        None
    } else if s[i] == ' ' && s[i + 1] == '%' {
        Some(i)
    } else {
        find_arg(s, i + 1)
    }
}

/// Index of the first `"` of `s` at or after `i`.
pub open spec fn find_quote(s: Seq<char>, i: int) -> Option<int>
    decreases s.len() - i,
{
    if i < 0 || i >= s.len() {
        None
    } else if s[i] == '"' {
        Some(i)
    } else {
        find_quote(s, i + 1)
    }
}

/// The exe path of a shell open command: the quoted part of `"C:\..\X.exe" %1`,
/// else the text before the first ` %` argument, trimmed.
pub open spec fn spec_parse_command_exe(cmd: Seq<char>) -> Seq<char> {
    let c = trim(cmd);
    if c.len() > 0 && c[0] == '"' && find_quote(c.skip(1), 0) is Some {
        c.skip(1).take(find_quote(c.skip(1), 0).unwrap())
    } else {
        match find_arg(c, 0) {
            Some(i) => trim(c.take(i)),
            None => trim(c),
        }
    }
}

proof fn lemma_find_quote(s: Seq<char>, i: int)
    requires
        0 <= i <= s.len(),
    ensures
        find_quote(s, i) matches Some(j) ==> i <= j < s.len(),
    decreases s.len() - i,
{
    if i < s.len() && s[i] != '"' {
        lemma_find_quote(s, i + 1);
    }
}

proof fn lemma_find_arg(s: Seq<char>, i: int)
    requires
        0 <= i <= s.len(),
    ensures
        find_arg(s, i) matches Some(j) ==> i <= j < s.len(),
    decreases s.len() - i,
{
    if i + 1 < s.len() && !(s[i] == ' ' && s[i + 1] == '%') {
        lemma_find_arg(s, i + 1);
    }
}

/// Extracts the exe path from a shell open command like `"C:\..\X.exe" %1`.
pub fn parse_command_exe(cmd: &str) -> (r: String)
    ensures
        r@ == spec_parse_command_exe(cmd@),
{
    let raw = chars_of(cmd);
    let c = trim_chars(raw.as_slice());
    if c.len() > 0 && c[0] == '"' {
        let mut j: usize = 1;
        proof {
            lemma_find_quote(c@.skip(1), 0);
        }
        while j < c.len() && c[j] != '"'
            invariant
                1 <= j <= c.len(),
                find_quote(c@.skip(1), 0) == find_quote(c@.skip(1), j - 1),
            decreases c.len() - j,
        {
            j = j + 1;
        }
        if j < c.len() {
            let r = copy_range(c.as_slice(), 1, j);
            assert(r@ == c@.skip(1).take(j - 1));
            return string_of(&r);
        }
        assert(find_quote(c@.skip(1), (c.len() - 1) as int) is None);
    }
    let mut i: usize = 0;
    while i < c.len() && i + 1 < c.len() && !(c[i] == ' ' && c[i + 1] == '%')
        invariant
            i <= c.len(),
            find_arg(c@, 0) == find_arg(c@, i as int),
        decreases c.len() - i,
    {
        i = i + 1;
    }
    if i < c.len() && i + 1 < c.len() {
        let head = copy_range(c.as_slice(), 0, i);
        let t = trim_chars(head.as_slice());
        string_of(&t)
    } else {
        assert(find_arg(c@, i as int) is None);
        let t = trim_chars(c.as_slice());
        string_of(&t)
    }
}

/// The two Windows "App Paths" keys of an exe file name, in lookup order.
pub fn app_paths_keys(exe: &str) -> (r: (String, String))
    ensures
        r.0@ == "HKLM\\SOFTWARE\\Microsoft\\Windows\\CurrentVersion\\App Paths\\"@ + exe@,
        r.1@ == "HKLM\\SOFTWARE\\WOW6432Node\\Microsoft\\Windows\\CurrentVersion\\App Paths\\"@ + exe@,
{
    let mut a = String::from_str("HKLM\\SOFTWARE\\Microsoft\\Windows\\CurrentVersion\\App Paths\\");
    a.append(exe);
    let mut b = String::from_str(
        "HKLM\\SOFTWARE\\WOW6432Node\\Microsoft\\Windows\\CurrentVersion\\App Paths\\",
    );
    b.append(exe);
    (a, b)
}

/// The key of a URL-protocol handler's open command.
pub fn url_command_key(scheme: &str) -> (r: String)
    ensures
        r@ == "HKCR\\"@ + scheme@ + "\\shell\\open\\command"@,
{
    let mut a = String::from_str("HKCR\\");
    a.append(scheme);
    a.append("\\shell\\open\\command");
    a
}

/// The key whose presence shows a URL-protocol scheme is registered.
pub fn url_scheme_key(scheme: &str) -> (r: String)
    ensures
        r@ == "HKCR\\"@ + scheme@,
{
    let mut a = String::from_str("HKCR\\");
    a.append(scheme);
    a
}

/// What shows a login artifact present on a machine, for telling whether a
/// platform is installed or used there.
pub enum InstallProbe {
    /// The folder that holds a live login path (expanded by the caller) exists.
    FolderOf { live: String },
    /// A registry value exists.
    ValueExists { key: String, value: String },
}

/// The probe of one login artifact: a file's folder, or the registry value.
pub open spec fn probe_for(p: InstallProbe, a: LoginArtifact) -> bool {
    match (p, a) {
        (InstallProbe::FolderOf { live }, LoginArtifact::File { live: l, .. }) => live@ == l@,
        (InstallProbe::ValueExists { key, value }, LoginArtifact::Registry { key: k, value: v, .. }) => key@
            == k@ && value@ == v@,
        _ => false,
    }
}

/// The probes of the platform's login artifacts, one per artifact, in order.
pub fn login_probes(plat: &PlatformDef) -> (r: Vec<InstallProbe>)
    ensures
        r@.len() == plat.login@.len(),
        forall|i: int| 0 <= i < r@.len() ==> probe_for(#[trigger] r@[i], plat.login@[i]),
{
    let mut r: Vec<InstallProbe> = Vec::new();
    let mut i: usize = 0;
    while i < plat.login.len()
        invariant
            i <= plat.login.len(),
            r@.len() == i,
            forall|k: int| 0 <= k < i ==> probe_for(#[trigger] r@[k], plat.login@[k]),
        decreases plat.login.len() - i,
    {
        let p = match &plat.login[i] {
            LoginArtifact::File { live, .. } => InstallProbe::FolderOf { live: live.clone() },
            LoginArtifact::Registry { key, value, .. } => InstallProbe::ValueExists {
                key: key.clone(),
                value: value.clone(),
            },
        };
        r.push(p);
        i = i + 1;
    }
    r
}

/// The registry keys whose presence shows the schemes of the URL-protocol
/// locators among `locs` registered, in order.
pub open spec fn scheme_keys(locs: Seq<ExeLocator>) -> Seq<Seq<char>>
    decreases locs.len(),
{
    if locs.len() == 0 {
        Seq::empty()
    } else {
        scheme_keys(locs.drop_last()) + match locs.last() {
            ExeLocator::UrlProtocol { scheme } => seq!["HKCR\\"@ + scheme@],
            _ => Seq::empty(),
        }
    }
}

/// The keys to look for to tell whether the platform's URL-protocol schemes
/// are registered: one per URL-protocol locator, in order.
pub fn registered_scheme_keys(plat: &PlatformDef) -> (r: Vec<String>)
    ensures
        r@.map_values(|k: String| k@) == scheme_keys(plat.exe_locators@),
{
    let mut r: Vec<String> = Vec::new();
    let mut i: usize = 0;
    while i < plat.exe_locators.len()
        invariant
            i <= plat.exe_locators.len(),
            r@.map_values(|k: String| k@) == scheme_keys(plat.exe_locators@.take(i as int)),
        decreases plat.exe_locators.len() - i,
    {
        let ghost before = r@.map_values(|k: String| k@);
        assert(plat.exe_locators@.take(i + 1).drop_last() =~= plat.exe_locators@.take(i as int));
        match &plat.exe_locators[i] {
            ExeLocator::UrlProtocol { scheme } => {
                let k = url_scheme_key(scheme.as_str());
                r.push(k);
                assert(r@.map_values(|k: String| k@) =~= before + seq!["HKCR\\"@ + scheme@]);
            },
            _ => {
                assert(before + Seq::<Seq<char>>::empty() =~= before);
            },
        }
        i = i + 1;
    }
    assert(plat.exe_locators@.take(plat.exe_locators.len() as int) =~= plat.exe_locators@);
    r
}

/// A registry locator's path: the value read, with the suffix appended.
pub fn with_suffix(base: String, suffix: &Option<String>) -> (r: String)
    ensures
        r@ == base@ + match suffix {
            Some(s) => s@,
            None => Seq::empty(),
        },
{
    match suffix {
        Some(s) => {
            let mut b = base;
            b.append(s.as_str());
            b
        },
        None => {
            let b = base;
            assert(b@ + Seq::<char>::empty() =~= b@);
            b
        },
    }
}

// ---- resolving the launcher ----------------------------------------------

/// Where a locator points, given what it reads: for `Path`, its path with
/// variables expanded (`expanded`); for `Registry`, the value read (`first`),
/// with the suffix appended; for `AppPaths`, the default values of its two
/// keys in lookup order (`first`, then `second`), quotes stripped; for
/// `UrlProtocol`, the exe of the handler's open command (`first`). An absent
/// or unreadable value is `None`.
pub open spec fn spec_located(
    loc: ExeLocator,
    expanded: Seq<char>,
    first: Option<Seq<char>>,
    second: Option<Seq<char>>,
) -> Option<Seq<char>> {
    match loc {
        ExeLocator::Path { .. } => Some(expanded),
        ExeLocator::Registry { suffix, .. } => match first {
            Some(b) => Some(b + or_empty(suffix)),
            None => None,
        },
        ExeLocator::AppPaths { .. } => match first {
            Some(v) => Some(spec_strip_quotes(v)),
            None => match second {
                Some(v) => Some(spec_strip_quotes(v)),
                None => None,
            },
        },
        ExeLocator::UrlProtocol { .. } => match first {
            Some(c) => Some(spec_parse_command_exe(c)),
            None => None,
        },
    }
}

/// See [`spec_located`].
pub fn located_path(loc: &ExeLocator, expanded: String, first: Option<String>, second: Option<String>) -> (r: Option<String>)
    ensures
        opt_view(r) == spec_located(*loc, expanded@, opt_view(first), opt_view(second)),
{
    match loc {
        ExeLocator::Path { .. } => Some(expanded),
        ExeLocator::Registry { suffix, .. } => match first {
            Some(b) => Some(with_suffix(b, suffix)),
            None => None,
        },
        ExeLocator::AppPaths { .. } => match first {
            Some(v) => Some(strip_quotes(v.as_str())),
            None => match second {
                Some(v) => Some(strip_quotes(v.as_str())),
                None => None,
            },
        },
        ExeLocator::UrlProtocol { .. } => match first {
            Some(c) => Some(parse_command_exe(c.as_str())),
            None => None,
        },
    }
}

/// The launcher: the first located path that exists (from `i` on), else the
/// expanded default (returned even when missing, so a failed launch names a
/// concrete path).
pub open spec fn spec_resolve(cands: Seq<(Option<Seq<char>>, bool)>, default: Option<Seq<char>>, i: int) -> Option<Seq<char>>
    decreases cands.len() - i,
{
    if i < 0 || i >= cands.len() {
        default
    } else if cands[i].0 is Some && cands[i].1 {
        cands[i].0
    } else {
        spec_resolve(cands, default, i + 1)
    }
}

/// The first locator whose path exists wins; the default is used only when
/// none does.
pub proof fn law_first_existing_locator_wins(
    cands: Seq<(Option<Seq<char>>, bool)>,
    default: Option<Seq<char>>,
    i: int,
)
    requires
        0 <= i < cands.len(),
        cands[i].0 is Some && cands[i].1,
        forall|k: int| 0 <= k < i ==> !(#[trigger] cands[k].0 is Some && cands[k].1),
    ensures
        spec_resolve(cands, default, 0) == cands[i].0,
{
    lemma_resolve_from(cands, default, 0, i);
}

proof fn lemma_resolve_from(cands: Seq<(Option<Seq<char>>, bool)>, default: Option<Seq<char>>, k: int, i: int)
    requires
        0 <= k <= i < cands.len(),
        cands[i].0 is Some && cands[i].1,
        forall|j: int| k <= j < i ==> !(#[trigger] cands[j].0 is Some && cands[j].1),
    ensures
        spec_resolve(cands, default, k) == cands[i].0,
    decreases i - k,
{
    if k < i {
        lemma_resolve_from(cands, default, k + 1, i);
    }
}

/// With no existing locator the expanded default is the launcher.
pub proof fn law_default_when_none_exists(cands: Seq<(Option<Seq<char>>, bool)>, default: Option<Seq<char>>)
    requires
        forall|k: int| 0 <= k < cands.len() ==> !(#[trigger] cands[k].0 is Some && cands[k].1),
    ensures
        spec_resolve(cands, default, 0) == default,
{
    lemma_resolve_none(cands, default, 0);
}

proof fn lemma_resolve_none(cands: Seq<(Option<Seq<char>>, bool)>, default: Option<Seq<char>>, k: int)
    requires
        0 <= k <= cands.len(),
        forall|j: int| k <= j < cands.len() ==> !(#[trigger] cands[j].0 is Some && cands[j].1),
    ensures
        spec_resolve(cands, default, k) == default,
    decreases cands.len() - k,
{
    if k < cands.len() {
        lemma_resolve_none(cands, default, k + 1);
    }
}

/// The values of located candidates.
pub open spec fn cands_view(v: Seq<(Option<String>, bool)>) -> Seq<(Option<Seq<char>>, bool)> {
    v.map_values(|c: (Option<String>, bool)| (opt_view(c.0), c.1))
}

/// Picks the launcher from the locators' results, in order (each: the path it
/// located, and whether that path exists), falling back to the expanded
/// default.
pub fn resolve_exe(candidates: &Vec<(Option<String>, bool)>, default: Option<String>) -> (r: Option<String>)
    ensures
        opt_view(r) == spec_resolve(cands_view(candidates@), opt_view(default), 0),
{
    let ghost cv = cands_view(candidates@);
    let mut i: usize = 0;
    while i < candidates.len()
        invariant
            i <= candidates.len(),
            cv == cands_view(candidates@),
            spec_resolve(cv, opt_view(default), 0) == spec_resolve(cv, opt_view(default), i as int),
        decreases candidates.len() - i,
    {
        assert(cv[i as int] == (opt_view(candidates@[i as int].0), candidates@[i as int].1));
        if candidates[i].1 {
            match &candidates[i].0 {
                Some(p) => {
                    return Some(p.clone());
                },
                None => {},
            }
        }
        i = i + 1;
    }
    default
}

/// The arguments a launch passes: the definition's, else none.
pub fn launch_args(plat: &PlatformDef) -> (r: String)
    ensures
        r@ == or_empty(plat.exe_args),
{
    match &plat.exe_args {
        Some(a) => a.clone(),
        None => String::new(),
    }
}

// ---- App Paths values ---------------------------------------------------

/// A character a registry path value may be wrapped in: whitespace or `"`.
pub open spec fn wrapping_char(c: char) -> bool {
    crate::text::is_ws(c) || c == '"'
}

/// `r` is `v` unwrapped: a stretch of `v` cut out from between wrapping
/// characters only, that neither starts nor ends with a `"`.
pub open spec fn unwrapped_from(r: Seq<char>, v: Seq<char>) -> bool {
    &&& r.len() > 0 ==> r[0] != '"' && r.last() != '"'
    &&& exists|i: int, j: int|
        0 <= i <= j <= v.len() && r == v.subrange(i, j) && (forall|k: int|
            0 <= k < i ==> wrapping_char(#[trigger] v[k])) && (forall|k: int|
            j <= k < v.len() ==> wrapping_char(#[trigger] v[k]))
}

proof fn lemma_trim_start_cut(s: Seq<char>) -> (i: int)
    ensures
        0 <= i <= s.len(),
        crate::text::trim_start(s) == s.skip(i),
        forall|k: int| 0 <= k < i ==> crate::text::is_ws(#[trigger] s[k]),
    decreases s.len(),
{
    if s.len() > 0 && crate::text::is_ws(s[0]) {
        let i = lemma_trim_start_cut(s.skip(1));
        assert(s.skip(1).skip(i) =~= s.skip(i + 1));
        assert forall|k: int| 0 <= k < i + 1 implies crate::text::is_ws(#[trigger] s[k]) by {
            if k > 0 {
                assert(s.skip(1)[k - 1] == s[k]);
            }
        }
        i + 1
    } else {
        assert(s.skip(0) =~= s);
        0
    }
}

proof fn lemma_trim_end_cut(s: Seq<char>) -> (j: int)
    ensures
        0 <= j <= s.len(),
        crate::text::trim_end(s) == s.take(j),
        forall|k: int| j <= k < s.len() ==> crate::text::is_ws(#[trigger] s[k]),
    decreases s.len(),
{
    if s.len() > 0 && crate::text::is_ws(s.last()) {
        let j = lemma_trim_end_cut(s.drop_last());
        assert(s.drop_last().take(j) =~= s.take(j));
        assert forall|k: int| j <= k < s.len() implies crate::text::is_ws(#[trigger] s[k]) by {
            if k < s.len() - 1 {
                assert(s.drop_last()[k] == s[k]);
            }
        }
        j
    } else {
        assert(s.take(s.len() as int) =~= s);
        s.len() as int
    }
}

proof fn lemma_dq_start_cut(s: Seq<char>) -> (i: int)
    ensures
        0 <= i <= s.len(),
        strip_dq_start(s) == s.skip(i),
        forall|k: int| 0 <= k < i ==> #[trigger] s[k] == '"',
        strip_dq_start(s).len() > 0 ==> strip_dq_start(s)[0] != '"',
    decreases s.len(),
{
    if s.len() > 0 && s[0] == '"' {
        let i = lemma_dq_start_cut(s.skip(1));
        assert(s.skip(1).skip(i) =~= s.skip(i + 1));
        assert forall|k: int| 0 <= k < i + 1 implies #[trigger] s[k] == '"' by {
            if k > 0 {
                assert(s.skip(1)[k - 1] == s[k]);
            }
        }
        i + 1
    } else {
        assert(s.skip(0) =~= s);
        0
    }
}

proof fn lemma_dq_end_cut(s: Seq<char>) -> (j: int)
    ensures
        0 <= j <= s.len(),
        strip_dq_end(s) == s.take(j),
        forall|k: int| j <= k < s.len() ==> #[trigger] s[k] == '"',
        strip_dq_end(s).len() > 0 ==> strip_dq_end(s).last() != '"',
    decreases s.len(),
{
    if s.len() > 0 && s.last() == '"' {
        let j = lemma_dq_end_cut(s.drop_last());
        assert(s.drop_last().take(j) =~= s.take(j));
        assert forall|k: int| j <= k < s.len() implies #[trigger] s[k] == '"' by {
            if k < s.len() - 1 {
                assert(s.drop_last()[k] == s[k]);
            }
        }
        j
    } else {
        assert(s.take(s.len() as int) =~= s);
        s.len() as int
    }
}

/// A value with its surrounding whitespace and double quotes removed is
/// that value unwrapped.
proof fn lemma_strip_quotes_unwraps(v: Seq<char>)
    ensures
        unwrapped_from(spec_strip_quotes(v), v),
{
    let a = lemma_trim_start_cut(v);
    let t0 = crate::text::trim_start(v);
    let b = lemma_trim_end_cut(t0);
    let t = trim(v);
    assert(t == t0.take(b));
    let c = lemma_dq_start_cut(t);
    let u = strip_dq_start(t);
    let d = lemma_dq_end_cut(u);
    let r = spec_strip_quotes(v);
    assert(r == u.take(d));
    let i = a + c;
    let j = a + c + d;
    assert(r =~= v.subrange(i, j));
    assert forall|k: int| 0 <= k < i implies wrapping_char(#[trigger] v[k]) by {
        if k >= a {
            assert(t[k - a] == v[k]);
        }
    }
    assert forall|k: int| j <= k < v.len() implies wrapping_char(#[trigger] v[k]) by {
        if k < a + b {
            if k < a + c + u.len() {
                assert(u[k - a - c] == v[k]);
            } else {
                assert(t[k - a] == v[k]);
            }
        } else {
            assert(t0[k - a] == v[k]);
        }
    }
    if r.len() > 0 {
        assert(r[0] == u[0]);
    }
}

/// An App Paths locator gives the value read with its surrounding
/// whitespace and double quotes removed, from the 64-bit key when that has a
/// value, else from the 32-bit one; nothing when neither has.
pub proof fn law_app_paths_unquoted(
    loc: ExeLocator,
    expanded: Seq<char>,
    first: Option<Seq<char>>,
    second: Option<Seq<char>>,
)
    requires
        loc is AppPaths,
    ensures
        first matches Some(v) ==> spec_located(loc, expanded, first, second) matches Some(r) && unwrapped_from(r, v),
        first is None ==> (second matches Some(v) ==> spec_located(loc, expanded, first, second) matches Some(r)
            && unwrapped_from(r, v)),
        first is None && second is None ==> spec_located(loc, expanded, first, second) is None,
{
    match first {
        Some(v) => lemma_strip_quotes_unwraps(v),
        None => match second {
            Some(v) => lemma_strip_quotes_unwraps(v),
            None => {},
        },
    }
}

} // verus!
