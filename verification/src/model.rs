//! Data model: what a platform login is, independent of the operating system.
//!
//! `live` paths use `%VAR%` placeholders, resolved by the host.

use vstd::prelude::*;

verus! {

/// How the currently logged-in account of a platform is identified.
pub enum UniqueId {
    /// A registry value; `key` like `HKCU\Software\...`.
    Registry { key: String, value: String },
    /// The first capture group of a regex matched against a file's text.
    FileRegex { file: String, regex: String },
    /// A string field of a JSON file, addressed by an RFC 6901 pointer.
    JsonField { file: String, pointer: String },
    /// A generated marker file, for platforms without a natural id.
    GeneratedFile { file: String },
}

/// One artifact of a login: a file (or glob) on disk, or a registry value.
/// `saved` names it inside an account's saved folder.
pub enum LoginArtifact {
    /// A file or wildcard path; `live` may hold `%VARS%` and `*`.
    File { live: String, saved: String },
    /// A registry value, copied verbatim.
    Registry { key: String, value: String, saved: String },
}

/// A strategy for locating a platform's launcher, tried in order.
pub enum ExeLocator {
    /// A literal path (may hold `%VARS%`).
    Path { path: String },
    /// The path (or install folder, then `suffix` is appended) in a registry value.
    Registry { key: String, value: String, suffix: Option<String> },
    /// The Windows "App Paths" entry of an exe file name.
    AppPaths { exe: String },
    /// The open command of a URL-protocol handler.
    UrlProtocol { scheme: String },
}

/// Declarative description of one switchable platform.
pub struct PlatformDef {
    /// Stable slug, also the store folder name.
    pub id: String,
    /// Name shown to the user.
    pub name: String,
    /// Launcher to (re)launch when no locator resolves.
    pub exe_default: Option<String>,
    /// Strategies for locating the launcher, tried before `exe_default`.
    pub exe_locators: Vec<ExeLocator>,
    /// Arguments passed when launching.
    pub exe_args: Option<String>,
    /// Process image names to end before touching the login.
    pub exes_to_end: Vec<String>,
    /// How long to wait for those processes to exit.
    pub exit_timeout_secs: Option<u64>,
    /// The files and registry values that make up a login.
    pub login: Vec<LoginArtifact>,
    /// Further live paths deleted on logout.
    pub clear: Vec<String>,
    /// How the signed-in account is read.
    pub unique_id: UniqueId,
}

/// A saved account of a platform.
pub struct Account {
    /// The unique-id value captured at save time.
    pub id: String,
    /// Editable display name.
    pub display_name: String,
    /// Optional note shown under the name.
    pub note: Option<String>,
    /// Path of a profile image inside the account folder.
    pub image: Option<String>,
    /// When the account was last switched to (unix seconds).
    pub last_used: Option<u64>,
}

/// The characters of an optional string.
pub open spec fn opt_view(o: Option<String>) -> Option<Seq<char>> {
    match o {
        Some(s) => Some(s@),
        None => None,
    }
}

/// The characters of an optional string, empty when absent.
pub open spec fn or_empty(o: Option<String>) -> Seq<char> {
    match o {
        Some(s) => s@,
        None => Seq::empty(),
    }
}

/// Mathematical value of an [`Account`].
pub struct AccountV {
    pub id: Seq<char>,
    pub display_name: Seq<char>,
    pub note: Option<Seq<char>>,
    pub image: Option<Seq<char>>,
    pub last_used: Option<u64>,
}

impl View for Account {
    type V = AccountV;

    open spec fn view(&self) -> AccountV {
        AccountV {
            id: self.id@,
            display_name: self.display_name@,
            note: opt_view(self.note),
            image: opt_view(self.image),
            last_used: self.last_used,
        }
    }
}

/// The values of a list of accounts.
pub open spec fn accounts_view(v: Seq<Account>) -> Seq<AccountV> {
    v.map_values(|a: Account| a@)
}

/// An owned copy of an optional string.
pub fn copy_opt(o: &Option<String>) -> (r: Option<String>)
    ensures
        opt_view(r) == opt_view(*o),
{
    match o {
        Some(s) => Some(s.clone()),
        None => None,
    }
}

impl Account {
    /// An owned copy of this account.
    pub fn copy(&self) -> (r: Account)
        ensures
            r@ == self@,
    {
        Account {
            id: self.id.clone(),
            display_name: self.display_name.clone(),
            note: copy_opt(&self.note),
            image: copy_opt(&self.image),
            last_used: self.last_used,
        }
    }
}

/// An owned copy of a list of strings.
pub fn copy_strings(v: &Vec<String>) -> (r: Vec<String>)
    ensures
        r@.len() == v@.len(),
        forall|i: int| 0 <= i < v@.len() ==> #[trigger] r@[i]@ == v@[i]@,
{
    let mut r: Vec<String> = Vec::new();
    let mut i: usize = 0;
    while i < v.len()
        invariant
            i <= v.len(),
            r@.len() == i,
            forall|j: int| 0 <= j < i ==> #[trigger] r@[j]@ == v@[j]@,
        decreases v.len() - i,
    {
        r.push(v[i].clone());
        i = i + 1;
    }
    r
}

/// Outcome of a switch, as shown to the user.
pub struct SwitchOutcome {
    pub switched: bool,
    pub already_active: bool,
    pub launched: bool,
    pub message: String,
}

/// One platform in the overview: its saved-account count, whether it was
/// detected on this machine, and whether it is shown.
pub struct PlatformSummary {
    pub id: String,
    pub name: String,
    pub account_count: usize,
    pub detected: bool,
    pub enabled: bool,
}

/// Result of adding the current login: a new account, or the account already
/// saved under the detected id (`exists`).
pub struct AddResult {
    pub exists: bool,
    pub account: Account,
}

} // verus!
