//! The saved-account store: its layout, account-list updates and the saved
//! registry values of an account.
//!
//! Layout under the data folder:
//! `accounts/<platform>/accounts.json` (the account list),
//! `accounts/<platform>/<account_id>/...` (saved login files),
//! `accounts/<platform>/<account_id>/registry.json` (saved registry values),
//! `.playertwo.lock` (the cross-process mutation lock). Paths are joined with
//! `/`, which both Windows and Unix accept, the way `Path::join` joins them.

use crate::model::{accounts_view, Account, AccountV};
use crate::text::{chars_of, push_char, string_of, trim_start, trim_start_chars};
use vstd::prelude::*;

verus! {

/// Schema version written to `accounts.json`.
pub const STORE_VERSION: u32 = 1;

/// `b` (a relative name) under path `a`, as `Path::join` puts it: `b` alone
/// under an empty path, no second separator after one `a` ends with.
pub open spec fn join_path(a: Seq<char>, b: Seq<char>) -> Seq<char> {
    if a.len() == 0 {
        b
    } else if a.last() == '/' || a.last() == '\\' {
        a + b
    } else {
        a + seq!['/'] + b
    }
}

/// `b` under path `a` as a string (see [`join_path`]).
pub fn join(a: &str, b: &str) -> (r: String)
    ensures
        r@ == join_path(a@, b@),
{
    let ac = chars_of(a);
    let mut s = String::from_str(a);
    if ac.len() == 0 {
        return String::from_str(b);
    }
    let last = ac[ac.len() - 1];
    if last != '/' && last != '\\' {
        push_char(&mut s, '/');
    }
    s.append(b);
    s
}

/// A character that may not appear in a folder name.
pub open spec fn unsafe_char(c: char) -> bool {
    c == '\\' || c == '/' || c == ':' || c == '*' || c == '?' || c == '"' || c == '<' || c == '>'
        || c == '|'
}

/// An id made safe as a folder name: each unsafe character becomes `_`.
pub open spec fn spec_sanitize(id: Seq<char>) -> Seq<char> {
    id.map_values(|c: char| if unsafe_char(c) { '_' } else { c })
}

/// Makes an arbitrary id safe to use as a folder name.
pub fn sanitize(id: &str) -> (r: String)
    ensures
        r@ == spec_sanitize(id@),
{
    let c = chars_of(id);
    let mut out = String::new();
    let mut i: usize = 0;
    while i < c.len()
        invariant
            i <= c.len(),
            c@ == id@,
            out@ == spec_sanitize(c@.take(i as int)),
        decreases c.len() - i,
    {
        let x = c[i];
        let bad = x == '\\' || x == '/' || x == ':' || x == '*' || x == '?' || x == '"' || x == '<'
            || x == '>' || x == '|';
        push_char(&mut out, if bad { '_' } else { x });
        assert(spec_sanitize(c@.take(i + 1)) =~= spec_sanitize(c@.take(i as int)).push(
            if unsafe_char(x) { '_' } else { x },
        ));
        i = i + 1;
    }
    assert(c@.take(c@.len() as int) == c@);
    out
}

/// The on-disk store of saved accounts, rooted at a data folder.
pub struct Store {
    pub root: String,
}

impl Store {
    /// A store rooted at `root`.
    pub fn new(root: String) -> (s: Store)
        ensures
            s.root@ == root@,
    {
        Store { root }
    }

    /// `<root>/accounts/<platform>`.
    pub open spec fn spec_platform_dir(&self, platform: Seq<char>) -> Seq<char> {
        join_path(join_path(self.root@, "accounts"@), platform)
    }

    /// `<root>/accounts/<platform>/<sanitized id>`.
    pub open spec fn spec_account_dir(&self, platform: Seq<char>, account_id: Seq<char>) -> Seq<char> {
        join_path(self.spec_platform_dir(platform), spec_sanitize(account_id))
    }

    /// The folder holding a platform's account list and accounts.
    pub fn platform_dir(&self, platform: &str) -> (r: String)
        ensures
            r@ == self.spec_platform_dir(platform@),
    {
        let a = join(self.root.as_str(), "accounts");
        join(a.as_str(), platform)
    }

    /// The folder holding one account's saved login files.
    pub fn account_dir(&self, platform: &str, account_id: &str) -> (r: String)
        ensures
            r@ == self.spec_account_dir(platform@, account_id@),
    {
        let p = self.platform_dir(platform);
        let s = sanitize(account_id);
        join(p.as_str(), s.as_str())
    }

    /// `<platform dir>/accounts.json`.
    pub fn accounts_file(&self, platform: &str) -> (r: String)
        ensures
            r@ == join_path(self.spec_platform_dir(platform@), "accounts.json"@),
    {
        let p = self.platform_dir(platform);
        join(p.as_str(), "accounts.json")
    }

    /// `<account dir>/registry.json`.
    pub fn registry_file(&self, platform: &str, account_id: &str) -> (r: String)
        ensures
            r@ == join_path(self.spec_account_dir(platform@, account_id@), "registry.json"@),
    {
        let d = self.account_dir(platform, account_id);
        join(d.as_str(), "registry.json")
    }

    /// `<platform dir>/last_used.json`.
    pub fn last_used_file(&self, platform: &str) -> (r: String)
        ensures
            r@ == join_path(self.spec_platform_dir(platform@), "last_used.json"@),
    {
        let p = self.platform_dir(platform);
        join(p.as_str(), "last_used.json")
    }

    /// `<root>/.playertwo.lock`.
    pub fn lock_path(&self) -> (r: String)
        ensures
            r@ == join_path(self.root@, ".playertwo.lock"@),
    {
        join(self.root.as_str(), ".playertwo.lock")
    }

    /// Inserts or updates an account in a platform's list, keeping the order:
    /// the first account with the same id is replaced, or the account is
    /// appended.
    pub fn upsert_account(accounts: &mut Vec<Account>, account: Account)
        ensures
            accounts_view(final(accounts)@) == spec_upsert(accounts_view(old(accounts)@), account@),
    {
        let ghost before = accounts_view(accounts@);
        let mut i: usize = 0;
        while i < accounts.len()
            invariant
                i <= accounts.len(),
                before == accounts_view(accounts@),
                before == accounts_view(old(accounts)@),
                find_account_from(before, account@.id, 0) == find_account_from(
                    before,
                    account@.id,
                    i as int,
                ),
            decreases accounts.len() - i,
        {
            assert(before[i as int] == accounts@[i as int]@);
            if accounts[i].id == account.id {
                let ghost a = account@;
                assert(find_account_from(before, a.id, i as int) == Some(i as int));
                accounts.set(i, account);
                assert(accounts_view(accounts@) =~= before.update(i as int, a));
                assert(accounts_view(accounts@) == spec_upsert(before, a));
                return;
            }
            i = i + 1;
        }
        let ghost a = account@;
        accounts.push(account);
        assert(accounts_view(accounts@) =~= before.push(a));
    }

    /// Removes every account with this id from a platform's list, keeping the
    /// order of the rest.
    pub fn remove_account(accounts: &mut Vec<Account>, account_id: &str)
        ensures
            accounts_view(final(accounts)@) == accounts_view(old(accounts)@).filter(
                |a: AccountV| a.id != account_id@,
            ),
    {
        let ghost before = accounts_view(accounts@);
        let id = String::from_str(account_id);
        let mut kept: Vec<Account> = Vec::new();
        let mut i: usize = 0;
        while i < accounts.len()
            invariant
                i <= accounts.len(),
                before == accounts_view(accounts@),
                id@ == account_id@,
                accounts_view(kept@) == before.take(i as int).filter(
                    |a: AccountV| a.id != account_id@,
                ),
            decreases accounts.len() - i,
        {
            assert(before[i as int] == accounts@[i as int]@);
            assert(before.take(i + 1).drop_last() == before.take(i as int));
            reveal(Seq::filter);
            if accounts[i].id != id {
                let ghost k = accounts_view(kept@);
                kept.push(accounts[i].copy());
                assert(accounts_view(kept@) =~= k.push(before[i as int]));
            }
            i = i + 1;
        }
        assert(before.take(accounts.len() as int) == before);
        *accounts = kept;
    }
}

/// Index of the first account at or after `i` with this id.
pub open spec fn find_account_from(accs: Seq<AccountV>, id: Seq<char>, i: int) -> Option<int>
    decreases accs.len() - i,
{
    if i < 0 || i >= accs.len() {
        None
    } else if accs[i].id == id {
        Some(i)
    } else {
        find_account_from(accs, id, i + 1)
    }
}

/// The list with `a` inserted or updated in place.
pub open spec fn spec_upsert(accs: Seq<AccountV>, a: AccountV) -> Seq<AccountV> {
    match find_account_from(accs, a.id, 0) {
        Some(i) => accs.update(i, a),
        None => accs.push(a),
    }
}

/// The first account of the list with this id.
pub open spec fn lookup_account(accs: Seq<AccountV>, id: Seq<char>) -> Option<AccountV> {
    match find_account_from(accs, id, 0) {
        Some(i) => Some(accs[i]),
        None => None,
    }
}

/// No two accounts of the list share an id.
pub open spec fn unique_ids(accs: Seq<AccountV>) -> bool {
    forall|i: int, j: int| 0 <= i < j < accs.len() ==> #[trigger] accs[i].id != #[trigger] accs[j].id
}

proof fn lemma_find_account_from(accs: Seq<AccountV>, id: Seq<char>, i: int)
    requires
        0 <= i <= accs.len(),
    ensures
        find_account_from(accs, id, i) matches Some(j) ==> i <= j < accs.len() && accs[j].id == id
            && forall|k: int| i <= k < j ==> #[trigger] accs[k].id != id,
        find_account_from(accs, id, i) is None ==> forall|k: int|
            i <= k < accs.len() ==> #[trigger] accs[k].id != id,
    decreases accs.len() - i,
{
    if i < accs.len() && accs[i].id != id {
        lemma_find_account_from(accs, id, i + 1);
    }
}

proof fn lemma_find_account_exact(accs: Seq<AccountV>, id: Seq<char>, j: int)
    requires
        0 <= j < accs.len(),
        accs[j].id == id,
        forall|k: int| 0 <= k < j ==> #[trigger] accs[k].id != id,
    ensures
        find_account_from(accs, id, 0) == Some(j),
{
    lemma_find_account_from(accs, id, 0);
    match find_account_from(accs, id, 0) {
        Some(x) => {
            if x < j {
                assert(accs[x].id != id);
            } else if x > j {
                assert(accs[j].id != id);
            }
        },
        None => {
            assert(accs[j].id != id);
        },
    }
}

/// Reading an account back after saving it gives what was saved.
pub proof fn law_upsert_then_lookup(accs: Seq<AccountV>, a: AccountV)
    ensures
        lookup_account(spec_upsert(accs, a), a.id) == Some(a),
{
    lemma_find_account_from(accs, a.id, 0);
    let r = spec_upsert(accs, a);
    match find_account_from(accs, a.id, 0) {
        Some(i) => {
            assert forall|k: int| 0 <= k < i implies #[trigger] r[k].id != a.id by {
                assert(r[k] == accs[k]);
            }
            lemma_find_account_exact(r, a.id, i);
        },
        None => {
            assert forall|k: int| 0 <= k < accs.len() implies #[trigger] r[k].id != a.id by {
                assert(r[k] == accs[k]);
            }
            lemma_find_account_exact(r, a.id, accs.len() as int);
        },
    }
}

/// Saving an account leaves every account with another id as it was.
pub proof fn law_upsert_keeps_others(accs: Seq<AccountV>, a: AccountV, id: Seq<char>)
    requires
        id != a.id,
    ensures
        lookup_account(spec_upsert(accs, a), id) == lookup_account(accs, id),
{
    lemma_find_account_from(accs, a.id, 0);
    lemma_find_account_from(accs, id, 0);
    let r = spec_upsert(accs, a);
    assert forall|k: int| 0 <= k < r.len() && #[trigger] r[k].id == id implies k < accs.len()
        && r[k] == accs[k] by {}
    match find_account_from(accs, id, 0) {
        Some(j) => {
            assert forall|k: int| 0 <= k < j implies #[trigger] r[k].id != id by {
                assert(accs[k].id != id);
            }
            lemma_find_account_exact(r, id, j);
        },
        None => {
            lemma_find_account_from(r, id, 0);
            if let Some(j) = find_account_from(r, id, 0) {
                assert(accs[j].id == id);
            }
        },
    }
}

/// Saving an account keeps the list free of duplicate ids, and saving it a
/// second time changes nothing.
pub proof fn law_upsert_unique_idempotent(accs: Seq<AccountV>, a: AccountV)
    ensures
        unique_ids(accs) ==> unique_ids(spec_upsert(accs, a)),
        spec_upsert(spec_upsert(accs, a), a) == spec_upsert(accs, a),
{
    lemma_find_account_from(accs, a.id, 0);
    let r = spec_upsert(accs, a);
    match find_account_from(accs, a.id, 0) {
        Some(i) => {
            assert forall|k: int| 0 <= k < i implies #[trigger] r[k].id != a.id by {
                assert(r[k] == accs[k]);
            }
            lemma_find_account_exact(r, a.id, i);
            assert(r.update(i, a) =~= r);
        },
        None => {
            assert forall|k: int| 0 <= k < accs.len() implies #[trigger] r[k].id != a.id by {
                assert(r[k] == accs[k]);
            }
            lemma_find_account_exact(r, a.id, accs.len() as int);
            assert(r.update(accs.len() as int, a) =~= r);
        },
    }
}

/// After removing an id, no account with it remains.
pub proof fn law_remove_leaves_none(accs: Seq<AccountV>, id: Seq<char>)
    ensures
        lookup_account(accs.filter(|a: AccountV| a.id != id), id) is None,
{
    let pred = |a: AccountV| a.id != id;
    let f = accs.filter(pred);
    lemma_find_account_from(f, id, 0);
    if let Some(j) = find_account_from(f, id, 0) {
        accs.lemma_filter_pred(pred, j);
        assert(false);
    }
}

// ---- accounts.json format -----------------------------------------------

/// Which shape an `accounts.json` text has.
pub enum AccountsFormat {
    /// A bare JSON array (the format before versioning).
    Legacy,
    /// The versioned object `{ "version": .., "accounts": [..] }`.
    Versioned,
}

/// Why the store refused.
pub enum StoreError {
    /// `accounts.json` is present but blank.
    EmptyAccountsFile,
}

/// Which format an `accounts.json` text is read as: blank is an error (a
/// corrupt file must not read as "no accounts"), a leading `[` is the legacy
/// array, anything else the versioned object.
pub fn accounts_format(text: &str) -> (r: Result<AccountsFormat, StoreError>)
    ensures
        trim_start(text@).len() == 0 ==> r matches Err(StoreError::EmptyAccountsFile),
        trim_start(text@).len() > 0 && trim_start(text@)[0] == '[' ==> r matches Ok(
            AccountsFormat::Legacy,
        ),
        trim_start(text@).len() > 0 && trim_start(text@)[0] != '[' ==> r matches Ok(
            AccountsFormat::Versioned,
        ),
{
    let c = chars_of(text);
    let t = trim_start_chars(c.as_slice());
    if t.len() == 0 {
        Err(StoreError::EmptyAccountsFile)
    } else if t[0] == '[' {
        Ok(AccountsFormat::Legacy)
    } else {
        Ok(AccountsFormat::Versioned)
    }
}

// ---- saved registry values ----------------------------------------------

/// No saved name has two entries.
pub open spec fn names_unique(es: Seq<(Seq<char>, Seq<char>)>) -> bool {
    forall|i: int, j: int| #![trigger es[i], es[j]] 0 <= i < j < es.len() ==> es[i].0 != es[j].0
}

/// Saved registry values of one account, by saved name: each name has one
/// entry ([`names_unique`], which `new` and `insert` keep).
pub struct RegistrySnapshot {
    pub entries: Vec<(String, String)>,
}

/// The pairs' values.
pub open spec fn pairs_view(v: Seq<(String, String)>) -> Seq<(Seq<char>, Seq<char>)> {
    v.map_values(|p: (String, String)| (p.0@, p.1@))
}

/// The value stored under `name` (the first pair with that name).
pub open spec fn lookup_pair(es: Seq<(Seq<char>, Seq<char>)>, name: Seq<char>, i: int) -> Option<
    Seq<char>,
>
    decreases es.len() - i,
{
    if i < 0 || i >= es.len() {
        None
    } else if es[i].0 == name {
        Some(es[i].1)
    } else {
        lookup_pair(es, name, i + 1)
    }
}

proof fn lemma_lookup_update_other(
    es: Seq<(Seq<char>, Seq<char>)>,
    j: int,
    np: (Seq<char>, Seq<char>),
    other: Seq<char>,
    i: int,
)
    requires
        0 <= j < es.len(),
        es[j].0 == np.0,
        other != np.0,
        0 <= i,
    ensures
        lookup_pair(es.update(j, np), other, i) == lookup_pair(es, other, i),
    decreases es.len() - i,
{
    if i < es.len() {
        assert(es.update(j, np)[i].0 == es[i].0);
        if es[i].0 != other {
            lemma_lookup_update_other(es, j, np, other, i + 1);
        } else {
            assert(i != j);
        }
    }
}

proof fn lemma_lookup_push(
    es: Seq<(Seq<char>, Seq<char>)>,
    name: Seq<char>,
    val: Seq<char>,
    other: Seq<char>,
    i: int,
)
    requires
        0 <= i <= es.len(),
        forall|k: int| i <= k < es.len() ==> #[trigger] es[k].0 != name,
    ensures
        lookup_pair(es.push((name, val)), other, i) == if other == name {
            Some(val)
        } else {
            lookup_pair(es, other, i)
        },
    decreases es.len() - i,
{
    let p = es.push((name, val));
    if i < es.len() {
        assert(p[i] == es[i]);
        lemma_lookup_push(es, name, val, other, i + 1);
    } else {
        assert(p[i] == (name, val));
        if other != name {
            assert(lookup_pair(p, other, i + 1) is None);
        }
    }
}

impl RegistrySnapshot {
    /// The values of the snapshot's pairs.
    pub open spec fn view_pairs(&self) -> Seq<(Seq<char>, Seq<char>)> {
        pairs_view(self.entries@)
    }

    /// An empty snapshot.
    pub fn new() -> (r: RegistrySnapshot)
        ensures
            r.view_pairs().len() == 0,
            names_unique(r.view_pairs()),
    {
        RegistrySnapshot { entries: Vec::new() }
    }

    /// The data saved under `name`.
    pub fn get(&self, name: &str) -> (r: Option<String>)
        ensures
            r matches Some(v) ==> lookup_pair(self.view_pairs(), name@, 0) == Some(v@),
            r is None ==> lookup_pair(self.view_pairs(), name@, 0) is None,
    {
        let key = String::from_str(name);
        let mut i: usize = 0;
        while i < self.entries.len()
            invariant
                i <= self.entries.len(),
                key@ == name@,
                lookup_pair(self.view_pairs(), name@, 0) == lookup_pair(
                    self.view_pairs(),
                    name@,
                    i as int,
                ),
            decreases self.entries.len() - i,
        {
            assert(self.view_pairs()[i as int] == (
                self.entries@[i as int].0@,
                self.entries@[i as int].1@,
            ));
            if self.entries[i].0 == key {
                return Some(self.entries[i].1.clone());
            }
            i = i + 1;
        }
        None
    }

    /// Saves `data` under `name`, replacing the earlier value.
    pub fn insert(&mut self, name: String, data: String)
        ensures
            lookup_pair(final(self).view_pairs(), name@, 0) == Some(data@),
            forall|other: Seq<char>|
                other != name@ ==> #[trigger] lookup_pair(final(self).view_pairs(), other, 0)
                    == lookup_pair(old(self).view_pairs(), other, 0),
            names_unique(old(self).view_pairs()) ==> names_unique(final(self).view_pairs()),
    {
        let ghost before = self.view_pairs();
        let mut i: usize = 0;
        while i < self.entries.len()
            invariant
                i <= self.entries.len(),
                before == self.view_pairs(),
                before == old(self).view_pairs(),
                forall|k: int| 0 <= k < i ==> #[trigger] before[k].0 != name@,
            decreases self.entries.len() - i,
        {
            assert(before[i as int] == (self.entries@[i as int].0@, self.entries@[i as int].1@));
            if self.entries[i].0 == name {
                let ghost nv = name@;
                let ghost dv = data@;
                self.entries.set(i, (name, data));
                assert(self.view_pairs() =~= before.update(i as int, (nv, dv)));
                proof {
                    assert forall|other: Seq<char>| true implies #[trigger] lookup_pair(
                        self.view_pairs(),
                        other,
                        0,
                    ) == if other == nv {
                        Some(dv)
                    } else {
                        lookup_pair(before, other, 0)
                    } by {
                        if other == nv {
                            lemma_lookup_prefix_free(before.update(i as int, (nv, dv)), nv, i as int);
                        } else {
                            lemma_lookup_update_other(before, i as int, (nv, dv), other, 0);
                        }
                    }
                }
                return;
            }
            i = i + 1;
        }
        let ghost nv = name@;
        let ghost dv = data@;
        self.entries.push((name, data));
        assert(self.view_pairs() =~= before.push((nv, dv)));
        proof {
            assert forall|other: Seq<char>| true implies #[trigger] lookup_pair(
                self.view_pairs(),
                other,
                0,
            ) == if other == nv {
                Some(dv)
            } else {
                lookup_pair(before, other, 0)
            } by {
                lemma_lookup_push(before, nv, dv, other, 0);
            }
        }
    }
}

proof fn lemma_lookup_prefix_free(es: Seq<(Seq<char>, Seq<char>)>, name: Seq<char>, j: int)
    requires
        0 <= j < es.len(),
        es[j].0 == name,
        forall|k: int| 0 <= k < j ==> #[trigger] es[k].0 != name,
    ensures
        lookup_pair(es, name, 0) == Some(es[j].1),
{
    lemma_lookup_skip(es, name, 0, j);
}

proof fn lemma_lookup_skip(es: Seq<(Seq<char>, Seq<char>)>, name: Seq<char>, i: int, j: int)
    requires
        0 <= i <= j < es.len(),
        es[j].0 == name,
        forall|k: int| i <= k < j ==> #[trigger] es[k].0 != name,
    ensures
        lookup_pair(es, name, i) == Some(es[j].1),
    decreases j - i,
{
    if i < j {
        lemma_lookup_skip(es, name, i + 1, j);
    }
}

} // verus!
