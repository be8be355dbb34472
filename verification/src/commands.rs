//! What the user-facing commands decide: the order in which a platform's
//! accounts are shown (most recently used first), the merge of saved names
//! into the live Steam account list, and the parts of "add the current
//! account" that do not touch the machine.

use crate::epic::decimal;
use crate::model::{accounts_view, opt_view, Account, AccountV, PlatformDef, PlatformSummary};
use crate::settings::{spec_platform_enabled, Settings};
use crate::store::{find_account_from, lookup_account};
use crate::text::{all_ws, chars_of, is_blank, str_eq, string_of, trim, trim_chars};
use vstd::prelude::*;

verus! {

// ---- most-recently-used order ---------------------------------------------

/// Sort rank of a last-used timestamp: later is higher, never used lowest.
pub open spec fn mru_rank(t: Option<u64>) -> int {
    match t {
        Some(v) => v as int,
        None => -1,
    }
}

/// The accounts with their last-used timestamps taken from `mru`.
pub open spec fn with_last_used(accs: Seq<AccountV>, mru: Seq<(Seq<char>, u64)>) -> Seq<AccountV> {
    accs.map_values(|a: AccountV| AccountV { last_used: crate::host::assoc_get(mru, a.id, 0), ..a })
}

/// The first position of `s` (from `i` on) whose account ranks strictly below
/// `x`, or the end.
pub open spec fn mru_slot(s: Seq<AccountV>, x: AccountV, i: int) -> int
    decreases s.len() - i,
{
    if i < 0 || i >= s.len() {
        s.len() as int
    } else if mru_rank(x.last_used) > mru_rank(s[i].last_used) {
        i
    } else {
        mru_slot(s, x, i + 1)
    }
}

/// `x` inserted into `s` after every account that ranks at least as high.
pub open spec fn mru_insert(s: Seq<AccountV>, x: AccountV) -> Seq<AccountV> {
    s.insert(mru_slot(s, x, 0), x)
}

/// Stable sort by rank, highest first.
pub open spec fn mru_sort(s: Seq<AccountV>) -> Seq<AccountV>
    decreases s.len(),
{
    if s.len() == 0 {
        s
    } else {
        mru_insert(mru_sort(s.drop_last()), s.last())
    }
}

/// The accounts as listed: timestamps applied, then most recently used first,
/// ties (and never-used accounts) in their stored order.
pub open spec fn spec_apply_mru(accs: Seq<AccountV>, mru: Seq<(Seq<char>, u64)>) -> Seq<AccountV> {
    mru_sort(with_last_used(accs, mru))
}

/// The values of a last-used table.
pub open spec fn mru_view(v: Seq<(String, u64)>) -> Seq<(Seq<char>, u64)> {
    v.map_values(|e: (String, u64)| (e.0@, e.1))
}

/// Ranks never increase along the list.
pub open spec fn mru_sorted(s: Seq<AccountV>) -> bool {
    forall|i: int, j: int|
        0 <= i < j < s.len() ==> mru_rank(#[trigger] s[i].last_used) >= mru_rank(
            #[trigger] s[j].last_used,
        )
}

fn last_used_of(mru: &Vec<(String, u64)>, id: &String) -> (r: Option<u64>)
    ensures
        r == crate::host::assoc_get(mru_view(mru@), id@, 0),
{
    let ghost m = mru_view(mru@);
    let mut i: usize = 0;
    while i < mru.len()
        invariant
            i <= mru.len(),
            m == mru_view(mru@),
            crate::host::assoc_get(m, id@, 0) == crate::host::assoc_get(m, id@, i as int),
        decreases mru.len() - i,
    {
        assert(m[i as int] == (mru@[i as int].0@, mru@[i as int].1));
        if mru[i].0 == *id {
            return Some(mru[i].1);
        }
        i = i + 1;
    }
    None
}

fn ranks_above(x: Option<u64>, y: Option<u64>) -> (b: bool)
    ensures
        b == (mru_rank(x) > mru_rank(y)),
{
    match (x, y) {
        (Some(a), Some(b)) => a > b,
        (Some(_), None) => true,
        _ => false,
    }
}

/// Applies the last-used timestamps of `mru` (account id, unix seconds) to
/// the accounts and sorts them most recently used first; equal timestamps and
/// never-used accounts keep their stored order, never-used ones last.
pub fn apply_mru(accounts: Vec<Account>, mru: &Vec<(String, u64)>) -> (r: Vec<Account>)
    ensures
        accounts_view(r@) == spec_apply_mru(accounts_view(accounts@), mru_view(mru@)),
{
    let ghost src = with_last_used(accounts_view(accounts@), mru_view(mru@));
    let mut out: Vec<Account> = Vec::new();
    let mut i: usize = 0;
    assert(src.take(0) =~= Seq::<AccountV>::empty());
    while i < accounts.len()
        invariant
            i <= accounts.len(),
            src == with_last_used(accounts_view(accounts@), mru_view(mru@)),
            src.len() == accounts.len(),
            accounts_view(out@) == mru_sort(src.take(i as int)),
        decreases accounts.len() - i,
    {
        let mut a = accounts[i].copy();
        a.last_used = last_used_of(mru, &a.id);
        let ghost av = a@;
        assert(av == src[i as int]);
        let ghost sorted = accounts_view(out@);
        let mut p: usize = 0;
        while p < out.len() && !ranks_above(a.last_used, out[p].last_used)
            invariant
                p <= out.len(),
                sorted == accounts_view(out@),
                av == a@,
                mru_slot(sorted, av, 0) == mru_slot(sorted, av, p as int),
            decreases out.len() - p,
        {
            p = p + 1;
        }
        out.insert(p, a);
        assert(accounts_view(out@) =~= sorted.insert(p as int, av));
        assert(src.take(i + 1).drop_last() =~= src.take(i as int));
        i = i + 1;
    }
    assert(src.take(accounts.len() as int) =~= src);
    out
}

proof fn lemma_slot(s: Seq<AccountV>, x: AccountV, i: int)
    requires
        0 <= i <= s.len(),
    ensures
        i <= mru_slot(s, x, i) <= s.len(),
        forall|k: int| i <= k < mru_slot(s, x, i) ==> mru_rank(x.last_used) <= mru_rank(#[trigger] s[k].last_used),
        mru_slot(s, x, i) < s.len() ==> mru_rank(x.last_used) > mru_rank(s[mru_slot(s, x, i)].last_used),
    decreases s.len() - i,
{
    if i < s.len() && mru_rank(x.last_used) <= mru_rank(s[i].last_used) {
        lemma_slot(s, x, i + 1);
    }
}

proof fn lemma_insert_sorted(s: Seq<AccountV>, x: AccountV)
    requires
        mru_sorted(s),
    ensures
        mru_sorted(mru_insert(s, x)),
        mru_insert(s, x).len() == s.len() + 1,
{
    lemma_slot(s, x, 0);
    let p = mru_slot(s, x, 0);
    let t = mru_insert(s, x);
    assert forall|i: int, j: int| 0 <= i < j < t.len() implies mru_rank(#[trigger] t[i].last_used) >= mru_rank(
        #[trigger] t[j].last_used,
    ) by {
        if j < p {
            assert(t[i] == s[i] && t[j] == s[j]);
        } else if j == p {
            assert(t[j] == x && t[i] == s[i]);
        } else if i < p {
            assert(t[i] == s[i] && t[j] == s[j - 1]);
        } else if i == p {
            assert(t[i] == x && t[j] == s[j - 1]);
            assert(mru_rank(s[p].last_used) >= mru_rank(s[j - 1].last_used));
        } else {
            assert(t[i] == s[i - 1] && t[j] == s[j - 1]);
        }
    }
}

/// The listing puts more recently used accounts first and never-used ones
/// last.
pub proof fn law_mru_sorted(s: Seq<AccountV>)
    ensures
        mru_sorted(mru_sort(s)),
        mru_sort(s).len() == s.len(),
    decreases s.len(),
{
    if s.len() > 0 {
        law_mru_sorted(s.drop_last());
        lemma_insert_sorted(mru_sort(s.drop_last()), s.last());
    }
}

/// The listing shows every account exactly once: it reorders, never drops or
/// duplicates.
pub proof fn law_mru_permutation(s: Seq<AccountV>)
    ensures
        mru_sort(s).to_multiset() == s.to_multiset(),
    decreases s.len(),
{
    broadcast use vstd::seq_lib::group_to_multiset_ensures;
    broadcast use vstd::multiset::group_multiset_axioms;

    if s.len() > 0 {
        law_mru_permutation(s.drop_last());
        law_mru_sorted(s.drop_last());
        let t = mru_sort(s.drop_last());
        let x = s.last();
        lemma_slot(t, x, 0);
        let p = mru_slot(t, x, 0);
        assert(t.insert(p, x) =~= t.take(p) + (seq![x] + t.skip(p)));
        assert(t =~= t.take(p) + t.skip(p));
        vstd::seq_lib::lemma_multiset_commutative(t.take(p), seq![x] + t.skip(p));
        vstd::seq_lib::lemma_multiset_commutative(seq![x], t.skip(p));
        vstd::seq_lib::lemma_multiset_commutative(t.take(p), t.skip(p));
        assert(s =~= s.drop_last().push(x));
        assert(mru_sort(s).to_multiset() =~= s.to_multiset());
    }
}

proof fn lemma_filter_none(s: Seq<AccountV>, k: Option<u64>)
    requires
        forall|i: int| 0 <= i < s.len() ==> #[trigger] s[i].last_used != k,
    ensures
        s.filter(|a: AccountV| a.last_used == k) == Seq::<AccountV>::empty(),
    decreases s.len(),
{
    if s.len() > 0 {
        lemma_filter_none(s.drop_last(), k);
        assert(s =~= s.drop_last().push(s.last()));
        s.drop_last().lemma_filter_push(s.last(), |a: AccountV| a.last_used == k);
    } else {
        reveal(Seq::filter);
    }
}

/// Accounts with the same timestamp (and the never-used ones) keep their
/// stored order.
pub proof fn law_mru_stable(s: Seq<AccountV>, k: Option<u64>)
    ensures
        mru_sort(s).filter(|a: AccountV| a.last_used == k) == s.filter(|a: AccountV| a.last_used == k),
    decreases s.len(),
{
    let pred = |a: AccountV| a.last_used == k;
    if s.len() == 0 {
        reveal(Seq::filter);
    } else {
        law_mru_stable(s.drop_last(), k);
        law_mru_sorted(s.drop_last());
        let t = mru_sort(s.drop_last());
        let x = s.last();
        lemma_slot(t, x, 0);
        let p = mru_slot(t, x, 0);
        assert(t.insert(p, x) =~= t.take(p) + (seq![x] + t.skip(p)));
        assert(t =~= t.take(p) + t.skip(p));
        Seq::filter_distributes_over_add(t.take(p), seq![x] + t.skip(p), pred);
        Seq::filter_distributes_over_add(seq![x], t.skip(p), pred);
        Seq::filter_distributes_over_add(t.take(p), t.skip(p), pred);
        assert(s =~= s.drop_last().push(x));
        s.drop_last().lemma_filter_push(x, pred);
        Seq::<AccountV>::empty().lemma_filter_push(x, pred);
        assert(seq![x] =~= Seq::<AccountV>::empty().push(x));
        reveal(Seq::filter);
        if x.last_used == k {
            assert forall|i: int| 0 <= i < t.skip(p).len() implies #[trigger] t.skip(p)[i].last_used != k by {
                assert(t.skip(p)[i] == t[p + i]);
                assert(mru_rank(t[p].last_used) >= mru_rank(t[p + i].last_used));
            }
            lemma_filter_none(t.skip(p), k);
            assert(mru_sort(s).filter(pred) =~= t.filter(pred).push(x));
        } else {
            assert(mru_sort(s).filter(pred) =~= t.filter(pred));
        }
    }
}

// ---- saved names over the live Steam list ----------------------------------

/// A live account with the saved name, image and (if present) note of its
/// override.
pub open spec fn merge_one(a: AccountV, o: Option<AccountV>) -> AccountV {
    match o {
        Some(o) => AccountV {
            display_name: o.display_name,
            note: if o.note is Some { o.note } else { a.note },
            image: o.image,
            ..a
        },
        None => a,
    }
}

/// Each live account merged with the first saved account of the same id.
pub open spec fn spec_merge_overrides(live: Seq<AccountV>, saved: Seq<AccountV>) -> Seq<AccountV> {
    live.map_values(|a: AccountV| merge_one(a, lookup_account(saved, a.id)))
}

/// The first saved account with this id.
pub fn find_saved(accounts: &Vec<Account>, id: &str) -> (r: Option<Account>)
    ensures
        match r {
            Some(a) => lookup_account(accounts_view(accounts@), id@) == Some(a@),
            None => lookup_account(accounts_view(accounts@), id@) is None,
        },
{
    let ghost v = accounts_view(accounts@);
    let key = String::from_str(id);
    let mut i: usize = 0;
    while i < accounts.len()
        invariant
            i <= accounts.len(),
            v == accounts_view(accounts@),
            key@ == id@,
            find_account_from(v, id@, 0) == find_account_from(v, id@, i as int),
        decreases accounts.len() - i,
    {
        assert(v[i as int] == accounts@[i as int]@);
        if accounts[i].id == key {
            return Some(accounts[i].copy());
        }
        i = i + 1;
    }
    None
}

/// Overlays the saved display name, note and image onto the live Steam
/// accounts: a saved note replaces the live one only when present; accounts
/// without a saved entry are unchanged.
pub fn merge_steam_overrides(live: Vec<Account>, saved: &Vec<Account>) -> (r: Vec<Account>)
    ensures
        accounts_view(r@) == spec_merge_overrides(accounts_view(live@), accounts_view(saved@)),
{
    let ghost lv = accounts_view(live@);
    let ghost sv = accounts_view(saved@);
    let mut out: Vec<Account> = Vec::new();
    let mut i: usize = 0;
    while i < live.len()
        invariant
            i <= live.len(),
            lv == accounts_view(live@),
            sv == accounts_view(saved@),
            accounts_view(out@) == spec_merge_overrides(lv, sv).take(i as int),
        decreases live.len() - i,
    {
        let mut a = live[i].copy();
        let ghost before = a@;
        match find_saved(saved, a.id.as_str()) {
            Some(o) => {
                a.display_name = o.display_name;
                if o.note.is_some() {
                    a.note = o.note;
                }
                a.image = o.image;
            },
            None => {},
        }
        assert(a@ == merge_one(before, lookup_account(sv, before.id)));
        let ghost prev = accounts_view(out@);
        out.push(a);
        assert(accounts_view(out@) =~= prev.push(a@));
        assert(spec_merge_overrides(lv, sv).take(i + 1) =~= spec_merge_overrides(lv, sv).take(
            i as int,
        ).push(a@));
        i = i + 1;
    }
    assert(spec_merge_overrides(lv, sv).take(live.len() as int) =~= spec_merge_overrides(lv, sv));
    out
}

// ---- the data folder ---------------------------------------------------------

/// Process-wide state: where saved accounts live (changeable at runtime).
pub struct AppState {
    pub data_dir: String,
}

impl AppState {
    /// State for the given data folder.
    pub fn new(data_dir: String) -> (s: AppState)
        ensures
            s.data_dir@ == data_dir@,
    {
        AppState { data_dir }
    }
}

/// A requested data folder: the path trimmed, refused when nothing is left.
pub fn checked_data_dir(path: &str) -> (r: Result<String, String>)
    ensures
        match r {
            Ok(d) => d@ == trim(path@) && d@.len() > 0,
            Err(e) => trim(path@).len() == 0 && e@ == "empty path"@,
        },
{
    let c = chars_of(path);
    let t = trim_chars(c.as_slice());
    if t.len() == 0 {
        Err(String::from_str("empty path"))
    } else {
        Ok(string_of(&t))
    }
}

// ---- adding the current account -------------------------------------------

/// `acct-<now>`.
pub open spec fn generated_id(now: u64) -> Seq<char> {
    "acct-"@ + decimal(now as nat)
}

/// The message for an unknown platform id.
pub fn unknown_platform(platform: &str) -> (r: String)
    ensures
        r@ == "unknown platform: "@ + platform@,
{
    let mut m = String::from_str("unknown platform: ");
    m.append(platform);
    m
}

/// The name an added Epic account gets: the given name unless it is blank,
/// then the name found in the launcher's logs, else the id.
pub open spec fn spec_epic_account_name(name: Seq<char>, username: Option<Seq<char>>, id: Seq<char>) -> Seq<char> {
    if all_ws(name) {
        match username {
            Some(u) => u,
            None => id,
        }
    } else {
        name
    }
}

/// See [`spec_epic_account_name`].
pub fn epic_account_name(display_name: String, username: Option<String>, id: &str) -> (r: String)
    ensures
        r@ == spec_epic_account_name(display_name@, opt_view(username), id@),
{
    let c = chars_of(display_name.as_str());
    if is_blank(c.as_slice()) {
        match username {
            Some(u) => u,
            None => String::from_str(id),
        }
    } else {
        display_name
    }
}

/// A newly added account: no note, no image, never used.
pub fn new_account(id: String, display_name: String) -> (a: Account)
    ensures
        a@ == (AccountV { id: id@, display_name: display_name@, note: None, image: None, last_used: None }),
{
    Account { id, display_name, note: None, image: None, last_used: None }
}

// ---- platform list and launch settings ---------------------------------------

/// A platform's overview entry: shown when enabled explicitly, else when
/// detected.
pub fn platform_summary(def: &PlatformDef, account_count: usize, detected: bool, settings: &Settings) -> (r: PlatformSummary)
    ensures
        r.id@ == def.id@,
        r.name@ == def.name@,
        r.account_count == account_count,
        r.detected == detected,
        r.enabled == spec_platform_enabled(settings.platforms@, def.id@, detected),
{
    PlatformSummary {
        id: def.id.clone(),
        name: def.name.clone(),
        account_count,
        detected,
        enabled: settings.platform_enabled(def.id.as_str(), detected),
    }
}

/// The definition used to switch or log in: Epic launches without its
/// silent-launch arguments when silent launching is turned off.
pub fn launch_def(def: PlatformDef, platform: &str, epic_silent: bool) -> (r: PlatformDef)
    ensures
        r == (if platform@ == "epic"@ && !epic_silent {
            PlatformDef { exe_args: None, ..def }
        } else {
            def
        }),
{
    if str_eq(platform, "epic") && !epic_silent {
        PlatformDef { exe_args: None, ..def }
    } else {
        def
    }
}

} // verus!
