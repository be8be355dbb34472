//! Steam account listing, current-account detection and switching, decided
//! on the text of `loginusers.vdf` and the `AutoLoginUser` registry value.

use crate::model::{or_empty, Account, AccountV};
use crate::text::{chars_of, string_of};
use crate::vdf::{
    blocks_view, parse, serialize, spec_get, spec_parse, spec_serialize, spec_set, BlockV,
    UserBlock,
};
use vstd::prelude::*;

verus! {

/// `str::to_lowercase` (full Unicode lower-casing).
pub uninterp spec fn unicode_lowercase(s: Seq<char>) -> Seq<char>;

/// Lower-cases a string the way `str::to_lowercase` does.
#[verifier::external_body]
fn to_lowercase(s: &str) -> (r: String)
    ensures
        r@ == unicode_lowercase(s@),
{
    s.to_lowercase()
}

/// The folder Steam is installed in, from the `SteamPath` registry value, with
/// `/` turned into `\`.
pub fn steam_path(registry_value: Option<String>) -> (r: Option<String>)
    ensures
        registry_value is None ==> r is None,
        registry_value matches Some(v) ==> (r matches Some(p) && p@ == v@.map_values(
            |c: char| if c == '/' { '\\' } else { c },
        )),
{
    match registry_value {
        Some(v) => {
            let c = chars_of(v.as_str());
            let mut out: Vec<char> = Vec::new();
            let mut i: usize = 0;
            while i < c.len()
                invariant
                    i <= c.len(),
                    c@ == v@,
                    out@ == c@.take(i as int).map_values(
                        |c: char| if c == '/' { '\\' } else { c },
                    ),
                decreases c.len() - i,
            {
                out.push(if c[i] == '/' { '\\' } else { c[i] });
                assert(c@.take(i + 1).drop_last() == c@.take(i as int));
                i = i + 1;
            }
            assert(c@.take(c@.len() as int) == c@);
            Some(string_of(&out))
        },
        None => None,
    }
}

/// Path of `loginusers.vdf` under a Steam install folder.
pub fn loginusers_path(steam_dir: &str) -> (r: String)
    ensures
        r@ == crate::store::join_path(crate::store::join_path(steam_dir@, "config"@), "loginusers.vdf"@),
{
    let c = crate::store::join(steam_dir, "config");
    crate::store::join(c.as_str(), "loginusers.vdf")
}

/// The value of `key` in a block, or empty when missing.
pub open spec fn get_or_empty(b: BlockV, key: Seq<char>) -> Seq<char> {
    match spec_get(b.kvs, key) {
        Some(v) => v,
        None => Seq::empty(),
    }
}

/// The account a block describes: persona name shown (account name when the
/// persona is blank), account name as the note.
pub open spec fn block_account(b: BlockV) -> AccountV {
    let persona = get_or_empty(b, "PersonaName"@);
    let account = get_or_empty(b, "AccountName"@);
    AccountV {
        id: b.steamid,
        display_name: if persona.len() == 0 {
            account
        } else {
            persona
        },
        note: if account.len() == 0 {
            None
        } else {
            Some(account)
        },
        image: None,
        last_used: None,
    }
}

fn get_or_empty_exec(b: &UserBlock, key: &str) -> (r: String)
    ensures
        r@ == get_or_empty(b@, key@),
{
    match b.get(key) {
        Some(v) => v,
        None => String::new(),
    }
}

/// The accounts Steam knows about, given the text of `loginusers.vdf` when it
/// could be read (SteamID64 as id).
pub fn list_accounts(loginusers: Option<&str>) -> (r: Vec<Account>)
    ensures
        loginusers is None ==> r@.len() == 0,
        loginusers matches Some(t) ==> r@.map_values(|a: Account| a@) == spec_parse(t@).map_values(
            |b: BlockV| block_account(b),
        ),
{
    match loginusers {
        None => Vec::new(),
        Some(t) => {
            let blocks = parse(t);
            let ghost bv = blocks_view(blocks@);
            let mut out: Vec<Account> = Vec::new();
            let mut i: usize = 0;
            while i < blocks.len()
                invariant
                    i <= blocks.len(),
                    bv == blocks_view(blocks@),
                    out@.map_values(|a: Account| a@) == bv.take(i as int).map_values(
                        |b: BlockV| block_account(b),
                    ),
                decreases blocks.len() - i,
            {
                let b = &blocks[i];
                assert(bv[i as int] == b@);
                let persona = get_or_empty_exec(b, "PersonaName");
                let account = get_or_empty_exec(b, "AccountName");
                let display_name = if persona.as_str().is_empty() {
                    account.clone()
                } else {
                    persona
                };
                let note = if account.as_str().is_empty() {
                    None
                } else {
                    Some(account)
                };
                let a = Account {
                    id: b.steamid.clone(),
                    display_name,
                    note,
                    image: None,
                    last_used: None,
                };
                let ghost before = out@.map_values(|a: Account| a@);
                out.push(a);
                assert(out@.map_values(|a: Account| a@) =~= before.push(block_account(b@)));
                assert(bv.take(i + 1).map_values(|b: BlockV| block_account(b)) =~= bv.take(
                    i as int,
                ).map_values(|b: BlockV| block_account(b)).push(block_account(bv[i as int])));
                i = i + 1;
            }
            assert(bv.take(blocks.len() as int) == bv);
            out
        },
    }
}

/// First block (from `i` on) whose `AccountName`, lower-cased, is `auto`.
pub open spec fn find_by_name(bs: Seq<BlockV>, auto: Seq<char>, i: int) -> Option<int>
    decreases bs.len() - i,
{
    if i < 0 || i >= bs.len() {
        None
    } else if spec_get(bs[i].kvs, "AccountName"@) matches Some(n) && unicode_lowercase(n) == auto {
        Some(i)
    } else {
        find_by_name(bs, auto, i + 1)
    }
}

/// First block (from `i` on) marked `MostRecent` = `1`.
pub open spec fn find_most_recent(bs: Seq<BlockV>, i: int) -> Option<int>
    decreases bs.len() - i,
{
    if i < 0 || i >= bs.len() {
        None
    } else if spec_get(bs[i].kvs, "MostRecent"@) == Some("1"@) {
        Some(i)
    } else {
        find_most_recent(bs, i + 1)
    }
}

/// The SteamID64 Steam will auto-login: the account named by `AutoLoginUser`
/// (lower-cased), else the block marked `MostRecent`.
pub open spec fn spec_current(auto: Seq<char>, bs: Seq<BlockV>) -> Option<Seq<char>> {
    let a = unicode_lowercase(auto);
    if a.len() > 0 && find_by_name(bs, a, 0) is Some {
        Some(bs[find_by_name(bs, a, 0).unwrap()].steamid)
    } else if find_most_recent(bs, 0) is Some {
        Some(bs[find_most_recent(bs, 0).unwrap()].steamid)
    } else {
        None
    }
}

proof fn lemma_find_by_name(bs: Seq<BlockV>, auto: Seq<char>, i: int)
    requires
        0 <= i <= bs.len(),
    ensures
        find_by_name(bs, auto, i) matches Some(j) ==> i <= j < bs.len(),
    decreases bs.len() - i,
{
    if i < bs.len() && !(spec_get(bs[i].kvs, "AccountName"@) matches Some(n) && unicode_lowercase(n)
        == auto) {
        lemma_find_by_name(bs, auto, i + 1);
    }
}

proof fn lemma_find_most_recent(bs: Seq<BlockV>, i: int)
    requires
        0 <= i <= bs.len(),
    ensures
        find_most_recent(bs, i) matches Some(j) ==> i <= j < bs.len(),
    decreases bs.len() - i,
{
    if i < bs.len() && spec_get(bs[i].kvs, "MostRecent"@) != Some("1"@) {
        lemma_find_most_recent(bs, i + 1);
    }
}

/// The lower-cased `AccountName` of each block (`None` when it has none).
pub open spec fn lowered_names(bs: Seq<BlockV>) -> Seq<Option<Seq<char>>> {
    bs.map_values(|b: BlockV| match spec_get(b.kvs, "AccountName"@) {
        Some(n) => Some(unicode_lowercase(n)),
        None => None,
    })
}

/// First block (from `i` on) whose lower-cased name in `names` is `a`.
pub open spec fn find_by_lowered(names: Seq<Option<Seq<char>>>, a: Seq<char>, i: int) -> Option<int>
    decreases names.len() - i,
{
    if i < 0 || i >= names.len() {
        None
    } else if names[i] == Some(a) {
        Some(i)
    } else {
        find_by_lowered(names, a, i + 1)
    }
}

/// The auto-login account given the lower-cased `AutoLoginUser` and the
/// lower-cased account names of the blocks: the block so named, else the
/// block marked `MostRecent`.
pub open spec fn spec_current_from(a: Seq<char>, bs: Seq<BlockV>, names: Seq<Option<Seq<char>>>) -> Option<
    Seq<char>,
> {
    let found = if a.len() > 0 { find_by_lowered(names, a, 0) } else { None };
    if found is Some && found.unwrap() < bs.len() {
        Some(bs[found.unwrap()].steamid)
    } else if find_most_recent(bs, 0) is Some {
        Some(bs[find_most_recent(bs, 0).unwrap()].steamid)
    } else {
        None
    }
}

proof fn lemma_find_by_lowered(bs: Seq<BlockV>, a: Seq<char>, i: int)
    requires
        0 <= i <= bs.len(),
    ensures
        find_by_name(bs, a, i) == find_by_lowered(lowered_names(bs), a, i),
    decreases bs.len() - i,
{
    if i < bs.len() {
        lemma_find_by_lowered(bs, a, i + 1);
    }
}

/// The current account read through the lower-cased names is the current
/// account.
proof fn lemma_current_from(auto: Seq<char>, bs: Seq<BlockV>)
    ensures
        spec_current(auto, bs) == spec_current_from(unicode_lowercase(auto), bs, lowered_names(bs)),
{
    lemma_find_by_lowered(bs, unicode_lowercase(auto), 0);
    lemma_find_by_name(bs, unicode_lowercase(auto), 0);
}

/// Picks the auto-login account given the lower-cased `AutoLoginUser` and the
/// lower-cased `AccountName` of each block (see [`spec_current_from`]).
pub fn current_from(auto_lower: &str, blocks: &Vec<UserBlock>, names_lower: &Vec<Option<String>>) -> (r: Option<String>)
    ensures
        crate::model::opt_view(r) == spec_current_from(
            auto_lower@,
            blocks_view(blocks@),
            names_lower@.map_values(|n: Option<String>| crate::model::opt_view(n)),
        ),
{
    let ghost bv = blocks_view(blocks@);
    let ghost nv = names_lower@.map_values(|n: Option<String>| crate::model::opt_view(n));
    proof {
        lemma_find_most_recent(bv, 0);
    }
    let ghost found = if auto_lower@.len() > 0 {
        find_by_lowered(nv, auto_lower@, 0)
    } else {
        None
    };
    let a = String::from_str(auto_lower);
    if !a.as_str().is_empty() {
        proof {
            lemma_find_lowered_bound(nv, auto_lower@, 0);
        }
        let mut i: usize = 0;
        while i < names_lower.len()
            invariant
                i <= names_lower.len(),
                nv == names_lower@.map_values(|n: Option<String>| crate::model::opt_view(n)),
                bv == blocks_view(blocks@),
                a@ == auto_lower@,
                a@.len() > 0,
                found == find_by_lowered(nv, a@, 0),
                find_by_lowered(nv, a@, 0) == find_by_lowered(nv, a@, i as int),
            ensures
                !(found is Some && found.unwrap() < bv.len()),
            decreases names_lower.len() - i,
        {
            assert(nv[i as int] == crate::model::opt_view(names_lower@[i as int]));
            match &names_lower[i] {
                Some(n) => {
                    if *n == a {
                        if i < blocks.len() {
                            assert(bv[i as int] == blocks@[i as int]@);
                            return Some(blocks[i].steamid.clone());
                        }
                        break;
                    }
                },
                None => {},
            }
            i = i + 1;
        }
    }
    let mut j: usize = 0;
    while j < blocks.len()
        invariant
            j <= blocks.len(),
            bv == blocks_view(blocks@),
            !(found is Some && found.unwrap() < bv.len()),
            found == (if auto_lower@.len() > 0 { find_by_lowered(nv, auto_lower@, 0) } else { None }),
            nv == names_lower@.map_values(|n: Option<String>| crate::model::opt_view(n)),
            find_most_recent(bv, 0) == find_most_recent(bv, j as int),
        decreases blocks.len() - j,
    {
        assert(bv[j as int] == blocks@[j as int]@);
        match blocks[j].get("MostRecent") {
            Some(m) => {
                let one = String::from_str("1");
                if m == one {
                    proof { reveal_strlit("1"); }
                    assert(find_most_recent(bv, j as int) == Some(j as int));
                    return Some(blocks[j].steamid.clone());
                }
            },
            None => {},
        }
        j = j + 1;
    }
    None
}

proof fn lemma_find_lowered_bound(names: Seq<Option<Seq<char>>>, a: Seq<char>, i: int)
    requires
        0 <= i <= names.len(),
    ensures
        find_by_lowered(names, a, i) matches Some(j) ==> i <= j < names.len() && names[j] == Some(a),
    decreases names.len() - i,
{
    if i < names.len() && names[i] != Some(a) {
        lemma_find_lowered_bound(names, a, i + 1);
    }
}

/// The SteamID64 of the account Steam will auto-login, given the
/// `AutoLoginUser` registry value and the text of `loginusers.vdf` (each when
/// it could be read).
pub fn current(auto_login_user: Option<String>, loginusers: Option<&str>) -> (r: Option<String>)
    ensures
        loginusers is None ==> r is None,
        loginusers matches Some(t) ==> crate::model::opt_view(r) == spec_current(
            or_empty(auto_login_user),
            spec_parse(t@),
        ),
{
    let ghost raw = or_empty(auto_login_user);
    let auto_raw = match auto_login_user {
        Some(a) => a,
        None => String::new(),
    };
    let auto = to_lowercase(auto_raw.as_str());
    let text = match loginusers {
        Some(t) => t,
        None => return None,
    };
    let blocks = parse(text);
    let ghost bv = blocks_view(blocks@);
    let mut names: Vec<Option<String>> = Vec::new();
    let mut i: usize = 0;
    while i < blocks.len()
        invariant
            i <= blocks.len(),
            bv == blocks_view(blocks@),
            names@.map_values(|n: Option<String>| crate::model::opt_view(n)) == lowered_names(bv).take(i as int),
        decreases blocks.len() - i,
    {
        assert(bv[i as int] == blocks@[i as int]@);
        let low = match blocks[i].get("AccountName") {
            Some(n) => Some(to_lowercase(n.as_str())),
            None => None,
        };
        let ghost before = names@.map_values(|n: Option<String>| crate::model::opt_view(n));
        names.push(low);
        assert(names@.map_values(|n: Option<String>| crate::model::opt_view(n)) =~= before.push(
            lowered_names(bv)[i as int],
        ));
        assert(lowered_names(bv).take(i + 1) =~= lowered_names(bv).take(i as int).push(lowered_names(bv)[i as int]));
        i = i + 1;
    }
    assert(lowered_names(bv).take(blocks.len() as int) =~= lowered_names(bv));
    proof {
        lemma_current_from(raw, bv);
    }
    assert(auto_raw@ == raw);
    current_from(auto.as_str(), &blocks, &names)
}

/// Why a Steam switch refused.
pub enum SteamError {
    /// The SteamID is not in `loginusers.vdf`, or its block has no `AccountName`.
    AccountNotFound,
}

/// What a Steam switch writes: the new `loginusers.vdf` text, and the account
/// name to store in `AutoLoginUser`.
pub struct SteamSwitch {
    pub vdf: String,
    pub account_name: String,
}

/// First block (from `i` on) with this SteamID.
pub open spec fn find_id(bs: Seq<BlockV>, id: Seq<char>, i: int) -> Option<int>
    decreases bs.len() - i,
{
    if i < 0 || i >= bs.len() {
        None
    } else if bs[i].steamid == id {
        Some(i)
    } else {
        find_id(bs, id, i + 1)
    }
}

/// A block with its flags set for a switch to `id`: `MostRecent` is `1` on
/// the target (which also gets `AllowAutoLogin` `1`), `0` elsewhere.
pub open spec fn switched_block(b: BlockV, id: Seq<char>) -> BlockV {
    if b.steamid == id {
        BlockV {
            steamid: b.steamid,
            kvs: spec_set(spec_set(b.kvs, "MostRecent"@, "1"@), "AllowAutoLogin"@, "1"@),
        }
    } else {
        BlockV { steamid: b.steamid, kvs: spec_set(b.kvs, "MostRecent"@, "0"@) }
    }
}

/// The blocks with their flags set for a switch to `id`.
pub open spec fn switched_blocks(bs: Seq<BlockV>, id: Seq<char>) -> Seq<BlockV> {
    bs.map_values(|b: BlockV| switched_block(b, id))
}

/// The account name a switch to `id` writes to `AutoLoginUser`, if the first
/// block with that SteamID has one.
pub open spec fn switch_account_name(bs: Seq<BlockV>, id: Seq<char>) -> Option<Seq<char>> {
    match find_id(bs, id, 0) {
        Some(i) => spec_get(bs[i].kvs, "AccountName"@),
        None => None,
    }
}

proof fn lemma_find_id(bs: Seq<BlockV>, id: Seq<char>, i: int)
    requires
        0 <= i <= bs.len(),
    ensures
        find_id(bs, id, i) matches Some(j) ==> i <= j < bs.len(),
    decreases bs.len() - i,
{
    if i < bs.len() && bs[i].steamid != id {
        lemma_find_id(bs, id, i + 1);
    }
}

/// Make `steamid` the account Steam auto-logs into next launch: flips the
/// flags of every block and returns the new `loginusers.vdf` text and the
/// account name for `AutoLoginUser`.
pub fn switch(loginusers: &str, steamid: &str) -> (r: Result<SteamSwitch, SteamError>)
    ensures
        ({
            let bs = spec_parse(loginusers@);
            match switch_account_name(bs, steamid@) {
                None => r is Err,
                Some(name) => r matches Ok(sw) && sw.account_name@ == name && sw.vdf@
                    == spec_serialize(switched_blocks(bs, steamid@)),
            }
        }),
{
    let mut blocks = parse(loginusers);
    let ghost bv = blocks_view(blocks@);
    let id = String::from_str(steamid);
    let mut k: usize = 0;
    proof {
        lemma_find_id(bv, steamid@, 0);
    }
    while k < blocks.len()
        invariant
            k <= blocks.len(),
            bv == blocks_view(blocks@),
            id@ == steamid@,
            find_id(bv, steamid@, 0) == find_id(bv, steamid@, k as int),
        ensures
            k <= blocks.len(),
            k < blocks.len() ==> blocks@[k as int].steamid@ == steamid@,
            find_id(bv, steamid@, 0) == find_id(bv, steamid@, k as int),
        decreases blocks.len() - k,
    {
        assert(bv[k as int] == blocks@[k as int]@);
        if blocks[k].steamid == id {
            break;
        }
        k = k + 1;
    }
    if k >= blocks.len() {
        return Err(SteamError::AccountNotFound);
    }
    assert(bv[k as int] == blocks@[k as int]@);
    let account_name = match blocks[k].get("AccountName") {
        Some(n) => n,
        None => return Err(SteamError::AccountNotFound),
    };
    let mut i: usize = 0;
    while i < blocks.len()
        invariant
            i <= blocks.len(),
            blocks@.len() == bv.len(),
            id@ == steamid@,
            forall|j: int| 0 <= j < i ==> #[trigger] blocks@[j]@ == switched_block(bv[j], steamid@),
            forall|j: int| i <= j < bv.len() ==> #[trigger] blocks@[j]@ == bv[j],
        decreases blocks.len() - i,
    {
        let mut b = blocks.remove(i);
        let is_target = b.steamid == id;
        if is_target {
            b.set("MostRecent", "1");
            b.set("AllowAutoLogin", "1");
        } else {
            b.set("MostRecent", "0");
        }
        proof {
            reveal_strlit("1");
        }
        blocks.insert(i, b);
        i = i + 1;
    }
    assert(blocks_view(blocks@) =~= switched_blocks(bv, steamid@));
    let vdf = serialize(&blocks);
    Ok(SteamSwitch { vdf, account_name })
}

// ---- a switch makes the target current ------------------------------------

/// No block before the target has an `AccountName` that lower-cases to the
/// target's (the name `AutoLoginUser` will hold).
pub open spec fn name_first_at_target(bs: Seq<BlockV>, id: Seq<char>, name: Seq<char>) -> bool {
    forall|j: int|
        0 <= j < find_id(bs, id, 0).unwrap() ==> !(spec_get(#[trigger] bs[j].kvs, "AccountName"@) matches Some(
            m,
        ) && unicode_lowercase(m) == unicode_lowercase(name))
}

proof fn lemma_find_id_first(bs: Seq<BlockV>, id: Seq<char>, i: int)
    requires
        0 <= i <= bs.len(),
        find_id(bs, id, i) is Some,
    ensures
        i <= find_id(bs, id, i).unwrap() < bs.len(),
        bs[find_id(bs, id, i).unwrap()].steamid == id,
        forall|j: int| i <= j < find_id(bs, id, i).unwrap() ==> #[trigger] bs[j].steamid != id,
    decreases bs.len() - i,
{
    if bs[i].steamid != id {
        lemma_find_id_first(bs, id, i + 1);
    }
}

proof fn lemma_switched_keeps_name(b: BlockV, id: Seq<char>)
    ensures
        switched_block(b, id).steamid == b.steamid,
        spec_get(switched_block(b, id).kvs, "AccountName"@) == spec_get(b.kvs, "AccountName"@),
        spec_get(switched_block(b, id).kvs, "MostRecent"@) == if b.steamid == id {
            Some("1"@)
        } else {
            Some("0"@)
        },
{
    reveal_strlit("AccountName");
    reveal_strlit("MostRecent");
    reveal_strlit("AllowAutoLogin");
    let an = "AccountName"@;
    let mr = "MostRecent"@;
    let al = "AllowAutoLogin"@;
    assert(!crate::text::eq_ignore_case(an, mr));
    assert(!crate::text::eq_ignore_case(an, al));
    assert(!crate::text::eq_ignore_case(mr, al));
    if b.steamid == id {
        let k1 = spec_set(b.kvs, mr, "1"@);
        crate::vdf::law_set_keeps_others(b.kvs, mr, "1"@, an);
        crate::vdf::law_set_keeps_others(k1, al, "1"@, an);
        crate::vdf::law_set_keeps_others(k1, al, "1"@, mr);
        crate::vdf::law_get_after_set(b.kvs, mr, "1"@);
    } else {
        crate::vdf::law_set_keeps_others(b.kvs, mr, "0"@, an);
        crate::vdf::law_get_after_set(b.kvs, mr, "0"@);
    }
}

proof fn lemma_find_by_name_at(bs: Seq<BlockV>, a: Seq<char>, k: int, i: int)
    requires
        0 <= k <= i < bs.len(),
        spec_get(bs[i].kvs, "AccountName"@) matches Some(n) && unicode_lowercase(n) == a,
        forall|j: int| k <= j < i ==> !(spec_get(#[trigger] bs[j].kvs, "AccountName"@) matches Some(m) && unicode_lowercase(m) == a),
    ensures
        find_by_name(bs, a, k) == Some(i),
    decreases i - k,
{
    if k < i {
        lemma_find_by_name_at(bs, a, k + 1, i);
    }
}

proof fn lemma_find_most_recent_at(bs: Seq<BlockV>, k: int, i: int)
    requires
        0 <= k <= i < bs.len(),
        spec_get(bs[i].kvs, "MostRecent"@) == Some("1"@),
        forall|j: int| k <= j < i ==> spec_get(#[trigger] bs[j].kvs, "MostRecent"@) != Some("1"@),
    ensures
        find_most_recent(bs, k) == Some(i),
    decreases i - k,
{
    if k < i {
        lemma_find_most_recent_at(bs, k + 1, i);
    }
}

/// After a switch to `id` writes its `loginusers.vdf` text and puts the
/// account's name in `AutoLoginUser`, Steam's current account, read back from
/// both, is `id` — when no block before the target's has the same account
/// name ignoring case.
pub proof fn law_switch_then_current(bs: Seq<BlockV>, id: Seq<char>)
    requires
        switch_account_name(bs, id) is Some,
    ensures
        name_first_at_target(bs, id, switch_account_name(bs, id).unwrap()) ==> spec_current(
            switch_account_name(bs, id).unwrap(),
            spec_parse(spec_serialize(switched_blocks(bs, id))),
        ) == Some(id),
{
    let n = switch_account_name(bs, id).unwrap();
    let sb = switched_blocks(bs, id);
    crate::vdf::law_serialize_parse(sb);
    lemma_find_id_first(bs, id, 0);
    let i = find_id(bs, id, 0).unwrap();
    lemma_switched_keeps_name(bs[i], id);
    assert(sb[i] == switched_block(bs[i], id));
    if name_first_at_target(bs, id, n) {
        let a = unicode_lowercase(n);
        if a.len() > 0 {
            assert forall|j: int| 0 <= j < i implies !(spec_get(#[trigger] sb[j].kvs, "AccountName"@) matches Some(m)
                && unicode_lowercase(m) == a) by {
                lemma_switched_keeps_name(bs[j], id);
                assert(sb[j] == switched_block(bs[j], id));
                assert(spec_get(bs[j].kvs, "AccountName"@) == spec_get(sb[j].kvs, "AccountName"@));
            }
            lemma_find_by_name_at(sb, a, 0, i);
        } else {
            reveal_strlit("0");
            reveal_strlit("1");
            assert forall|j: int| 0 <= j < i implies spec_get(#[trigger] sb[j].kvs, "MostRecent"@) != Some("1"@) by {
                lemma_switched_keeps_name(bs[j], id);
                assert(sb[j] == switched_block(bs[j], id));
                assert(bs[j].steamid != id);
                assert("0"@ != "1"@) by {
                    assert("0"@[0] != "1"@[0]);
                }
            }
            lemma_find_most_recent_at(sb, 0, i);
        }
    }
}

} // verus!
