//! Epic Games: the RememberMe token, its fingerprint, and the decisions of
//! capture, switch and the pending-switch record.
//!
//! Epic keeps its auto-login token in `GameUserSettings.ini` and names the
//! signed-in account in the `AccountId` registry value. The two are written at
//! different times, so a token this library planted for one account must not be
//! filed under another until the launcher confirms the sign-in: every write
//! leaves a [`PendingSwitch`] record, and [`unconfirmed_switch`] reconciles it.
//! Reading and writing the files and the registry is the caller's part; the
//! functions here decide on what was read.

use crate::ini::{edit_remember_me, spec_edit_remember_me, MIN_TOKEN_LEN};
use crate::text::{
    append_chars, byte_len, chars_of, copy_range, push_char, split_lines, split_lines_chars,
    starts_with, starts_with_chars, string_of, trim, trim_chars, utf8_len,
};
use vstd::prelude::*;

verus! {

/// Store platform id of Epic.
pub const PLATFORM: &'static str = "epic";

/// Registry key holding Epic's `AccountId`.
pub const IDENTIFIERS_KEY: &'static str = "HKCU\\Software\\Epic Games\\Unreal Engine\\Identifiers";

/// Registry value naming the signed-in Epic account.
pub const ACCOUNT_ID_VALUE: &'static str = "AccountId";

/// Live session file, `%VAR%` placeholders unexpanded.
pub const LOGIN_INI: &'static str =
    "%LocalAppData%\\EpicGamesLauncher\\Saved\\Config\\WindowsEditor\\GameUserSettings.ini";

/// Launcher log folder, `%VAR%` placeholders unexpanded.
pub const LOGS_DIR: &'static str = "%LocalAppData%\\EpicGamesLauncher\\Saved\\Logs";

/// Machine-local pending-switch record, `%VAR%` placeholders unexpanded.
pub const PENDING_PATH: &'static str = "%LocalAppData%\\PlayerTwo\\epic_pending.json";

/// File name of a saved token inside an account folder.
pub const TOKEN_FILE: &'static str = "epic_token.txt";

/// File name of a migrated whole-file snapshot inside an account folder.
pub const MIGRATED_INI: &'static str = "GameUserSettings.ini";

/// A token written into the live INI whose sign-in the launcher has not
/// confirmed yet.
pub struct PendingSwitch {
    /// The account the token was written for.
    pub account_id: String,
    /// [`fingerprint`] of the exact token written.
    pub token_fp: String,
}

/// Why an Epic operation refused.
pub enum EpicError {
    /// The live token was planted for another account and never signed in with.
    PlantedForOther,
    /// No `Data=` token of plausible length is in the live INI.
    NoLiveToken,
}

// ---- token extraction ----------------------------------------------------

/// The value of a `Data=` line (trimmed), if the line is one.
pub open spec fn data_value(line: Seq<char>) -> Option<Seq<char>> {
    let t = trim(line);
    if starts_with(t, "Data="@) {
        Some(trim(t.skip(5)))
    } else {
        None
    }
}

/// The first `Data=` value among `lines` that is at least
/// [`MIN_TOKEN_LEN`] bytes long.
pub open spec fn first_token(lines: Seq<Seq<char>>) -> Option<Seq<char>>
    decreases lines.len(),
{
    if lines.len() == 0 {
        None
    } else {
        match data_value(lines[0]) {
            Some(v) if byte_len(v) >= MIN_TOKEN_LEN => Some(v),
            _ => first_token(lines.skip(1)),
        }
    }
}

/// The token of an INI text, if it holds one.
pub open spec fn spec_extract_token(text: Seq<char>) -> Option<Seq<char>> {
    first_token(split_lines(text))
}

// ---- reading back a written token ------------------------------------------

/// A `Data=` line whose value is long enough to be read as a token.
pub open spec fn long_data(l: Seq<char>) -> bool {
    data_value(l) matches Some(v) && byte_len(v) >= MIN_TOKEN_LEN
}

proof fn lemma_data_value_cr(l: Seq<char>)
    ensures
        data_value(l.push('\r')) == data_value(l),
{
    crate::text::lemma_trim_push_ws(l, '\r');
}

proof fn lemma_first_token(ls: Seq<Seq<char>>, tok: Seq<char>)
    requires
        byte_len(tok) >= MIN_TOKEN_LEN,
        exists|k: int| 0 <= k < ls.len() && #[trigger] data_value(ls[k]) == Some(tok),
        forall|k: int| 0 <= k < ls.len() && #[trigger] long_data(ls[k]) ==> data_value(ls[k]) == Some(tok),
    ensures
        first_token(ls) == Some(tok),
    decreases ls.len(),
{
    let k = choose|k: int| 0 <= k < ls.len() && #[trigger] data_value(ls[k]) == Some(tok);
    assert(long_data(ls[k]));
    if !long_data(ls[0]) {
        let rest = ls.skip(1);
        assert(k != 0);
        assert(rest[k - 1] == ls[k]);
        assert forall|m: int| 0 <= m < rest.len() && #[trigger] long_data(rest[m]) implies data_value(rest[m]) == Some(tok) by {
            assert(rest[m] == ls[m + 1]);
        }
        lemma_first_token(rest, tok);
    }
}

/// The lines of an edited INI text, as [`spec_extract_token`] reads them:
/// some line has the written `Data=` line's value, and every line with a long
/// `Data=` value has that value (given no kept line holds another one).
proof fn lemma_edited_text_lines(existing: Seq<char>, enable: bool, token: Seq<char>)
    requires
        crate::text::no_nl(token),
        forall|j: int|
            0 <= j < crate::ini::ini_lines(existing).len() && !crate::ini::rewritten(crate::ini::ini_lines(existing), j)
                ==> !long_data(#[trigger] crate::ini::ini_lines(existing)[j]),
    ensures
        ({
            let ls = split_lines(spec_edit_remember_me(existing, enable, token));
            let dv = data_value(crate::ini::data_line(token));
            &&& exists|k: int| 0 <= k < ls.len() && #[trigger] data_value(ls[k]) == dv
            &&& forall|k: int| 0 <= k < ls.len() && #[trigger] long_data(ls[k]) ==> data_value(ls[k]) == dv
        }),
{
    let lines = crate::ini::ini_lines(existing);
    let en = crate::ini::enable_line(enable);
    let da = crate::ini::data_line(token);
    let hd = "[RememberMe]"@;
    let nl = crate::ini::newline_of(existing);
    let p: Seq<char> = if crate::text::has_crlf(existing) { seq!['\r'] } else { Seq::empty() };
    reveal_strlit("Data=");
    reveal_strlit("Enable=True");
    reveal_strlit("Enable=False");
    reveal_strlit("[RememberMe]");
    reveal_strlit("\r\n");
    reveal_strlit("\n");
    assert(nl =~= p.push('\n'));
    assert(crate::text::no_nl(p));
    // the lines the editor can write other than the data line hold no value
    crate::text::lemma_trim_fixed(en);
    assert(!starts_with(en, "Data="@)) by {
        assert(en.take(5)[0] != "Data="@[0]);
    }
    assert(data_value(en) is None);
    crate::text::lemma_trim_fixed(hd);
    assert(!starts_with(hd, "Data="@)) by {
        assert(hd.take(5)[0] != "Data="@[0]);
    }
    assert(data_value(hd) is None);
    assert(data_value(Seq::<char>::empty()) is None) by {
        assert(trim(Seq::<char>::empty()) =~= Seq::<char>::empty());
    }
    assert(crate::text::no_nl(da));
    assert(crate::text::no_nl(en));
    assert(crate::text::no_nl(hd));
    // the output, as lines joined by the newline
    let o: Seq<Seq<char>> = if crate::text::all_ws(existing) {
        seq![hd, en, da]
    } else {
        crate::ini::edited_lines(lines, en, da)
    };
    let ends = !crate::text::all_ws(existing) && existing.len() > 0 && existing.last() == '\n';
    let o2 = if crate::text::all_ws(existing) || ends { o.push(Seq::empty()) } else { o };
    // every output line is the data line, holds no value, or is a kept line
    assert(forall|k: int| 0 <= k < o.len() ==> (#[trigger] o[k] == da || data_value(o[k]) is None || (
    crate::ini::kept_line(lines, o[k]) && !long_data(o[k])))) by {
        if !crate::text::all_ws(existing) {
            assert forall|k: int| 0 <= k < o.len() implies (#[trigger] o[k] == da || data_value(o[k]) is None || (
            crate::ini::kept_line(lines, o[k]) && !long_data(o[k]))) by {
                crate::ini::law_edit_writes_only(existing, enable, token, k);
                if crate::ini::kept_line(lines, o[k]) {
                    let j = choose|j: int| 0 <= j < lines.len() && !crate::ini::rewritten(lines, j) && #[trigger] lines[j] == o[k];
                    assert(!long_data(lines[j]));
                }
            }
        }
    }
    // the data line is among them
    let kd: int = if crate::text::all_ws(existing) {
        2
    } else {
        crate::ini::law_edit_sets_token(existing, enable, token);
        choose|k: int| 0 <= k < o.len() && o[k] == da
    };
    assert(0 <= kd < o.len() && o[kd] == da);
    // no output line holds a line break
    crate::text::lemma_split_lines_no_nl(crate::ini::body_of(existing));
    assert forall|j: int| 0 <= j < lines.len() implies crate::text::no_nl(#[trigger] lines[j]) by {
        let raw = split_lines(crate::ini::body_of(existing));
        assert(lines[j] == crate::ini::strip_cr(raw[j]));
        assert(crate::text::no_nl(raw[j]));
    }
    assert forall|k: int| 0 <= k < o2.len() implies crate::text::no_nl(#[trigger] o2[k]) by {
        if k < o.len() {
            assert(o2[k] == o[k]);
            if !crate::text::all_ws(existing) {
                crate::ini::law_edit_writes_only(existing, enable, token, k);
                if crate::ini::kept_line(lines, o[k]) {
                    let j = choose|j: int| 0 <= j < lines.len() && !crate::ini::rewritten(lines, j) && #[trigger] lines[j] == o[k];
                }
            }
        } else {
            assert(o2[k] == Seq::<char>::empty());
        }
    }
    // the written text
    let text = spec_edit_remember_me(existing, enable, token);
    if crate::text::all_ws(existing) {
        assert(crate::text::join(o2, nl) =~= hd + nl + en + nl + da + nl) by {
            let o3 = seq![hd, en, da];
            let o1 = seq![hd, en];
            assert(o2.drop_last() =~= o3);
            assert(o3.drop_last() =~= o1);
            assert(o1.drop_last() =~= seq![hd]);
            assert(crate::text::join(seq![hd], nl) == hd);
            assert(crate::text::join(o1, nl) == hd + nl + en);
            assert(crate::text::join(o3, nl) == hd + nl + en + nl + da);
            assert(crate::text::join(o2, nl) == crate::text::join(o3, nl) + nl + Seq::<char>::empty());
        }
        assert(text == crate::text::join(o2, nl));
    } else {
        assert(o.len() > 0);
        if ends {
            crate::text::lemma_join_push_empty(o, nl);
        }
        assert(text == crate::text::join(o2, nl));
    }
    crate::text::lemma_split_join(o2, p);
    let ls = split_lines(text);
    assert(ls == crate::text::split_join_expect(o2, p));
    assert forall|k: int| 0 <= k < ls.len() implies #[trigger] data_value(ls[k]) == data_value(o2[k]) by {
        if k < o2.len() - 1 && p.len() > 0 {
            assert(o2[k] + p == o2[k].push('\r'));
            lemma_data_value_cr(o2[k]);
        } else {
            assert(o2[k] + p =~= o2[k] || ls[k] == o2[k]);
        }
    }
    assert(o2[kd] == da);
    assert(data_value(ls[kd]) == data_value(da));
    assert forall|k: int| 0 <= k < ls.len() && #[trigger] long_data(ls[k]) implies data_value(ls[k]) == data_value(da) by {
        if k < o.len() {
            assert(o2[k] == o[k]);
        } else {
            assert(o2[k] == Seq::<char>::empty());
        }
    }
}

/// A token written by the editor is the token read back from the file, when
/// the token is long enough to count, has no line break and no whitespace at
/// either end, and no line the editor keeps holds another long `Data=` value.
pub proof fn law_token_reads_back(existing: Seq<char>, token: Seq<char>)
    requires
        byte_len(token) >= MIN_TOKEN_LEN,
        token.len() > 0,
        !crate::text::is_ws(token[0]),
        !crate::text::is_ws(token.last()),
        crate::text::no_nl(token),
        forall|j: int|
            0 <= j < crate::ini::ini_lines(existing).len() && !crate::ini::rewritten(crate::ini::ini_lines(existing), j)
                ==> !long_data(#[trigger] crate::ini::ini_lines(existing)[j]),
    ensures
        spec_extract_token(spec_edit_remember_me(existing, true, token)) == Some(token),
{
    let da = crate::ini::data_line(token);
    reveal_strlit("Data=");
    crate::text::lemma_trim_fixed(da);
    assert(da.take(5) =~= "Data="@);
    assert(da.skip(5) =~= token);
    crate::text::lemma_trim_fixed(token);
    assert(data_value(da) == Some(token));
    lemma_edited_text_lines(existing, true, token);
    lemma_first_token(split_lines(spec_edit_remember_me(existing, true, token)), token);
}

proof fn lemma_first_token_none(ls: Seq<Seq<char>>)
    requires
        forall|k: int| 0 <= k < ls.len() ==> !long_data(#[trigger] ls[k]),
    ensures
        first_token(ls) is None,
    decreases ls.len(),
{
    if ls.len() > 0 {
        let rest = ls.skip(1);
        assert(!long_data(ls[0]));
        assert forall|m: int| 0 <= m < rest.len() implies !long_data(#[trigger] rest[m]) by {
            assert(rest[m] == ls[m + 1]);
        }
        lemma_first_token_none(rest);
    }
}

/// Clearing the login leaves no token to read back, when no line the editor
/// keeps holds a long `Data=` value.
pub proof fn law_clear_leaves_no_token(existing: Seq<char>)
    requires
        forall|j: int|
            0 <= j < crate::ini::ini_lines(existing).len() && !crate::ini::rewritten(crate::ini::ini_lines(existing), j)
                ==> !long_data(#[trigger] crate::ini::ini_lines(existing)[j]),
    ensures
        spec_extract_token(spec_edit_remember_me(existing, false, Seq::empty())) is None,
{
    let e = Seq::<char>::empty();
    let da = crate::ini::data_line(e);
    reveal_strlit("Data=");
    assert(da =~= "Data="@);
    crate::text::lemma_trim_fixed(da);
    assert(da.take(5) =~= "Data="@);
    assert(trim(da.skip(5)) =~= e);
    assert(data_value(da) == Some(e));
    lemma_edited_text_lines(existing, false, e);
    let ls = split_lines(spec_edit_remember_me(existing, false, e));
    assert forall|k: int| 0 <= k < ls.len() implies !long_data(#[trigger] ls[k]) by {
        if long_data(ls[k]) {
            assert(data_value(ls[k]) == Some(e));
        }
    }
    lemma_first_token_none(ls);
}

/// Whether `v` takes at least `n` bytes in UTF-8.
fn byte_len_at_least(v: &[char], n: usize) -> (b: bool)
    requires
        n <= 0x10000,
    ensures
        b == (byte_len(v@) >= n),
{
    if n == 0 {
        return true;
    }
    let mut total: usize = 0;
    let mut i: usize = 0;
    while i < v.len()
        invariant
            i <= v.len(),
            total == byte_len(v@.take(i as int)),
            total < n,
            n <= 0x10000,
        decreases v.len() - i,
    {
        if total >= n {
            return true;
        }
        let u = v[i] as u32;
        let w: usize = if u < 0x80 {
            1
        } else if u < 0x800 {
            2
        } else if u < 0x10000 {
            3
        } else {
            4
        };
        assert(v@.take(i + 1).drop_last() == v@.take(i as int));
        total = total + w;
        i = i + 1;
        if total >= n {
            proof {
                lemma_byte_len_prefix(v@, i as int);
            }
            return true;
        }
    }
    assert(v@.take(v@.len() as int) == v@);
    false
}

proof fn lemma_byte_len_prefix(s: Seq<char>, k: int)
    requires
        0 <= k <= s.len(),
    ensures
        byte_len(s.take(k)) <= byte_len(s),
    decreases s.len() - k,
{
    if k < s.len() {
        assert(s.drop_last().take(k) == s.take(k));
        lemma_byte_len_prefix(s.drop_last(), k);
    } else {
        assert(s.take(k) == s);
    }
}

/// The trimmed `Data=` value of a line, if it is one.
fn data_value_of(line: &[char]) -> (r: Option<Vec<char>>)
    ensures
        r matches Some(v) ==> data_value(line@) == Some(v@),
        r is None ==> data_value(line@) is None,
{
    let t = trim_chars(line);
    let key = chars_of("Data=");
    if starts_with_chars(t.as_slice(), key.as_slice()) {
        proof {
            reveal_strlit("Data=");
        }
        let rest = copy_range(t.as_slice(), 5, t.len());
        assert(rest@ == t@.skip(5));
        Some(trim_chars(rest.as_slice()))
    } else {
        None
    }
}

/// The first `Data=` value of an INI text that is long enough to be a real
/// token (at least [`MIN_TOKEN_LEN`] bytes).
pub fn extract_token(text: &str) -> (r: Option<String>)
    ensures
        r matches Some(t) ==> spec_extract_token(text@) == Some(t@),
        r is None ==> spec_extract_token(text@) is None,
{
    let chars = chars_of(text);
    let lines = split_lines_chars(chars.as_slice());
    assert(split_lines(text@).skip(0) == split_lines(text@));
    let mut i: usize = 0;
    while i < lines.len()
        invariant
            i <= lines.len(),
            lines.deep_view() == split_lines(text@),
            first_token(split_lines(text@)) == first_token(split_lines(text@).skip(i as int)),
        decreases lines.len() - i,
    {
        let ghost rest = split_lines(text@).skip(i as int);
        assert(rest[0] == lines[i as int]@);
        assert(rest.skip(1) == split_lines(text@).skip(i + 1));
        match data_value_of(lines[i].as_slice()) {
            Some(v) => {
                if byte_len_at_least(v.as_slice(), MIN_TOKEN_LEN) {
                    return Some(string_of(&v));
                }
            },
            None => {},
        }
        i = i + 1;
    }
    None
}

/// The live token, given the live INI's text if it could be read.
pub fn current_token(ini_text: Option<&str>) -> (r: Option<String>)
    ensures
        ini_text is None ==> r is None,
        ini_text matches Some(t) ==> (r matches Some(v) ==> spec_extract_token(t@) == Some(v@)),
        ini_text matches Some(t) ==> (r is None <==> spec_extract_token(t@) is None),
{
    match ini_text {
        Some(t) => extract_token(t),
        None => None,
    }
}

/// Whether a real login token is present in the live INI (given its text, if
/// it could be read). `AccountId` can outlive a sign-out, so this is checked
/// as well.
pub fn has_live_token(ini_text: Option<&str>) -> (b: bool)
    ensures
        b == (ini_text matches Some(t) && spec_extract_token(t@) is Some),
{
    current_token(ini_text).is_some()
}

/// Epic's `AccountId` as read from the registry, trimmed; `None` when absent
/// or blank.
pub fn current_id(registry_value: Option<String>) -> (r: Option<String>)
    ensures
        registry_value is None ==> r is None,
        registry_value matches Some(v) ==> (r matches Some(id) ==> id@ == trim(v@) && id@.len()
            > 0),
        registry_value matches Some(v) ==> (r is None <==> trim(v@).len() == 0),
{
    match registry_value {
        Some(v) => {
            let c = chars_of(v.as_str());
            let t = trim_chars(c.as_slice());
            if t.len() == 0 {
                None
            } else {
                Some(string_of(&t))
            }
        },
        None => None,
    }
}

// ---- fingerprint ---------------------------------------------------------

/// FNV-1a offset basis.
pub const FNV_OFFSET: u64 = 0xcbf2_9ce4_8422_2325;

/// FNV-1a prime.
pub const FNV_PRIME: u64 = 0x0000_0100_0000_01b3;

/// 64-bit FNV-1a of `bytes`.
pub open spec fn fnv1a(bytes: Seq<u8>) -> u64
    decreases bytes.len(),
{
    if bytes.len() == 0 {
        FNV_OFFSET
    } else {
        vstd::wrapping::u64_specs::wrapping_mul(
            fnv1a(bytes.drop_last()) ^ (bytes.last() as u64),
            FNV_PRIME,
        )
    }
}

/// Lower-case hexadecimal digit of `d < 16`.
pub open spec fn hex_digit(d: nat) -> char {
    if d < 10 {
        (('0' as u32) + d) as char
    } else {
        (('a' as u32) + d - 10) as char
    }
}

/// Decimal digit of `d < 10`.
pub open spec fn dec_digit(d: nat) -> char {
    (('0' as u32) + d) as char
}

/// The low `n` hexadecimal digits of `x`, zero padded (`{x:0n$x}` for `x < 16^n`).
pub open spec fn hex_fixed(x: nat, n: nat) -> Seq<char>
    decreases n,
{
    if n == 0 {
        Seq::empty()
    } else {
        hex_fixed(x / 16, (n - 1) as nat).push(hex_digit(x % 16))
    }
}

/// `x` in decimal.
pub open spec fn decimal(x: nat) -> Seq<char>
    decreases x,
{
    if x < 10 {
        seq![dec_digit(x)]
    } else {
        decimal(x / 10).push(dec_digit(x % 10))
    }
}

/// The persisted fingerprint of a token: its FNV-1a hash as 16 hex digits, a
/// dot, and its length in bytes.
pub open spec fn spec_fingerprint(token: Seq<char>) -> Seq<char> {
    let bytes = vstd::utf8::encode_utf8(token);
    hex_fixed(fnv1a(bytes) as nat, 16) + "."@ + decimal(bytes.len())
}

fn hex_digit_of(d: u64) -> (c: char)
    requires
        d < 16,
    ensures
        c == hex_digit(d as nat),
{
    if d < 10 {
        let b: u8 = (d as u8) + 48;
        b as char
    } else {
        let b: u8 = (d as u8) + 87;
        b as char
    }
}

fn hex_fixed_chars(x: u64, n: usize) -> (r: Vec<char>)
    ensures
        r@ == hex_fixed(x as nat, n as nat),
    decreases n,
{
    if n == 0 {
        Vec::new()
    } else {
        let mut r = hex_fixed_chars(x / 16, n - 1);
        r.push(hex_digit_of(x % 16));
        r
    }
}

/// `x` in decimal, as characters.
pub fn decimal_chars(x: u64) -> (r: Vec<char>)
    ensures
        r@ == decimal(x as nat),
    decreases x,
{
    if x < 10 {
        let b: u8 = (x as u8) + 48;
        let mut r = Vec::new();
        r.push(b as char);
        r
    } else {
        let mut r = decimal_chars(x / 10);
        let b: u8 = ((x % 10) as u8) + 48;
        r.push(b as char);
        r
    }
}

/// Stable fingerprint of a token (FNV-1a 64 and length), persisted between runs
/// to recognise a token this library planted.
pub fn fingerprint(token: &str) -> (r: String)
    ensures
        r@ == spec_fingerprint(token@),
{
    let bytes = token.as_bytes();
    let mut h: u64 = FNV_OFFSET;
    let mut i: usize = 0;
    while i < bytes.len()
        invariant
            i <= bytes.len(),
            bytes@ == vstd::utf8::encode_utf8(token@),
            h == fnv1a(bytes@.take(i as int)),
        decreases bytes.len() - i,
    {
        assert(bytes@.take(i + 1).drop_last() == bytes@.take(i as int));
        h = (h ^ (bytes[i] as u64)).wrapping_mul(FNV_PRIME);
        i = i + 1;
    }
    assert(bytes@.take(bytes@.len() as int) == bytes@);
    let mut out = hex_fixed_chars(h, 16);
    out.push('.');
    let len_digits = decimal_chars(bytes.len() as u64);
    append_chars(&mut out, len_digits.as_slice());
    proof {
        reveal_strlit(".");
        assert(out@ =~= hex_fixed(h as nat, 16) + "."@ + decimal(bytes@.len()));
    }
    string_of(&out)
}

// ---- pending switch ------------------------------------------------------

/// The unconfirmed account, and whether the pending record is now stale and
/// must be removed.
pub open spec fn spec_unconfirmed(
    pending: Option<(Seq<char>, Seq<char>)>,
    current_id: Option<Seq<char>>,
    live_token: Option<Seq<char>>,
) -> (Option<Seq<char>>, bool) {
    match pending {
        None => (None, false),
        Some((account, fp)) => if current_id == Some(account) {
            (None, true)
        } else {
            match live_token {
                Some(live) if spec_fingerprint(live) != fp => (None, true),
                _ => (Some(account), false),
            }
        },
    }
}

/// What [`unconfirmed_switch`] found.
pub struct UnconfirmedCheck {
    /// The account whose planted token the launcher never signed in with.
    pub account: Option<String>,
    /// The pending record is settled and should be deleted.
    pub clear_record: bool,
}

/// Which account's token this library planted in the live INI without the
/// launcher confirming the sign-in, given the pending record (if any), the
/// current `AccountId` (as [`current_id`] reads it) and the live token.
///
/// Confirmed when `AccountId` names the planted account, or when a different
/// token is live (someone signed in for real); in both cases the record is
/// settled and `clear_record` is set.
pub fn unconfirmed_switch(
    pending: Option<PendingSwitch>,
    current_id: Option<String>,
    live_token: Option<String>,
) -> (r: UnconfirmedCheck)
    ensures
        ({
            let p = match pending {
                Some(p) => Some((p.account_id@, p.token_fp@)),
                None => None,
            };
            let c = match current_id {
                Some(c) => Some(c@),
                None => None,
            };
            let l = match live_token {
                Some(l) => Some(l@),
                None => None,
            };
            let (acc, clear) = spec_unconfirmed(p, c, l);
            &&& r.clear_record == clear
            &&& (r.account matches Some(a) ==> acc == Some(a@))
            &&& (r.account is None ==> acc is None)
        }),
{
    match pending {
        None => UnconfirmedCheck { account: None, clear_record: false },
        Some(p) => {
            let confirmed = match &current_id {
                Some(c) => *c == p.account_id,
                None => false,
            };
            if confirmed {
                return UnconfirmedCheck { account: None, clear_record: true };
            }
            match live_token {
                Some(live) => {
                    let fp = fingerprint(live.as_str());
                    if fp != p.token_fp {
                        return UnconfirmedCheck { account: None, clear_record: true };
                    }
                },
                None => {},
            }
            UnconfirmedCheck { account: Some(p.account_id), clear_record: false }
        },
    }
}

/// The token to save for `account_id`: refused when the live token was planted
/// for another account, or when there is no live token.
pub fn capture_token(planted: Option<String>, account_id: &str, live_token: Option<String>) -> (r:
    Result<String, EpicError>)
    ensures
        (planted matches Some(p) && p@ != account_id@) ==> r matches Err(EpicError::PlantedForOther),
        !(planted matches Some(p) && p@ != account_id@) ==> match live_token {
            Some(t) => r matches Ok(v) && v@ == t@,
            None => r matches Err(EpicError::NoLiveToken),
        },
{
    match planted {
        Some(p) => {
            let id = String::from_str(account_id);
            if p != id {
                return Err(EpicError::PlantedForOther);
            }
        },
        None => {},
    }
    match live_token {
        Some(t) => Ok(t),
        None => Err(EpicError::NoLiveToken),
    }
}

/// The saved token of an account: the trimmed `epic_token.txt` when non-empty,
/// else the token of a migrated whole-file INI snapshot.
pub fn saved_token(token_file: Option<&str>, migrated_ini: Option<&str>) -> (r: Option<String>)
    ensures
        ({
            let from_file = match token_file {
                Some(t) => trim(t@).len() > 0,
                None => false,
            };
            &&& from_file ==> (r matches Some(v) && token_file matches Some(t) && v@ == trim(t@))
            &&& !from_file ==> match migrated_ini {
                Some(m) => (r matches Some(v) ==> spec_extract_token(m@) == Some(v@)) && (r is None
                    <==> spec_extract_token(m@) is None),
                None => r is None,
            }
        }),
{
    match token_file {
        Some(t) => {
            let c = chars_of(t);
            let tt = trim_chars(c.as_slice());
            if tt.len() > 0 {
                return Some(string_of(&tt));
            }
        },
        None => {},
    }
    match migrated_ini {
        Some(m) => extract_token(m),
        None => None,
    }
}

/// What a switch writes: the new INI text, and the pending record to store.
pub struct EpicSwitchWrite {
    pub ini: String,
    pub pending: PendingSwitch,
}

/// The INI text that makes `token` the live login for `account_id` (the
/// `[RememberMe]` section set, everything else kept), and the pending record
/// that marks it unconfirmed. A missing INI counts as empty.
pub fn switch_write(existing_ini: Option<&str>, account_id: &str, token: &str) -> (r: EpicSwitchWrite)
    ensures
        r.ini@ == spec_edit_remember_me(
            match existing_ini {
                Some(e) => e@,
                None => Seq::empty(),
            },
            true,
            token@,
        ),
        r.pending.account_id@ == account_id@,
        r.pending.token_fp@ == spec_fingerprint(token@),
{
    let ini = match existing_ini {
        Some(e) => edit_remember_me(e, true, token),
        None => {
            proof {
                reveal_strlit("");
            }
            edit_remember_me("", true, token)
        },
    };
    EpicSwitchWrite {
        ini,
        pending: PendingSwitch {
            account_id: String::from_str(account_id),
            token_fp: fingerprint(token),
        },
    }
}

/// The INI text with the login cleared: `Enable=False`, empty `Data=`, every
/// other line kept.
pub fn clear_write(existing_ini: &str) -> (r: String)
    ensures
        r@ == spec_edit_remember_me(existing_ini@, false, Seq::empty()),
{
    proof {
        reveal_strlit("");
    }
    edit_remember_me(existing_ini, false, "")
}

// ---- laws of the pending record ---------------------------------------------

/// After a switch writes account `b`'s token, while the launcher has not
/// signed in with it (`AccountId` still names another account `a` and the
/// planted token is still live), the planted token is reported as `b`'s
/// unconfirmed one, so a capture for `a` is refused rather than filing `b`'s
/// token under `a`. (Token conditions as in [`law_token_reads_back`].)
pub proof fn law_rejected_switch_not_misfiled(existing: Seq<char>, token: Seq<char>, b: Seq<char>, a: Seq<char>)
    requires
        a != b,
        byte_len(token) >= MIN_TOKEN_LEN,
        token.len() > 0,
        !crate::text::is_ws(token[0]),
        !crate::text::is_ws(token.last()),
        crate::text::no_nl(token),
        forall|j: int|
            0 <= j < crate::ini::ini_lines(existing).len() && !crate::ini::rewritten(crate::ini::ini_lines(existing), j)
                ==> !long_data(#[trigger] crate::ini::ini_lines(existing)[j]),
    ensures
        spec_unconfirmed(
            Some((b, spec_fingerprint(token))),
            Some(a),
            spec_extract_token(spec_edit_remember_me(existing, true, token)),
        ) == (Some(b), false),
{
    law_token_reads_back(existing, token);
}

/// Once `AccountId` names the account a token was planted for, the switch is
/// confirmed: nothing is unconfirmed and the record is settled.
pub proof fn law_confirmed_switch_clears_record(b: Seq<char>, fp: Seq<char>, live: Option<Seq<char>>)
    ensures
        spec_unconfirmed(Some((b, fp)), Some(b), live) == (None::<Seq<char>>, true),
{
}

/// A different live token than the one planted means someone signed in for
/// real: nothing is unconfirmed and the record is settled.
pub proof fn law_fresh_token_clears_record(b: Seq<char>, fp: Seq<char>, current: Option<Seq<char>>, live: Seq<char>)
    requires
        current != Some(b),
        spec_fingerprint(live) != fp,
    ensures
        spec_unconfirmed(Some((b, fp)), current, Some(live)) == (None::<Seq<char>>, true),
{
}

/// A planted token stays unconfirmed until the launcher confirms it: while
/// `AccountId` names another account than the planted one `b`, and the live
/// token is the planted one or was wiped (none is live), `b`'s switch is
/// reported unconfirmed and its record is kept.
pub proof fn law_planted_stays_unconfirmed(b: Seq<char>, fp: Seq<char>, current: Option<Seq<char>>, live: Option<Seq<char>>)
    requires
        current != Some(b),
        live matches Some(t) ==> spec_fingerprint(t) == fp,
    ensures
        spec_unconfirmed(Some((b, fp)), current, live) == (Some(b), false),
{
}

} // verus!
