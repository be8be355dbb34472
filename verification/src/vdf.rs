//! Steam: `config/loginusers.vdf` parsing, editing and serialization.
//!
//! Steam keeps all accounts in one file and picks the auto-login account from
//! its `MostRecent` / `AllowAutoLogin` flags plus the `AutoLoginUser` registry
//! value. A switch flips those flags; key order is preserved so unknown fields
//! round-trip untouched.

use crate::model::{Account, AccountV};
use crate::text::{chars_of, eq_ignore_ascii_case, eq_ignore_case, push_char, string_of};
use vstd::prelude::*;

verus! {

/// Steam's registry key.
pub const STEAM_REG: &'static str = "HKCU\\Software\\Valve\\Steam";

/// A token of VDF text: a quoted string or a brace.
pub enum Tok {
    Str(String),
    Open,
    Close,
}

/// Value of a [`Tok`].
pub enum TokV {
    Str(Seq<char>),
    Open,
    Close,
}

impl View for Tok {
    type V = TokV;

    open spec fn view(&self) -> TokV {
        match self {
            Tok::Str(s) => TokV::Str(s@),
            Tok::Open => TokV::Open,
            Tok::Close => TokV::Close,
        }
    }
}

/// The values of a token list.
pub open spec fn toks_view(v: Seq<Tok>) -> Seq<TokV> {
    v.map_values(|t: Tok| t@)
}

/// Where the tokenizer is: between tokens, inside a quoted string, or just
/// after a backslash inside one.
pub enum TokMode {
    Out,
    InStr,
    Esc,
}

/// Tokenizer state: mode, the string being read, the tokens so far.
pub struct TokAcc {
    pub mode: TokMode,
    pub cur: Seq<char>,
    pub toks: Seq<TokV>,
}

/// The tokenizer's start state.
pub open spec fn tok_init() -> TokAcc {
    TokAcc { mode: TokMode::Out, cur: Seq::empty(), toks: Seq::empty() }
}

/// One character of tokenizing. Outside strings only `"`, `{` and `}` count;
/// inside, a backslash takes the next character literally and `"` ends it.
pub open spec fn tok_step(a: TokAcc, c: char) -> TokAcc {
    match a.mode {
        TokMode::Out => if c == '"' {
            TokAcc { mode: TokMode::InStr, cur: Seq::empty(), toks: a.toks }
        } else if c == '{' {
            TokAcc { toks: a.toks.push(TokV::Open), ..a }
        } else if c == '}' {
            TokAcc { toks: a.toks.push(TokV::Close), ..a }
        } else {
            a
        },
        TokMode::InStr => if c == '\\' {
            TokAcc { mode: TokMode::Esc, ..a }
        } else if c == '"' {
            TokAcc { mode: TokMode::Out, cur: Seq::empty(), toks: a.toks.push(TokV::Str(a.cur)) }
        } else {
            TokAcc { cur: a.cur.push(c), ..a }
        },
        TokMode::Esc => TokAcc { mode: TokMode::InStr, cur: a.cur.push(c), ..a },
    }
}

/// Tokenizing `s` from state `init`.
pub open spec fn tok_fold_from(init: TokAcc, s: Seq<char>) -> TokAcc
    decreases s.len(),
{
    if s.len() == 0 {
        init
    } else {
        tok_step(tok_fold_from(init, s.drop_last()), s.last())
    }
}

/// The tokens of `s`; a string left open at the end still counts.
pub open spec fn spec_tokenize(s: Seq<char>) -> Seq<TokV> {
    let a = tok_fold_from(tok_init(), s);
    match a.mode {
        TokMode::Out => a.toks,
        _ => a.toks.push(TokV::Str(a.cur)),
    }
}

/// Tokenize VDF text into quoted strings and braces (whitespace ignored).
pub fn tokenize(text: &str) -> (r: Vec<Tok>)
    ensures
        toks_view(r@) == spec_tokenize(text@),
{
    let s = chars_of(text);
    let mut toks: Vec<Tok> = Vec::new();
    let mut mode: u8 = 0;
    let mut cur: Vec<char> = Vec::new();
    let mut i: usize = 0;
    while i < s.len()
        invariant
            i <= s.len(),
            s@ == text@,
            mode <= 2,
            ({
                let a = tok_fold_from(tok_init(), s@.take(i as int));
                &&& (mode == 0 <==> a.mode is Out)
                &&& (mode == 1 <==> a.mode is InStr)
                &&& (mode == 2 <==> a.mode is Esc)
                &&& cur@ == a.cur
                &&& toks_view(toks@) == a.toks
            }),
        decreases s.len() - i,
    {
        assert(s@.take(i + 1).drop_last() == s@.take(i as int));
        let c = s[i];
        let ghost before = toks_view(toks@);
        if mode == 0 {
            if c == '"' {
                mode = 1;
                cur = Vec::new();
            } else if c == '{' {
                toks.push(Tok::Open);
                assert(toks_view(toks@) =~= before.push(TokV::Open));
            } else if c == '}' {
                toks.push(Tok::Close);
                assert(toks_view(toks@) =~= before.push(TokV::Close));
            }
        } else if mode == 1 {
            if c == '\\' {
                mode = 2;
            } else if c == '"' {
                let t = string_of(&cur);
                toks.push(Tok::Str(t));
                assert(toks_view(toks@) =~= before.push(TokV::Str(cur@)));
                cur = Vec::new();
                mode = 0;
            } else {
                cur.push(c);
            }
        } else {
            cur.push(c);
            mode = 1;
        }
        i = i + 1;
    }
    assert(s@.take(s@.len() as int) == s@);
    if mode != 0 {
        let ghost before = toks_view(toks@);
        let t = string_of(&cur);
        toks.push(Tok::Str(t));
        assert(toks_view(toks@) =~= before.push(TokV::Str(cur@)));
    }
    toks
}

// ---- user blocks ---------------------------------------------------------

/// One `"<steamid>" { ... }` block, its key/value pairs in file order.
pub struct UserBlock {
    pub steamid: String,
    pub kvs: Vec<(String, String)>,
}

/// Value of a [`UserBlock`].
pub struct BlockV {
    pub steamid: Seq<char>,
    pub kvs: Seq<(Seq<char>, Seq<char>)>,
}

/// The values of key/value pairs.
pub open spec fn kvs_view(v: Seq<(String, String)>) -> Seq<(Seq<char>, Seq<char>)> {
    v.map_values(|p: (String, String)| (p.0@, p.1@))
}

impl View for UserBlock {
    type V = BlockV;

    open spec fn view(&self) -> BlockV {
        BlockV { steamid: self.steamid@, kvs: kvs_view(self.kvs@) }
    }
}

/// The values of a list of blocks.
pub open spec fn blocks_view(v: Seq<UserBlock>) -> Seq<BlockV> {
    v.map_values(|b: UserBlock| b@)
}

/// The key/value pairs of a block body starting at token `i`, and the token
/// index after the block's closing brace. A key not followed by a string, and
/// a stray `{`, are skipped.
pub open spec fn parse_kvs(toks: Seq<TokV>, i: int) -> (Seq<(Seq<char>, Seq<char>)>, int)
    decreases toks.len() - i,
{
    if i < 0 || i >= toks.len() {
        (Seq::empty(), i)
    } else {
        match toks[i] {
            TokV::Close => (Seq::empty(), i + 1),
            TokV::Open => parse_kvs(toks, i + 1),
            TokV::Str(k) => if i + 1 < toks.len() && toks[i + 1] is Str {
                let rest = parse_kvs(toks, i + 2);
                (seq![(k, toks[i + 1]->Str_0)] + rest.0, rest.1)
            } else {
                parse_kvs(toks, i + 1)
            },
        }
    }
}

/// `parse_kvs` moves forward and stays within the tokens.
pub proof fn lemma_parse_kvs_bounds(toks: Seq<TokV>, i: int)
    requires
        0 <= i,
    ensures
        i <= parse_kvs(toks, i).1,
        i <= toks.len() ==> parse_kvs(toks, i).1 <= toks.len(),
    decreases toks.len() - i,
{
    if i < toks.len() {
        match toks[i] {
            TokV::Close => {},
            TokV::Open => lemma_parse_kvs_bounds(toks, i + 1),
            TokV::Str(k) => if i + 1 < toks.len() && toks[i + 1] is Str {
                lemma_parse_kvs_bounds(toks, i + 2);
            } else {
                lemma_parse_kvs_bounds(toks, i + 1);
            },
        }
    }
}

/// The user blocks among the tokens from `i` on, at brace depth `depth`: a
/// string at depth 1 followed by `{` opens a block.
pub open spec fn parse_blocks(toks: Seq<TokV>, i: int, depth: nat) -> Seq<BlockV>
    decreases toks.len() - i,
{
    if i < 0 || i >= toks.len() {
        Seq::empty()
    } else {
        match toks[i] {
            TokV::Open => parse_blocks(toks, i + 1, depth + 1),
            TokV::Close => parse_blocks(
                toks,
                i + 1,
                if depth > 0 {
                    (depth - 1) as nat
                } else {
                    0
                },
            ),
            TokV::Str(s) => if depth == 1 && i + 1 < toks.len() && toks[i + 1] is Open {
                let kv = parse_kvs(toks, i + 2);
                proof {
                    lemma_parse_kvs_bounds(toks, i + 2);
                }
                seq![BlockV { steamid: s, kvs: kv.0 }] + parse_blocks(toks, kv.1, depth)
            } else {
                parse_blocks(toks, i + 1, depth)
            },
        }
    }
}

/// The user blocks of loginusers.vdf text.
pub open spec fn spec_parse(text: Seq<char>) -> Seq<BlockV> {
    parse_blocks(spec_tokenize(text), 0, 0)
}

fn str_copy(s: &String) -> (r: String)
    ensures
        r@ == s@,
{
    s.clone()
}

/// Parse the user blocks out of loginusers.vdf text.
pub fn parse(text: &str) -> (r: Vec<UserBlock>)
    ensures
        blocks_view(r@) == spec_parse(text@),
{
    let toks = tokenize(text);
    let ghost tv = toks_view(toks@);
    let mut blocks: Vec<UserBlock> = Vec::new();
    let mut depth: usize = 0;
    let mut i: usize = 0;
    while i < toks.len()
        invariant
            i <= toks.len(),
            tv == toks_view(toks@),
            tv == spec_tokenize(text@),
            depth <= i,
            blocks_view(blocks@) + parse_blocks(tv, i as int, depth as nat) == parse_blocks(
                tv,
                0,
                0,
            ),
        decreases toks.len() - i,
    {
        assert(tv[i as int] == toks@[i as int]@);
        match &toks[i] {
            Tok::Open => {
                depth = depth + 1;
                i = i + 1;
            },
            Tok::Close => {
                if depth > 0 {
                    depth = depth - 1;
                }
                i = i + 1;
            },
            Tok::Str(s) => {
                let opens = i + 1 < toks.len() && match &toks[i + 1] {
                    Tok::Open => true,
                    _ => false,
                };
                if depth == 1 && opens {
                    assert(tv[i + 1] == toks@[i + 1]@);
                    let steamid = str_copy(s);
                    let ghost start = (i + 2) as int;
                    i = i + 2;
                    let mut kvs: Vec<(String, String)> = Vec::new();
                    proof {
                        lemma_parse_kvs_bounds(tv, start);
                    }
                    loop
                        invariant_except_break
                            kvs_view(kvs@) + parse_kvs(tv, i as int).0 == parse_kvs(tv, start).0,
                            parse_kvs(tv, i as int).1 == parse_kvs(tv, start).1,
                        invariant
                            start <= i <= toks.len(),
                            tv == toks_view(toks@),
                        ensures
                            kvs_view(kvs@) == parse_kvs(tv, start).0,
                            i == parse_kvs(tv, start).1,
                        decreases toks.len() - i,
                    {
                        if i >= toks.len() {
                            assert(kvs_view(kvs@) =~= parse_kvs(tv, start).0);
                            break;
                        }
                        assert(tv[i as int] == toks@[i as int]@);
                        match &toks[i] {
                            Tok::Close => {
                                i = i + 1;
                                assert(kvs_view(kvs@) =~= parse_kvs(tv, start).0);
                                break;
                            },
                            Tok::Open => {
                                i = i + 1;
                            },
                            Tok::Str(k) => {
                                if i + 1 < toks.len() {
                                    assert(tv[i + 1] == toks@[i + 1]@);
                                    match &toks[i + 1] {
                                        Tok::Str(v) => {
                                            let ghost before = kvs_view(kvs@);
                                            kvs.push((str_copy(k), str_copy(v)));
                                            assert(kvs_view(kvs@) =~= before + seq![(k@, v@)]);
                                            i = i + 2;
                                        },
                                        _ => {
                                            i = i + 1;
                                        },
                                    }
                                } else {
                                    i = i + 1;
                                }
                            },
                        }
                    }
                    let ghost before = blocks_view(blocks@);
                    let b = UserBlock { steamid, kvs };
                    blocks.push(b);
                    assert(blocks_view(blocks@) =~= before.push(b@));
                    assert(blocks_view(blocks@) + parse_blocks(tv, i as int, depth as nat) =~= before
                        + parse_blocks(tv, start - 2, depth as nat));
                } else {
                    i = i + 1;
                }
            },
        }
    }
    assert(blocks_view(blocks@) =~= parse_blocks(tv, 0, 0));
    blocks
}

// ---- keys ----------------------------------------------------------------

/// Index of the first pair at or after `i` whose key equals `key` ignoring
/// ASCII case.
pub open spec fn find_key_from(kvs: Seq<(Seq<char>, Seq<char>)>, key: Seq<char>, i: int) -> Option<
    int,
>
    decreases kvs.len() - i,
{
    if i < 0 || i >= kvs.len() {
        None
    } else if eq_ignore_case(kvs[i].0, key) {
        Some(i)
    } else {
        find_key_from(kvs, key, i + 1)
    }
}

/// Index of the first pair whose key equals `key` ignoring ASCII case.
pub open spec fn find_key(kvs: Seq<(Seq<char>, Seq<char>)>, key: Seq<char>) -> Option<int> {
    find_key_from(kvs, key, 0)
}

/// The value of `key` (first match, ASCII case ignored).
pub open spec fn spec_get(kvs: Seq<(Seq<char>, Seq<char>)>, key: Seq<char>) -> Option<Seq<char>> {
    match find_key(kvs, key) {
        Some(i) => Some(kvs[i].1),
        None => None,
    }
}

/// The pairs with `key` set to `val`: the first matching pair keeps its key
/// and takes the value, or the pair is appended.
pub open spec fn spec_set(kvs: Seq<(Seq<char>, Seq<char>)>, key: Seq<char>, val: Seq<char>) -> Seq<
    (Seq<char>, Seq<char>),
> {
    match find_key(kvs, key) {
        Some(i) => kvs.update(i, (kvs[i].0, val)),
        None => kvs.push((key, val)),
    }
}

pub proof fn lemma_find_key_from(kvs: Seq<(Seq<char>, Seq<char>)>, key: Seq<char>, i: int)
    requires
        0 <= i <= kvs.len(),
    ensures
        find_key_from(kvs, key, i) matches Some(j) ==> i <= j < kvs.len() && eq_ignore_case(
            kvs[j].0,
            key,
        ),
    decreases kvs.len() - i,
{
    if i < kvs.len() && !eq_ignore_case(kvs[i].0, key) {
        lemma_find_key_from(kvs, key, i + 1);
    }
}

impl UserBlock {
    /// Index of the first pair whose key is `key`, ignoring ASCII case.
    fn key_index(&self, key: &str) -> (r: Option<usize>)
        ensures
            r matches Some(i) ==> find_key(self@.kvs, key@) == Some(i as int) && i < self.kvs@.len(),
            r is None ==> find_key(self@.kvs, key@) is None,
    {
        let kc = chars_of(key);
        let mut i: usize = 0;
        assert(kvs_view(self.kvs@).len() == self.kvs@.len());
        while i < self.kvs.len()
            invariant
                i <= self.kvs@.len(),
                kc@ == key@,
                find_key(self@.kvs, key@) == find_key_from(self@.kvs, key@, i as int),
            decreases self.kvs.len() - i,
        {
            let k = chars_of(self.kvs[i].0.as_str());
            assert(self@.kvs[i as int].0 == self.kvs@[i as int].0@);
            if eq_ignore_ascii_case(k.as_slice(), kc.as_slice()) {
                return Some(i);
            }
            i = i + 1;
        }
        None
    }

    /// The value of `key`, ignoring ASCII case in the key.
    pub fn get(&self, key: &str) -> (r: Option<String>)
        ensures
            r matches Some(v) ==> spec_get(self@.kvs, key@) == Some(v@),
            r is None ==> spec_get(self@.kvs, key@) is None,
    {
        match self.key_index(key) {
            Some(i) => {
                assert(self@.kvs[i as int].1 == self.kvs@[i as int].1@);
                Some(self.kvs[i].1.clone())
            },
            None => None,
        }
    }

    /// Sets `key` to `val`, keeping the pair's position (and the key's
    /// spelling) when it exists, appending it otherwise.
    pub fn set(&mut self, key: &str, val: &str)
        ensures
            final(self)@.kvs == spec_set(old(self)@.kvs, key@, val@),
            final(self)@.steamid == old(self)@.steamid,
    {
        match self.key_index(key) {
            Some(i) => {
                let k = self.kvs[i].0.clone();
                let ghost before = self@.kvs;
                self.kvs.set(i, (k, String::from_str(val)));
                assert(self@.kvs =~= before.update(i as int, (before[i as int].0, val@)));
            },
            None => {
                let ghost before = self@.kvs;
                self.kvs.push((String::from_str(key), String::from_str(val)));
                assert(self@.kvs =~= before.push((key@, val@)));
            },
        }
    }
}

proof fn lemma_eq_ignore_case_refl(a: Seq<char>)
    ensures
        eq_ignore_case(a, a),
{
}

proof fn lemma_eq_ignore_case_trans(a: Seq<char>, b: Seq<char>, c: Seq<char>)
    requires
        eq_ignore_case(a, b),
        eq_ignore_case(b, c),
    ensures
        eq_ignore_case(a, c),
{
    assert forall|i: int| 0 <= i < a.len() implies crate::text::lower(#[trigger] a[i]) == crate::text::lower(c[i]) by {
        assert(crate::text::lower(a[i]) == crate::text::lower(b[i]));
    }
}

proof fn lemma_eq_ignore_case_sym(a: Seq<char>, b: Seq<char>)
    requires
        eq_ignore_case(a, b),
    ensures
        eq_ignore_case(b, a),
{
    assert forall|i: int| 0 <= i < b.len() implies crate::text::lower(#[trigger] b[i]) == crate::text::lower(a[i]) by {
        assert(crate::text::lower(a[i]) == crate::text::lower(b[i]));
    }
}

/// `find_key_from` only looks at the keys.
proof fn lemma_find_key_same_keys(
    kvs: Seq<(Seq<char>, Seq<char>)>,
    other: Seq<(Seq<char>, Seq<char>)>,
    key: Seq<char>,
    i: int,
)
    requires
        0 <= i <= kvs.len(),
        kvs.len() <= other.len(),
        forall|j: int| 0 <= j < kvs.len() ==> #[trigger] kvs[j].0 == other[j].0,
    ensures
        find_key_from(kvs, key, i) is Some ==> find_key_from(other, key, i) == find_key_from(kvs, key, i),
        find_key_from(kvs, key, i) is None && kvs.len() == other.len() ==> find_key_from(other, key, i) is None,
        find_key_from(kvs, key, i) is None ==> find_key_from(other, key, i) == find_key_from(
            other,
            key,
            kvs.len() as int,
        ),
    decreases kvs.len() - i,
{
    if i < kvs.len() {
        lemma_find_key_same_keys(kvs, other, key, i + 1);
    }
}

/// Reading a key back after setting it gives the value set.
pub proof fn law_get_after_set(kvs: Seq<(Seq<char>, Seq<char>)>, key: Seq<char>, val: Seq<char>)
    ensures
        spec_get(spec_set(kvs, key, val), key) == Some(val),
{
    let t = spec_set(kvs, key, val);
    lemma_find_key_from(kvs, key, 0);
    match find_key(kvs, key) {
        Some(i) => {
            lemma_find_key_same_keys(kvs, t, key, 0);
        },
        None => {
            lemma_find_key_same_keys(kvs, t, key, 0);
            lemma_eq_ignore_case_refl(key);
            assert(t[kvs.len() as int] == (key, val));
        },
    }
}

/// Setting a key leaves every key that differs from it (ignoring ASCII case)
/// as it was.
pub proof fn law_set_keeps_others(
    kvs: Seq<(Seq<char>, Seq<char>)>,
    key: Seq<char>,
    val: Seq<char>,
    other: Seq<char>,
)
    requires
        !eq_ignore_case(other, key),
    ensures
        spec_get(spec_set(kvs, key, val), other) == spec_get(kvs, other),
{
    let t = spec_set(kvs, key, val);
    lemma_find_key_from(kvs, key, 0);
    lemma_find_key_from(kvs, other, 0);
    lemma_find_key_same_keys(kvs, t, other, 0);
    match find_key(kvs, key) {
        Some(i) => {
            match find_key(kvs, other) {
                Some(j) => {
                    if j == i {
                        lemma_eq_ignore_case_sym(kvs[i].0, other);
                        lemma_eq_ignore_case_trans(other, kvs[i].0, key);
                    }
                },
                None => {},
            }
        },
        None => {
            if find_key(kvs, other) is None {
                assert(t.len() == kvs.len() + 1);
                if eq_ignore_case(t[kvs.len() as int].0, other) {
                    lemma_eq_ignore_case_sym(key, other);
                }
                assert(find_key_from(t, other, kvs.len() + 1int) is None);
            }
        },
    }
}

// ---- serialization -------------------------------------------------------

/// One character as written inside a quoted string: `"` and `\` are
/// preceded by a backslash.
pub open spec fn esc_char(c: char) -> Seq<char> {
    if c == '"' || c == '\\' {
        seq!['\\', c]
    } else {
        seq![c]
    }
}

/// A string as written inside quotes, each character escaped as needed.
pub open spec fn escaped(s: Seq<char>) -> Seq<char>
    decreases s.len(),
{
    if s.len() == 0 {
        Seq::empty()
    } else {
        escaped(s.drop_last()) + esc_char(s.last())
    }
}

/// A quoted string, as serialization writes it.
pub open spec fn quoted(s: Seq<char>) -> Seq<char> {
    seq!['"'] + escaped(s) + seq!['"']
}

/// The serialized key/value lines of a block.
pub open spec fn ser_kvs(kvs: Seq<(Seq<char>, Seq<char>)>) -> Seq<char>
    decreases kvs.len(),
{
    if kvs.len() == 0 {
        Seq::empty()
    } else {
        ser_kvs(kvs.drop_last()) + seq!['\t', '\t'] + quoted(kvs.last().0) + seq!['\t', '\t']
            + quoted(kvs.last().1) + seq!['\n']
    }
}

/// One serialized block.
pub open spec fn ser_block(b: BlockV) -> Seq<char> {
    seq!['\t'] + quoted(b.steamid) + seq!['\n', '\t', '{', '\n'] + ser_kvs(b.kvs) + seq![
        '\t',
        '}',
        '\n',
    ]
}

/// The serialized blocks, in order.
pub open spec fn ser_blocks(bs: Seq<BlockV>) -> Seq<char>
    decreases bs.len(),
{
    if bs.len() == 0 {
        Seq::empty()
    } else {
        ser_blocks(bs.drop_last()) + ser_block(bs.last())
    }
}

/// loginusers.vdf text for `bs`, tab-indented as Steam writes it.
pub open spec fn spec_serialize(bs: Seq<BlockV>) -> Seq<char> {
    quoted(seq!['u', 's', 'e', 'r', 's']) + seq!['\n', '{', '\n'] + ser_blocks(bs) + seq![
        '}',
        '\n',
    ]
}

fn push_quoted(out: &mut String, s: &str)
    ensures
        final(out)@ == old(out)@ + quoted(s@),
{
    push_char(out, '"');
    let c = chars_of(s);
    let mut i: usize = 0;
    while i < c.len()
        invariant
            i <= c.len(),
            c@ == s@,
            out@ == old(out)@ + seq!['"'] + escaped(c@.take(i as int)),
        decreases c.len() - i,
    {
        let ch = c[i];
        if ch == '"' || ch == '\\' {
            push_char(out, '\\');
        }
        push_char(out, ch);
        assert(c@.take(i + 1).drop_last() == c@.take(i as int));
        assert(c@.take(i + 1).last() == ch);
        assert(out@ =~= old(out)@ + seq!['"'] + escaped(c@.take(i + 1)));
        i = i + 1;
    }
    push_char(out, '"');
    assert(c@.take(c@.len() as int) == c@);
    assert(out@ =~= old(out)@ + quoted(s@));
}

/// Serialize blocks back to Steam's tab-indented VDF format.
pub fn serialize(blocks: &Vec<UserBlock>) -> (r: String)
    ensures
        r@ == spec_serialize(blocks_view(blocks@)),
{
    let mut out = String::new();
    push_quoted(&mut out, "users");
    push_char(&mut out, '\n');
    push_char(&mut out, '{');
    push_char(&mut out, '\n');
    proof {
        reveal_strlit("users");
        assert("users"@ =~= seq!['u', 's', 'e', 'r', 's']);
        assert(plain_str(seq!['u', 's', 'e', 'r', 's']));
        lemma_escaped_plain(seq!['u', 's', 'e', 'r', 's']);
    }
    let ghost head = out@;
    assert(head =~= quoted(seq!['u', 's', 'e', 'r', 's']) + seq!['\n', '{', '\n']);
    let mut i: usize = 0;
    while i < blocks.len()
        invariant
            i <= blocks.len(),
            out@ == head + ser_blocks(blocks_view(blocks@).take(i as int)),
        decreases blocks.len() - i,
    {
        let b = &blocks[i];
        let ghost before = out@;
        push_char(&mut out, '\t');
        push_quoted(&mut out, b.steamid.as_str());
        push_char(&mut out, '\n');
        push_char(&mut out, '\t');
        push_char(&mut out, '{');
        push_char(&mut out, '\n');
        let ghost mid = out@;
        let mut j: usize = 0;
        while j < b.kvs.len()
            invariant
                j <= b.kvs.len(),
                out@ == mid + ser_kvs(b@.kvs.take(j as int)),
            decreases b.kvs.len() - j,
        {
            push_char(&mut out, '\t');
            push_char(&mut out, '\t');
            push_quoted(&mut out, b.kvs[j].0.as_str());
            push_char(&mut out, '\t');
            push_char(&mut out, '\t');
            push_quoted(&mut out, b.kvs[j].1.as_str());
            push_char(&mut out, '\n');
            assert(b@.kvs.take(j + 1).drop_last() == b@.kvs.take(j as int));
            assert(b@.kvs[j as int] == (b.kvs@[j as int].0@, b.kvs@[j as int].1@));
            j = j + 1;
        }
        assert(b@.kvs.take(b.kvs.len() as int) == b@.kvs);
        push_char(&mut out, '\t');
        push_char(&mut out, '}');
        push_char(&mut out, '\n');
        assert(blocks_view(blocks@).take(i + 1).drop_last() == blocks_view(blocks@).take(
            i as int,
        ));
        assert(blocks_view(blocks@)[i as int] == b@);
        assert(out@ =~= before + ser_block(b@));
        i = i + 1;
    }
    assert(blocks_view(blocks@).take(blocks.len() as int) == blocks_view(blocks@));
    push_char(&mut out, '}');
    push_char(&mut out, '\n');
    out
}

// ---- reading back what was written ------------------------------------------

/// No `"` or `\` in `s`: it is written as it is.
pub open spec fn plain_str(s: Seq<char>) -> bool {
    forall|i: int| 0 <= i < s.len() ==> #[trigger] s[i] != '"' && s[i] != '\\'
}

/// A string without `"` or `\` is written unescaped.
pub proof fn lemma_escaped_plain(s: Seq<char>)
    requires
        plain_str(s),
    ensures
        escaped(s) == s,
    decreases s.len(),
{
    if s.len() > 0 {
        assert(plain_str(s.drop_last()));
        lemma_escaped_plain(s.drop_last());
        assert(s.last() == s[s.len() - 1]);
        assert(s.drop_last() + seq![s.last()] =~= s);
    }
}

/// The tokens of serialized pairs.
pub open spec fn kv_toks(kvs: Seq<(Seq<char>, Seq<char>)>) -> Seq<TokV>
    decreases kvs.len(),
{
    if kvs.len() == 0 {
        Seq::empty()
    } else {
        kv_toks(kvs.drop_last()) + seq![TokV::Str(kvs.last().0), TokV::Str(kvs.last().1)]
    }
}

/// The tokens of a serialized block.
pub open spec fn block_toks(b: BlockV) -> Seq<TokV> {
    seq![TokV::Str(b.steamid), TokV::Open] + kv_toks(b.kvs) + seq![TokV::Close]
}

/// The tokens of serialized blocks.
pub open spec fn blocks_toks(bs: Seq<BlockV>) -> Seq<TokV>
    decreases bs.len(),
{
    if bs.len() == 0 {
        Seq::empty()
    } else {
        blocks_toks(bs.drop_last()) + block_toks(bs.last())
    }
}

/// The tokenizer between tokens, having read `t`.
pub open spec fn out_acc(t: Seq<TokV>) -> TokAcc {
    TokAcc { mode: TokMode::Out, cur: Seq::empty(), toks: t }
}

/// No character that the tokenizer reacts to outside a string.
pub open spec fn plain(s: Seq<char>) -> bool {
    forall|i: int| 0 <= i < s.len() ==> #[trigger] s[i] != '"' && s[i] != '{' && s[i] != '}'
}

proof fn lemma_tok_append(a: TokAcc, s: Seq<char>, t: Seq<char>)
    ensures
        tok_fold_from(a, s + t) == tok_fold_from(tok_fold_from(a, s), t),
    decreases t.len(),
{
    if t.len() == 0 {
        assert(s + t =~= s);
    } else {
        assert((s + t).drop_last() =~= s + t.drop_last());
        assert((s + t).last() == t.last());
        lemma_tok_append(a, s, t.drop_last());
    }
}

proof fn lemma_tok_one(a: TokAcc, c: char)
    ensures
        tok_fold_from(a, seq![c]) == tok_step(a, c),
{
    assert(seq![c].drop_last() =~= Seq::<char>::empty());
    assert(seq![c].last() == c);
    assert(tok_fold_from(a, Seq::<char>::empty()) == a);
}

proof fn lemma_tok_plain(t: Seq<TokV>, w: Seq<char>)
    requires
        plain(w),
    ensures
        tok_fold_from(out_acc(t), w) == out_acc(t),
    decreases w.len(),
{
    if w.len() > 0 {
        lemma_tok_plain(t, w.drop_last());
        assert(w.last() == w[w.len() - 1]);
    }
}

proof fn lemma_tok_in_string(a: TokAcc, s: Seq<char>)
    requires
        a.mode is InStr,
    ensures
        tok_fold_from(a, escaped(s)) == (TokAcc { mode: TokMode::InStr, cur: a.cur + s, toks: a.toks }),
    decreases s.len(),
{
    if s.len() == 0 {
        assert(a.cur + s =~= a.cur);
    } else {
        let d = s.drop_last();
        let c = s.last();
        lemma_tok_in_string(a, d);
        let m = TokAcc { mode: TokMode::InStr, cur: a.cur + d, toks: a.toks };
        lemma_tok_append(a, escaped(d), esc_char(c));
        if c == '"' || c == '\\' {
            assert(esc_char(c) =~= seq!['\\'].push(c));
            assert(seq!['\\'].push(c).drop_last() =~= seq!['\\']);
            lemma_tok_one(m, '\\');
        } else {
            lemma_tok_one(m, c);
        }
        assert((a.cur + d).push(c) =~= a.cur + s);
    }
}

proof fn lemma_tok_quoted(t: Seq<TokV>, s: Seq<char>)
    ensures
        tok_fold_from(out_acc(t), quoted(s)) == out_acc(t.push(TokV::Str(s))),
{
    let a = out_acc(t);
    lemma_tok_append(a, seq!['"'] + escaped(s), seq!['"']);
    lemma_tok_append(a, seq!['"'], escaped(s));
    lemma_tok_one(a, '"');
    let b = tok_fold_from(a, seq!['"']);
    lemma_tok_in_string(b, s);
    assert(Seq::<char>::empty() + s =~= s);
    lemma_tok_one(tok_fold_from(b, escaped(s)), '"');
}

proof fn lemma_tok_brace(t: Seq<TokV>, pre: Seq<char>, c: char, post: Seq<char>)
    requires
        plain(pre),
        plain(post),
        c == '{' || c == '}',
    ensures
        tok_fold_from(out_acc(t), pre + seq![c] + post) == out_acc(
            t.push(if c == '{' { TokV::Open } else { TokV::Close }),
        ),
{
    let a = out_acc(t);
    lemma_tok_append(a, pre + seq![c], post);
    lemma_tok_append(a, pre, seq![c]);
    lemma_tok_plain(t, pre);
    lemma_tok_one(a, c);
    lemma_tok_plain(t.push(if c == '{' { TokV::Open } else { TokV::Close }), post);
}

proof fn lemma_tok_kvs(t: Seq<TokV>, kvs: Seq<(Seq<char>, Seq<char>)>)
    ensures
        tok_fold_from(out_acc(t), ser_kvs(kvs)) == out_acc(t + kv_toks(kvs)),
    decreases kvs.len(),
{
    if kvs.len() == 0 {
        assert(t + kv_toks(kvs) =~= t);
    } else {
        let d = kvs.drop_last();
        let k = kvs.last().0;
        let v = kvs.last().1;
        assert(kvs.last() == kvs[kvs.len() - 1]);
        lemma_tok_kvs(t, d);
        let tt = seq!['\t', '\t'];
        let nl = seq!['\n'];
        let a = ser_kvs(d);
        let x = tt + quoted(k) + tt + quoted(v) + nl;
        assert(ser_kvs(kvs) =~= a + x);
        let t1 = t + kv_toks(d);
        lemma_tok_append(out_acc(t), a, x);
        assert(plain(tt));
        assert(plain(nl));
        lemma_tok_append(out_acc(t1), tt + quoted(k) + tt + quoted(v), nl);
        lemma_tok_append(out_acc(t1), tt + quoted(k) + tt, quoted(v));
        lemma_tok_append(out_acc(t1), tt + quoted(k), tt);
        lemma_tok_append(out_acc(t1), tt, quoted(k));
        lemma_tok_plain(t1, tt);
        lemma_tok_quoted(t1, k);
        lemma_tok_plain(t1.push(TokV::Str(k)), tt);
        lemma_tok_quoted(t1.push(TokV::Str(k)), v);
        lemma_tok_plain(t1.push(TokV::Str(k)).push(TokV::Str(v)), nl);
        assert(t1.push(TokV::Str(k)).push(TokV::Str(v)) =~= t + kv_toks(kvs));
    }
}

proof fn lemma_tok_block(t: Seq<TokV>, b: BlockV)
    ensures
        tok_fold_from(out_acc(t), ser_block(b)) == out_acc(t + block_toks(b)),
{
    let tab = seq!['\t'];
    let m = seq!['\n', '\t', '{', '\n'];
    let e = seq!['\t', '}', '\n'];
    let k = ser_kvs(b.kvs);
    assert(ser_block(b) == tab + quoted(b.steamid) + m + k + e);
    lemma_tok_append(out_acc(t), tab + quoted(b.steamid) + m + k, e);
    lemma_tok_append(out_acc(t), tab + quoted(b.steamid) + m, k);
    lemma_tok_append(out_acc(t), tab + quoted(b.steamid), m);
    lemma_tok_append(out_acc(t), tab, quoted(b.steamid));
    assert(plain(tab));
    lemma_tok_plain(t, tab);
    lemma_tok_quoted(t, b.steamid);
    let t1 = t.push(TokV::Str(b.steamid));
    assert(m =~= seq!['\n', '\t'] + seq!['{'] + seq!['\n']);
    assert(plain(seq!['\n', '\t']));
    assert(plain(seq!['\n']));
    lemma_tok_brace(t1, seq!['\n', '\t'], '{', seq!['\n']);
    let t2 = t1.push(TokV::Open);
    lemma_tok_kvs(t2, b.kvs);
    let t3 = t2 + kv_toks(b.kvs);
    assert(e =~= seq!['\t'] + seq!['}'] + seq!['\n']);
    lemma_tok_brace(t3, seq!['\t'], '}', seq!['\n']);
    assert(t3.push(TokV::Close) =~= t + block_toks(b));
}

proof fn lemma_tok_blocks(t: Seq<TokV>, bs: Seq<BlockV>)
    ensures
        tok_fold_from(out_acc(t), ser_blocks(bs)) == out_acc(t + blocks_toks(bs)),
    decreases bs.len(),
{
    if bs.len() == 0 {
        assert(t + blocks_toks(bs) =~= t);
    } else {
        let d = bs.drop_last();
        assert(bs.last() == bs[bs.len() - 1]);
        lemma_tok_blocks(t, d);
        lemma_tok_append(out_acc(t), ser_blocks(d), ser_block(bs.last()));
        lemma_tok_block(t + blocks_toks(d), bs.last());
        assert(t + blocks_toks(d) + block_toks(bs.last()) =~= t + blocks_toks(bs));
    }
}

/// The tokens of serialized blocks: the `"users"` header, `{`, each block's
/// tokens, `}`.
pub open spec fn ser_toks(bs: Seq<BlockV>) -> Seq<TokV> {
    seq![TokV::Str(seq!['u', 's', 'e', 'r', 's']), TokV::Open] + blocks_toks(bs) + seq![TokV::Close]
}

proof fn lemma_tokenize_serialized(bs: Seq<BlockV>)
    ensures
        spec_tokenize(spec_serialize(bs)) == ser_toks(bs),
{
    let users = seq!['u', 's', 'e', 'r', 's'];
    let head = seq!['\n', '{', '\n'];
    let tail = seq!['}', '\n'];
    let body = ser_blocks(bs);
    let e = Seq::<TokV>::empty();
    assert(tok_init() == out_acc(e));
    lemma_tok_append(out_acc(e), quoted(users) + head + body, tail);
    lemma_tok_append(out_acc(e), quoted(users) + head, body);
    lemma_tok_append(out_acc(e), quoted(users), head);
    lemma_tok_quoted(e, users);
    let t1 = e.push(TokV::Str(users));
    assert(head =~= seq!['\n'] + seq!['{'] + seq!['\n']);
    assert(plain(seq!['\n']));
    lemma_tok_brace(t1, seq!['\n'], '{', seq!['\n']);
    let t2 = t1.push(TokV::Open);
    lemma_tok_blocks(t2, bs);
    let t3 = t2 + blocks_toks(bs);
    assert(tail =~= Seq::<char>::empty() + seq!['}'] + seq!['\n']);
    assert(plain(Seq::<char>::empty()));
    lemma_tok_brace(t3, Seq::<char>::empty(), '}', seq!['\n']);
    assert(t3.push(TokV::Close) =~= ser_toks(bs));
}

proof fn lemma_kv_toks_index(kvs: Seq<(Seq<char>, Seq<char>)>)
    ensures
        kv_toks(kvs).len() == 2 * kvs.len(),
        forall|j: int|
            #![trigger kvs[j]]
            0 <= j < kvs.len() ==> kv_toks(kvs)[2 * j] == TokV::Str(kvs[j].0) && kv_toks(kvs)[2 * j + 1]
                == TokV::Str(kvs[j].1),
    decreases kvs.len(),
{
    if kvs.len() > 0 {
        let d = kvs.drop_last();
        lemma_kv_toks_index(d);
        assert forall|j: int|
            #![trigger kvs[j]]
            0 <= j < kvs.len() implies kv_toks(kvs)[2 * j] == TokV::Str(kvs[j].0) && kv_toks(kvs)[2 * j + 1]
                == TokV::Str(kvs[j].1) by {
            let a = kv_toks(d);
            let p = seq![TokV::Str(kvs.last().0), TokV::Str(kvs.last().1)];
            assert(kv_toks(kvs) == a + p);
            if j < d.len() {
                assert(d[j] == kvs[j]);
                assert((a + p)[2 * j] == a[2 * j]);
                assert((a + p)[2 * j + 1] == a[2 * j + 1]);
            } else {
                assert(kvs.last() == kvs[j]);
                assert((a + p)[2 * j] == p[0]);
                assert((a + p)[2 * j + 1] == p[1]);
            }
        }
    }
}

proof fn lemma_parse_kvs_at(toks: Seq<TokV>, i: int, kvs: Seq<(Seq<char>, Seq<char>)>)
    requires
        0 <= i,
        i + 2 * kvs.len() < toks.len(),
        forall|j: int|
            0 <= j < kvs.len() ==> toks[i + 2 * j] == TokV::Str(#[trigger] kvs[j].0) && toks[i + 2 * j
                + 1] == TokV::Str(kvs[j].1),
        toks[i + 2 * kvs.len()] == TokV::Close,
    ensures
        parse_kvs(toks, i) == (kvs, i + 2 * kvs.len() + 1),
    decreases kvs.len(),
{
    if kvs.len() > 0 {
        let rest = kvs.skip(1);
        assert forall|j: int| 0 <= j < rest.len() implies toks[(i + 2) + 2 * j] == TokV::Str(#[trigger] rest[j].0)
            && toks[(i + 2) + 2 * j + 1] == TokV::Str(rest[j].1) by {
            assert(rest[j] == kvs[j + 1]);
            assert(toks[i + 2 * (j + 1)] == TokV::Str(kvs[j + 1].0));
            assert(i + 2 * (j + 1) == (i + 2) + 2 * j);
        }
        assert(toks[i + 2 * 0] == TokV::Str(kvs[0].0));
        lemma_parse_kvs_at(toks, i + 2, rest);
        assert(seq![(kvs[0].0, kvs[0].1)] + rest =~= kvs);
    }
}

proof fn lemma_blocks_toks_front(bs: Seq<BlockV>)
    requires
        bs.len() > 0,
    ensures
        blocks_toks(bs) == block_toks(bs[0]) + blocks_toks(bs.skip(1)),
    decreases bs.len(),
{
    if bs.len() == 1 {
        assert(bs.drop_last().len() == 0);
        assert(bs.skip(1).len() == 0);
        assert(bs.last() == bs[0]);
        assert(blocks_toks(bs.drop_last()) == Seq::<TokV>::empty());
        assert(blocks_toks(bs.skip(1)) == Seq::<TokV>::empty());
        assert(blocks_toks(bs) =~= block_toks(bs[0]) + blocks_toks(bs.skip(1)));
    } else {
        let d = bs.drop_last();
        lemma_blocks_toks_front(d);
        assert(bs.skip(1).drop_last() =~= d.skip(1));
        assert(bs.skip(1).last() == bs.last());
        assert(d[0] == bs[0]);
        assert(blocks_toks(bs) =~= block_toks(bs[0]) + blocks_toks(bs.skip(1)));
    }
}

proof fn lemma_parse_blocks_at(toks: Seq<TokV>, i: int, bs: Seq<BlockV>)
    requires
        0 <= i <= toks.len(),
        toks.skip(i) == blocks_toks(bs) + seq![TokV::Close],
    ensures
        parse_blocks(toks, i, 1) == bs,
    decreases bs.len(),
{
    if bs.len() == 0 {
        assert(toks.skip(i)[0] == toks[i]);
        assert(toks.len() == i + 1);
        assert(parse_blocks(toks, i + 1, 0) =~= Seq::<BlockV>::empty());
        assert(bs =~= Seq::<BlockV>::empty());
    } else {
        let b = bs[0];
        let rest = bs.skip(1);
        lemma_blocks_toks_front(bs);
        lemma_kv_toks_index(b.kvs);
        let n: int = b.kvs.len() as int;
        let bt = block_toks(b);
        assert(bt.len() == 2 * n + 3);
        let r = blocks_toks(rest) + seq![TokV::Close];
        assert(toks.skip(i) =~= bt + r);
        assert forall|k: int| 0 <= k < bt.len() implies #[trigger] toks[i + k] == bt[k] by {
            assert(toks.skip(i)[k] == toks[i + k]);
            assert((bt + r)[k] == bt[k]);
        }
        assert(toks.skip(i)[0] == toks[i]);
        assert((bt + r)[0] == bt[0]);
        assert(toks.skip(i)[1] == toks[i + 1]);
        assert((bt + r)[1] == bt[1]);
        assert forall|j: int| 0 <= j < n implies toks[(i + 2) + 2 * j] == TokV::Str(#[trigger] b.kvs[j].0)
            && toks[(i + 2) + 2 * j + 1] == TokV::Str(b.kvs[j].1) by {
            assert(toks[i + (2 + 2 * j)] == bt[2 + 2 * j]);
            assert(toks[i + (2 + 2 * j + 1)] == bt[2 + 2 * j + 1]);
            assert(bt[2 + 2 * j] == kv_toks(b.kvs)[2 * j]);
            assert(bt[2 + 2 * j + 1] == kv_toks(b.kvs)[2 * j + 1]);
        }
        assert(toks[i + (2 + 2 * n)] == bt[2 + 2 * n]);
        lemma_parse_kvs_at(toks, i + 2, b.kvs);
        let next = i + 2 * n + 3;
        assert(toks.skip(next) =~= toks.skip(i).skip(bt.len() as int));
        assert((bt + r).skip(bt.len() as int) =~= r);
        lemma_parse_blocks_at(toks, next, rest);
        assert(seq![BlockV { steamid: b.steamid, kvs: b.kvs }] + rest =~= bs);
    }
}

/// Serialized blocks read back as the same blocks: ids, keys and values
/// (quotes and backslashes included), key order and unknown fields.
pub proof fn law_serialize_parse(bs: Seq<BlockV>)
    ensures
        spec_parse(spec_serialize(bs)) == bs,
{
    lemma_tokenize_serialized(bs);
    let t = ser_toks(bs);
    assert(t[0] == TokV::Str(seq!['u', 's', 'e', 'r', 's']));
    assert(t[1] == TokV::Open);
    assert(t.skip(2) =~= blocks_toks(bs) + seq![TokV::Close]);
    lemma_parse_blocks_at(t, 2, bs);
    assert(parse_blocks(t, 1, 0) == parse_blocks(t, 2, 1));
    assert(parse_blocks(t, 0, 0) == parse_blocks(t, 1, 0));
}

} // verus!
