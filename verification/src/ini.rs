//! Surgical editing of the `[RememberMe]` section of Epic's
//! `GameUserSettings.ini`, and extraction of the token it holds.
//!
//! The file is read as lines (split on `'\n'`, one trailing `'\r'` removed per
//! line). A left-to-right pass tracks whether it is inside `[RememberMe]`,
//! replaces that section's `Enable=` / `Data=` lines, adds the ones it lacks
//! when the section ends, and appends the section when the file has none.

use crate::text::{
    all_ws, append_chars, chars_of, contains_crlf, copy_range, eq_ignore_ascii_case,
    eq_ignore_case, has_crlf, is_blank, join, join_chars, lemma_deep_push, split_lines,
    split_lines_chars, string_of, trim, trim_chars, trim_end, trim_start, trim_start_chars, lower,
};
use vstd::prelude::*;

verus! {

/// Shortest `Data=` value (in bytes) accepted as a real login token.
pub const MIN_TOKEN_LEN: usize = 500;

/// The `Enable=` line written for `enable`.
pub open spec fn enable_line(enable: bool) -> Seq<char> {
    if enable {
        "Enable=True"@
    } else {
        "Enable=False"@
    }
}

/// The `Data=` line written for `token`.
pub open spec fn data_line(token: Seq<char>) -> Seq<char> {
    "Data="@ + token
}

/// The line ending the edited file uses: `\r\n` when the input has one.
pub open spec fn newline_of(existing: Seq<char>) -> Seq<char> {
    if has_crlf(existing) {
        "\r\n"@
    } else {
        "\n"@
    }
}

/// A line with one trailing `'\r'` removed.
pub open spec fn strip_cr(l: Seq<char>) -> Seq<char> {
    if l.len() > 0 && l.last() == '\r' {
        l.drop_last()
    } else {
        l
    }
}

/// The text without its single final `'\n'`, if it has one.
pub open spec fn body_of(s: Seq<char>) -> Seq<char> {
    if s.len() > 0 && s.last() == '\n' {
        s.drop_last()
    } else {
        s
    }
}

/// The lines of an INI text, as the editor sees them.
pub open spec fn ini_lines(s: Seq<char>) -> Seq<Seq<char>> {
    split_lines(body_of(s)).map_values(|l: Seq<char>| strip_cr(l))
}

/// A section header: trimmed, it starts with `[` and ends with `]`.
pub open spec fn is_header(l: Seq<char>) -> bool {
    let t = trim(l);
    t.len() > 0 && t[0] == '[' && t.last() == ']'
}

/// The `[RememberMe]` header, in any ASCII case.
pub open spec fn is_rm_header(l: Seq<char>) -> bool {
    eq_ignore_case(trim(l), "[RememberMe]"@)
}

/// `t` begins with `key`, ignoring ASCII case.
pub open spec fn key_at(t: Seq<char>, key: Seq<char>) -> bool {
    t.len() >= key.len() && eq_ignore_case(t.take(key.len() as int), key)
}

/// A line that assigns `key`, leading whitespace ignored.
pub open spec fn is_key(l: Seq<char>, key: Seq<char>) -> bool {
    key_at(trim_start(l), key)
}

/// State of the left-to-right pass over the lines.
pub struct EditAcc {
    pub in_section: bool,
    pub seen: bool,
    pub have_enable: bool,
    pub have_data: bool,
    pub out: Seq<Seq<char>>,
}

/// The output so far, with the keys a still-open `[RememberMe]` lacks added.
pub open spec fn flush(acc: EditAcc, en: Seq<char>, da: Seq<char>) -> Seq<Seq<char>> {
    let a = if acc.in_section && !acc.have_enable {
        acc.out.push(en)
    } else {
        acc.out
    };
    if acc.in_section && !acc.have_data {
        a.push(da)
    } else {
        a
    }
}

/// One line of the pass.
pub open spec fn edit_step(acc: EditAcc, line: Seq<char>, en: Seq<char>, da: Seq<char>) -> EditAcc {
    if is_header(line) {
        let entering = is_rm_header(line);
        EditAcc {
            in_section: entering,
            seen: acc.seen || entering,
            have_enable: if entering {
                false
            } else {
                acc.have_enable
            },
            have_data: if entering {
                false
            } else {
                acc.have_data
            },
            out: flush(acc, en, da).push(line),
        }
    } else if acc.in_section && is_key(line, "Enable="@) {
        EditAcc { have_enable: true, out: acc.out.push(en), ..acc }
    } else if acc.in_section && is_key(line, "Data="@) {
        EditAcc { have_data: true, out: acc.out.push(da), ..acc }
    } else {
        EditAcc { out: acc.out.push(line), ..acc }
    }
}

/// The pass over `lines`.
pub open spec fn edit_fold(lines: Seq<Seq<char>>, en: Seq<char>, da: Seq<char>) -> EditAcc
    decreases lines.len(),
{
    if lines.len() == 0 {
        EditAcc {
            in_section: false,
            seen: false,
            have_enable: false,
            have_data: false,
            out: Seq::empty(),
        }
    } else {
        edit_step(edit_fold(lines.drop_last(), en, da), lines.last(), en, da)
    }
}

/// The edited lines: the pass's output, flushed, with the section appended
/// when the input had none.
pub open spec fn edited_lines(lines: Seq<Seq<char>>, en: Seq<char>, da: Seq<char>) -> Seq<
    Seq<char>,
> {
    let acc = edit_fold(lines, en, da);
    let o = flush(acc, en, da);
    if acc.seen {
        o
    } else {
        o + seq!["[RememberMe]"@, en, da]
    }
}

/// The INI text with `[RememberMe]` set to `enable` / `token`.
pub open spec fn spec_edit_remember_me(existing: Seq<char>, enable: bool, token: Seq<char>) -> Seq<
    char,
> {
    let nl = newline_of(existing);
    let en = enable_line(enable);
    let da = data_line(token);
    if all_ws(existing) {
        "[RememberMe]"@ + nl + en + nl + da + nl
    } else {
        let joined = join(edited_lines(ini_lines(existing), en, da), nl);
        if existing.len() > 0 && existing.last() == '\n' {
            joined + nl
        } else {
            joined
        }
    }
}

/// The line is inside `[RememberMe]` and is not a header, so its keys are checked.
pub open spec fn checked_in_section(lines: Seq<Seq<char>>, j: int) -> bool {
    edit_fold(lines.take(j), Seq::empty(), Seq::empty()).in_section && !is_header(lines[j])
}

proof fn lemma_fold_section_independent(
    lines: Seq<Seq<char>>,
    en: Seq<char>,
    da: Seq<char>,
    en2: Seq<char>,
    da2: Seq<char>,
)
    ensures
        edit_fold(lines, en, da).in_section == edit_fold(lines, en2, da2).in_section,
        edit_fold(lines, en, da).seen == edit_fold(lines, en2, da2).seen,
        edit_fold(lines, en, da).have_enable == edit_fold(lines, en2, da2).have_enable,
        edit_fold(lines, en, da).have_data == edit_fold(lines, en2, da2).have_data,
    decreases lines.len(),
{
    if lines.len() > 0 {
        lemma_fold_section_independent(lines.drop_last(), en, da, en2, da2);
    }
}

/// Whether `l` is a section header.
fn header_line(l: &[char]) -> (b: bool)
    ensures
        b == is_header(l@),
{
    let t = trim_chars(l);
    t.len() > 0 && t[0] == '[' && t[t.len() - 1] == ']'
}

/// Whether `l`, leading whitespace ignored, begins with `key` in any ASCII case.
fn key_line(l: &[char], key: &[char]) -> (b: bool)
    ensures
        b == is_key(l@, key@),
{
    let t = trim_start_chars(l);
    if t.len() < key.len() {
        return false;
    }
    let head = copy_range(t.as_slice(), 0, key.len());
    assert(head@ == t@.take(key@.len() as int));
    eq_ignore_ascii_case(head.as_slice(), key)
}

/// `l` with one trailing `'\r'` removed.
fn strip_cr_chars(l: &[char]) -> (r: Vec<char>)
    ensures
        r@ == strip_cr(l@),
{
    if l.len() > 0 && l[l.len() - 1] == '\r' {
        copy_range(l, 0, l.len() - 1)
    } else {
        copy_range(l, 0, l.len())
    }
}

/// Clones a character vector.
pub fn clone_chars(v: &Vec<char>) -> (r: Vec<char>)
    ensures
        r@ == v@,
{
    copy_range(v.as_slice(), 0, v.len())
}

/// Pushes a copy of `line` onto `out`.
fn push_line(out: &mut Vec<Vec<char>>, line: &Vec<char>)
    ensures
        final(out).deep_view() == old(out).deep_view().push(line@),
{
    let ghost before = out.deep_view();
    let c = clone_chars(line);
    out.push(c);
    proof {
        lemma_deep_push(before, *out, line@);
    }
}

/// The lines of `existing` as the editor sees them.
fn ini_lines_of(existing: &[char]) -> (r: Vec<Vec<char>>)
    ensures
        r.deep_view() == ini_lines(existing@),
{
    let body = if existing.len() > 0 && existing[existing.len() - 1] == '\n' {
        copy_range(existing, 0, existing.len() - 1)
    } else {
        copy_range(existing, 0, existing.len())
    };
    assert(body@ == body_of(existing@));
    let raw = split_lines_chars(body.as_slice());
    let mut r: Vec<Vec<char>> = Vec::new();
    let mut i: usize = 0;
    while i < raw.len()
        invariant
            i <= raw.len(),
            raw.deep_view() == split_lines(body@),
            r.deep_view() == split_lines(body@).take(i as int).map_values(
                |l: Seq<char>| strip_cr(l),
            ),
        decreases raw.len() - i,
    {
        assert(raw.deep_view()[i as int] == raw[i as int]@);
        let s = strip_cr_chars(raw[i].as_slice());
        let ghost before = r.deep_view();
        r.push(s);
        proof {
            lemma_deep_push(before, r, s@);
            assert(split_lines(body@).take(i + 1).map_values(|l: Seq<char>| strip_cr(l))
                =~= before.push(s@));
        }
        i = i + 1;
    }
    assert(split_lines(body@).take(raw.len() as int) == split_lines(body@));
    r
}

/// Sets the `[RememberMe]` section of an INI text to `Enable=<enable>` and
/// `Data=<token>`, keeping every other line and the file's line endings. A
/// blank input becomes just the section.
pub fn edit_remember_me(existing: &str, enable: bool, token: &str) -> (r: String)
    ensures
        r@ == spec_edit_remember_me(existing@, enable, token@),
{
    let ex = chars_of(existing);
    let crlf = contains_crlf(ex.as_slice());
    let nl = if crlf {
        chars_of("\r\n")
    } else {
        chars_of("\n")
    };
    let en = if enable {
        chars_of("Enable=True")
    } else {
        chars_of("Enable=False")
    };
    let mut da = chars_of("Data=");
    let tk = chars_of(token);
    append_chars(&mut da, tk.as_slice());
    let header = chars_of("[RememberMe]");
    assert(nl@ == newline_of(existing@));
    assert(en@ == enable_line(enable));
    assert(da@ == data_line(token@));
    if is_blank(ex.as_slice()) {
        let mut out = clone_chars(&header);
        append_chars(&mut out, nl.as_slice());
        append_chars(&mut out, en.as_slice());
        append_chars(&mut out, nl.as_slice());
        append_chars(&mut out, da.as_slice());
        append_chars(&mut out, nl.as_slice());
        return string_of(&out);
    }
    let lines = ini_lines_of(ex.as_slice());
    let enable_key = chars_of("Enable=");
    let data_key = chars_of("Data=");
    let mut out: Vec<Vec<char>> = Vec::new();
    let mut in_section = false;
    let mut seen = false;
    let mut have_enable = false;
    let mut have_data = false;
    let mut i: usize = 0;
    while i < lines.len()
        invariant
            i <= lines.len(),
            lines.deep_view() == ini_lines(existing@),
            enable_key@ == "Enable="@,
            data_key@ == "Data="@,
            header@ == "[RememberMe]"@,
            ({
                let acc = edit_fold(lines.deep_view().take(i as int), en@, da@);
                &&& acc.in_section == in_section
                &&& acc.seen == seen
                &&& acc.have_enable == have_enable
                &&& acc.have_data == have_data
                &&& acc.out == out.deep_view()
            }),
        decreases lines.len() - i,
    {
        let ghost prev = lines.deep_view().take(i as int);
        assert(lines.deep_view().take(i + 1).drop_last() == prev);
        assert(lines.deep_view()[i as int] == lines[i as int]@);
        let line = &lines[i];
        if header_line(line.as_slice()) {
            if in_section {
                if !have_enable {
                    push_line(&mut out, &en);
                }
                if !have_data {
                    push_line(&mut out, &da);
                }
            }
            let t = trim_chars(line.as_slice());
            in_section = eq_ignore_ascii_case(t.as_slice(), header.as_slice());
            if in_section {
                seen = true;
                have_enable = false;
                have_data = false;
            }
            push_line(&mut out, line);
        } else if in_section && key_line(line.as_slice(), enable_key.as_slice()) {
            push_line(&mut out, &en);
            have_enable = true;
        } else if in_section && key_line(line.as_slice(), data_key.as_slice()) {
            push_line(&mut out, &da);
            have_data = true;
        } else {
            push_line(&mut out, line);
        }
        i = i + 1;
    }
    assert(lines.deep_view().take(lines.len() as int) == lines.deep_view());
    if in_section {
        if !have_enable {
            push_line(&mut out, &en);
        }
        if !have_data {
            push_line(&mut out, &da);
        }
    }
    if !seen {
        let ghost before = out.deep_view();
        push_line(&mut out, &header);
        push_line(&mut out, &en);
        push_line(&mut out, &da);
        assert(out.deep_view() =~= before + seq!["[RememberMe]"@, en@, da@]);
    }
    let mut joined = join_chars(&out, nl.as_slice());
    if ex.len() > 0 && ex[ex.len() - 1] == '\n' {
        append_chars(&mut joined, nl.as_slice());
    }
    string_of(&joined)
}


// ---- laws of the editor ------------------------------------------------

/// Whether line `j` is an `Enable=` or `Data=` key inside `[RememberMe]`: the
/// only kind of input line the editor rewrites.
pub open spec fn rewritten(lines: Seq<Seq<char>>, j: int) -> bool {
    &&& checked_in_section(lines, j)
    &&& (is_key(lines[j], "Enable="@) || is_key(lines[j], "Data="@))
}

/// `x` is an input line the editor keeps as it is.
pub open spec fn kept_line(lines: Seq<Seq<char>>, x: Seq<char>) -> bool {
    exists|j: int| 0 <= j < lines.len() && !rewritten(lines, j) && #[trigger] lines[j] == x
}

proof fn lemma_fold_extends(lines: Seq<Seq<char>>, k: int, en: Seq<char>, da: Seq<char>)
    requires
        0 <= k <= lines.len(),
    ensures
        edit_fold(lines.take(k), en, da).out.len() <= edit_fold(lines, en, da).out.len(),
        edit_fold(lines, en, da).out.take(edit_fold(lines.take(k), en, da).out.len() as int)
            == edit_fold(lines.take(k), en, da).out,
    decreases lines.len() - k,
{
    if k == lines.len() {
        assert(lines.take(k) == lines);
        assert(edit_fold(lines, en, da).out.take(edit_fold(lines, en, da).out.len() as int)
            == edit_fold(lines, en, da).out);
    } else {
        let d = lines.drop_last();
        assert(d.take(k) == lines.take(k));
        lemma_fold_extends(d, k, en, da);
        let a = edit_fold(d, en, da);
        let b = edit_fold(lines, en, da);
        let p = edit_fold(lines.take(k), en, da).out;
        assert(b.out.len() >= a.out.len());
        assert(b.out.take(a.out.len() as int) == a.out);
        assert(b.out.take(p.len() as int) =~= a.out.take(p.len() as int));
    }
}

proof fn lemma_fold_keeps(lines: Seq<Seq<char>>, j: int, en: Seq<char>, da: Seq<char>)
    requires
        0 <= j < lines.len(),
        !rewritten(lines, j),
    ensures
        edit_fold(lines, en, da).out.contains(lines[j]),
{
    let before = edit_fold(lines.take(j), en, da);
    let after = edit_fold(lines.take(j + 1), en, da);
    assert(lines.take(j + 1).drop_last() == lines.take(j));
    assert(lines.take(j + 1).last() == lines[j]);
    lemma_fold_section_independent(lines.take(j), en, da, Seq::empty(), Seq::empty());
    assert(after.out.last() == lines[j]);
    lemma_fold_extends(lines, j + 1, en, da);
    let all = edit_fold(lines, en, da).out;
    assert(all.take(after.out.len() as int)[after.out.len() - 1] == lines[j]);
}

/// The editor keeps every line of the INI except the `Enable=` and `Data=`
/// keys of `[RememberMe]`: other sections, keys and comments survive the edit.
pub proof fn law_edit_keeps_other_lines(existing: Seq<char>, enable: bool, token: Seq<char>, j: int)
    requires
        0 <= j < ini_lines(existing).len(),
        !rewritten(ini_lines(existing), j),
    ensures
        edited_lines(ini_lines(existing), enable_line(enable), data_line(token)).contains(
            ini_lines(existing)[j],
        ),
{
    let lines = ini_lines(existing);
    let en = enable_line(enable);
    let da = data_line(token);
    lemma_fold_keeps(lines, j, en, da);
    let acc = edit_fold(lines, en, da);
    let k = choose|k: int| 0 <= k < acc.out.len() && acc.out[k] == lines[j];
    let f = flush(acc, en, da);
    assert(f[k] == lines[j]);
    if !acc.seen {
        assert((f + seq!["[RememberMe]"@, en, da])[k] == lines[j]);
    }
}

proof fn lemma_fold_only(lines: Seq<Seq<char>>, en: Seq<char>, da: Seq<char>)
    ensures
        forall|i: int|
            0 <= i < edit_fold(lines, en, da).out.len() ==> {
                let x = #[trigger] edit_fold(lines, en, da).out[i];
                kept_line(lines, x) || x == en || x == da
            },
    decreases lines.len(),
{
    if lines.len() > 0 {
        let d = lines.drop_last();
        lemma_fold_only(d, en, da);
        let n = lines.len() - 1;
        assert(d == lines.take(n));
        lemma_fold_section_independent(d, en, da, Seq::empty(), Seq::empty());
        let acc = edit_fold(d, en, da);
        let out = edit_fold(lines, en, da).out;
        assert forall|i: int| 0 <= i < out.len() implies {
            let x = #[trigger] out[i];
            kept_line(lines, x) || x == en || x == da
        } by {
            let x = out[i];
            if i < acc.out.len() {
                assert(out[i] == acc.out[i]);
                let y = acc.out[i];
                if kept_line(d, y) {
                    let jj = choose|jj: int| 0 <= jj < d.len() && !rewritten(d, jj) && d[jj] == y;
                    assert(d.take(jj) == lines.take(jj));
                    assert(lines[jj] == d[jj]);
                    assert(!rewritten(lines, jj));
                }
            } else if x != en && x != da {
                assert(x == lines[n]);
                assert(!rewritten(lines, n));
            }
        }
    }
}

/// The editor writes nothing but kept input lines, the new `Enable=` and
/// `Data=` lines, and (when the file had none) a `[RememberMe]` header: a
/// replaced token that occurs nowhere else is gone.
pub proof fn law_edit_writes_only(existing: Seq<char>, enable: bool, token: Seq<char>, i: int)
    requires
        0 <= i < edited_lines(ini_lines(existing), enable_line(enable), data_line(token)).len(),
    ensures
        ({
            let x = edited_lines(ini_lines(existing), enable_line(enable), data_line(token))[i];
            kept_line(ini_lines(existing), x) || x == enable_line(enable) || x == data_line(token)
                || x == "[RememberMe]"@
        }),
{
    let lines = ini_lines(existing);
    let en = enable_line(enable);
    let da = data_line(token);
    lemma_fold_only(lines, en, da);
    let acc = edit_fold(lines, en, da);
    let f = flush(acc, en, da);
    if i < acc.out.len() {
        assert(f[i] == acc.out[i]);
    }
}

proof fn lemma_fold_sets(lines: Seq<Seq<char>>, en: Seq<char>, da: Seq<char>)
    ensures
        ({
            let acc = edit_fold(lines, en, da);
            &&& acc.seen ==> (acc.out.contains(en) || (acc.in_section && !acc.have_enable))
            &&& acc.seen ==> (acc.out.contains(da) || (acc.in_section && !acc.have_data))
            &&& acc.seen ==> exists|k: int| 0 <= k < acc.out.len() && is_rm_header(#[trigger] acc.out[k])
            &&& acc.in_section ==> acc.seen
            &&& acc.in_section && acc.have_enable ==> acc.out.contains(en)
            &&& acc.in_section && acc.have_data ==> acc.out.contains(da)
        }),
    decreases lines.len(),
{
    if lines.len() > 0 {
        let d = lines.drop_last();
        lemma_fold_sets(d, en, da);
        let a = edit_fold(d, en, da);
        let b = edit_fold(lines, en, da);
        let line = lines.last();
        assert forall|x: Seq<char>| a.out.contains(x) implies b.out.contains(x) by {
            let k = choose|k: int| 0 <= k < a.out.len() && a.out[k] == x;
            let f = flush(a, en, da);
            assert(f[k] == x);
            assert(b.out[k] == x);
        }
        if a.seen {
            let k = choose|k: int| 0 <= k < a.out.len() && is_rm_header(#[trigger] a.out[k]);
            let f = flush(a, en, da);
            assert(f[k] == a.out[k]);
            assert(b.out[k] == a.out[k]);
        }
        if is_header(line) {
            let f = flush(a, en, da);
            if a.in_section && !a.have_enable {
                assert(f[a.out.len() as int] == en);
                assert(b.out[a.out.len() as int] == en);
            }
            if a.in_section && !a.have_data {
                assert(f[f.len() - 1] == da);
                assert(b.out[f.len() - 1] == da);
            }
            if is_rm_header(line) {
                assert(b.out[b.out.len() - 1] == line);
            }
        } else if a.in_section && is_key(line, "Enable="@) {
            assert(b.out[b.out.len() - 1] == en);
        } else if a.in_section && is_key(line, "Data="@) {
            assert(b.out[b.out.len() - 1] == da);
        }
    }
}

/// After the edit the file has a `[RememberMe]` header, the requested
/// `Enable=` line and the `Data=<token>` line.
pub proof fn law_edit_sets_token(existing: Seq<char>, enable: bool, token: Seq<char>)
    ensures
        ({
            let out = edited_lines(ini_lines(existing), enable_line(enable), data_line(token));
            &&& out.contains(enable_line(enable))
            &&& out.contains(data_line(token))
            &&& exists|k: int| 0 <= k < out.len() && is_rm_header(#[trigger] out[k])
        }),
{
    let lines = ini_lines(existing);
    let en = enable_line(enable);
    let da = data_line(token);
    lemma_fold_sets(lines, en, da);
    let acc = edit_fold(lines, en, da);
    let f = flush(acc, en, da);
    let out = edited_lines(lines, en, da);
    assert forall|x: Seq<char>| acc.out.contains(x) implies f.contains(x) by {
        let k = choose|k: int| 0 <= k < acc.out.len() && acc.out[k] == x;
        assert(f[k] == x);
    }
    if acc.seen {
        let k = choose|k: int| 0 <= k < acc.out.len() && is_rm_header(#[trigger] acc.out[k]);
        assert(f[k] == acc.out[k]);
        if acc.in_section && !acc.have_enable {
            assert(f[acc.out.len() as int] == en);
        }
        if acc.in_section && !acc.have_data {
            assert(f[f.len() - 1] == da);
        }
    } else {
        let g = f + seq!["[RememberMe]"@, en, da];
        assert(g[f.len() + 1int] == en);
        assert(g[f.len() + 2int] == da);
        reveal_strlit("[RememberMe]");
        assert(trim_start("[RememberMe]"@) == "[RememberMe]"@);
        assert(trim_end("[RememberMe]"@) == "[RememberMe]"@);
        assert(is_rm_header(g[f.len() as int]));
    }
}

/// A file with `\r\n` line endings still has them after the edit.
pub proof fn law_edit_keeps_crlf(existing: Seq<char>, enable: bool, token: Seq<char>)
    requires
        has_crlf(existing),
    ensures
        has_crlf(spec_edit_remember_me(existing, enable, token)),
{
    reveal_strlit("\r\n");
    reveal_strlit("[RememberMe]");
    reveal_strlit("Enable=True");
    reveal_strlit("Enable=False");
    reveal_strlit("Data=");
    let nl = newline_of(existing);
    assert(nl =~= seq!['\r', '\n']);
    let en = enable_line(enable);
    let da = data_line(token);
    let out = spec_edit_remember_me(existing, enable, token);
    if all_ws(existing) {
        let hd = "[RememberMe]"@;
        let i = hd.len() as int;
        assert(out[i] == '\r' && out[i + 1] == '\n');
    } else {
        let o = edited_lines(ini_lines(existing), en, da);
        law_edit_sets_token(existing, enable, token);
        let ke = choose|k: int| 0 <= k < o.len() && o[k] == en;
        let kd = choose|k: int| 0 <= k < o.len() && o[k] == da;
        assert(en[0] != da[0]);
        assert(ke != kd);
        assert(o.len() >= 2);
        let j = join(o.drop_last(), nl);
        assert(join(o, nl) == j + nl + o.last());
        let i = j.len() as int;
        assert((j + nl + o.last())[i] == '\r');
        assert((j + nl + o.last())[i + 1] == '\n');
        if existing.len() > 0 && existing.last() == '\n' {
            assert(out == join(o, nl) + nl);
            assert(out[i] == '\r' && out[i + 1] == '\n');
        } else {
            assert(out == join(o, nl));
        }
        assert(out[i] == '\r' && out[i + 1] == '\n');
    }
}

// ---- editing twice ----------------------------------------------------------

/// Two states of the pass that go on alike: the same output, section and
/// `[RememberMe]` seen, and inside the section the same keys met.
spec fn acc_alike(a: EditAcc, b: EditAcc) -> bool {
    &&& a.out == b.out
    &&& a.in_section == b.in_section
    &&& a.seen == b.seen
    &&& a.in_section ==> a.have_enable == b.have_enable && a.have_data == b.have_data
}

/// The lines the editor writes are read back as what they are: `en` an
/// `Enable=` key, `da` a `Data=` key, neither a header.
spec fn keys_written(en: Seq<char>, da: Seq<char>) -> bool {
    &&& !is_header(en)
    &&& is_key(en, "Enable="@)
    &&& !is_header(da)
    &&& !is_key(da, "Enable="@)
    &&& is_key(da, "Data="@)
}

proof fn lemma_step_alike(a: EditAcc, b: EditAcc, l: Seq<char>, en: Seq<char>, da: Seq<char>)
    requires
        acc_alike(a, b),
    ensures
        acc_alike(edit_step(a, l, en, da), edit_step(b, l, en, da)),
{
}

proof fn lemma_fold_push(xs: Seq<Seq<char>>, l: Seq<char>, en: Seq<char>, da: Seq<char>)
    ensures
        edit_fold(xs.push(l), en, da) == edit_step(edit_fold(xs, en, da), l, en, da),
{
    assert(xs.push(l).drop_last() =~= xs);
}

/// Passing over an output with its missing keys added again adds nothing:
/// from a state alike `a`, the pass over `flush(a)` ends in a state alike `a`
/// with both keys met when inside the section.
proof fn lemma_fold_flush(a: EditAcc, en: Seq<char>, da: Seq<char>)
    requires
        keys_written(en, da),
        acc_alike(edit_fold(a.out, en, da), a),
    ensures
        ({
            let c = edit_fold(flush(a, en, da), en, da);
            &&& c.out == flush(a, en, da)
            &&& c.in_section == a.in_section
            &&& c.seen == a.seen
            &&& a.in_section ==> c.have_enable && c.have_data
            &&& a.in_section ==> (a.have_enable ==> c.have_enable == a.have_enable) && (a.have_data
                ==> c.have_data == a.have_data)
        }),
{
    let o1 = if a.in_section && !a.have_enable {
        a.out.push(en)
    } else {
        a.out
    };
    if a.in_section && !a.have_enable {
        lemma_fold_push(a.out, en, en, da);
    }
    if a.in_section && !a.have_data {
        lemma_fold_push(o1, da, en, da);
    }
}

proof fn lemma_refold(lines: Seq<Seq<char>>, en: Seq<char>, da: Seq<char>, i: int)
    requires
        keys_written(en, da),
        0 <= i <= lines.len(),
    ensures
        acc_alike(
            edit_fold(edit_fold(lines.take(i), en, da).out, en, da),
            edit_fold(lines.take(i), en, da),
        ),
    decreases i,
{
    if i == 0 {
        assert(lines.take(0) =~= Seq::<Seq<char>>::empty());
    } else {
        lemma_refold(lines, en, da, i - 1);
        let a = edit_fold(lines.take(i - 1), en, da);
        let l = lines[i - 1];
        assert(lines.take(i).drop_last() =~= lines.take(i - 1));
        assert(lines.take(i).last() == l);
        let b = edit_step(a, l, en, da);
        assert(edit_fold(lines.take(i), en, da) == b);
        if is_header(l) {
            lemma_fold_flush(a, en, da);
            let f = flush(a, en, da);
            lemma_fold_push(f, l, en, da);
            let c = edit_fold(f, en, da);
            assert(flush(c, en, da) == f);
        } else if a.in_section && is_key(l, "Enable="@) {
            lemma_fold_push(a.out, en, en, da);
        } else if a.in_section && is_key(l, "Data="@) {
            lemma_fold_push(a.out, da, en, da);
        } else {
            lemma_fold_push(a.out, l, en, da);
            lemma_step_alike(edit_fold(a.out, en, da), a, l, en, da);
        }
    }
}

/// The editor's line pass is idempotent: passing over its own output with
/// the same `Enable=` and `Data=` lines gives that output back.
pub proof fn law_edited_lines_idempotent(lines: Seq<Seq<char>>, enable: bool, token: Seq<char>)
    ensures
        edited_lines(edited_lines(lines, enable_line(enable), data_line(token)), enable_line(enable), data_line(token))
            == edited_lines(lines, enable_line(enable), data_line(token)),
{
    let en = enable_line(enable);
    let da = data_line(token);
    lemma_keys_written(enable, token);
    lemma_refold(lines, en, da, lines.len() as int);
    assert(lines.take(lines.len() as int) =~= lines);
    let acc = edit_fold(lines, en, da);
    lemma_fold_sets(lines, en, da);
    lemma_fold_flush(acc, en, da);
    let f = flush(acc, en, da);
    if !acc.seen {
        assert(f == acc.out);
        let hd = "[RememberMe]"@;
        lemma_rm_header();
        let o = f + seq![hd, en, da];
        assert(f.push(hd) =~= f + seq![hd]);
        assert(f.push(hd).push(en) =~= f + seq![hd, en]);
        assert(f.push(hd).push(en).push(da) =~= o);
        lemma_fold_push(f, hd, en, da);
        lemma_fold_push(f.push(hd), en, en, da);
        lemma_fold_push(f.push(hd).push(en), da, en, da);
    }
}

proof fn lemma_rm_header()
    ensures
        is_header("[RememberMe]"@),
        is_rm_header("[RememberMe]"@),
{
    reveal_strlit("[RememberMe]");
    crate::text::lemma_trim_fixed("[RememberMe]"@);
}

proof fn lemma_trim_end_prefix(s: Seq<char>)
    ensures
        trim_end(s).len() <= s.len(),
        trim_end(s) == s.take(trim_end(s).len() as int),
        forall|k: int| 0 <= k < s.len() && !crate::text::is_ws(#[trigger] s[k]) ==> trim_end(s).len() > k,
    decreases s.len(),
{
    if s.len() > 0 && crate::text::is_ws(s.last()) {
        lemma_trim_end_prefix(s.drop_last());
        assert(s.drop_last().take(trim_end(s).len() as int) =~= s.take(trim_end(s).len() as int));
        assert forall|k: int| 0 <= k < s.len() && !crate::text::is_ws(#[trigger] s[k]) implies trim_end(s).len() > k by {
            assert(k < s.len() - 1);
            assert(s.drop_last()[k] == s[k]);
        }
    } else {
        assert(s.take(s.len() as int) =~= s);
    }
}

proof fn lemma_keys_written(enable: bool, token: Seq<char>)
    ensures
        keys_written(enable_line(enable), data_line(token)),
{
    reveal_strlit("Enable=True");
    reveal_strlit("Enable=False");
    reveal_strlit("Enable=");
    reveal_strlit("Data=");
    let en = enable_line(enable);
    let da = data_line(token);
    crate::text::lemma_trim_fixed(en);
    assert(trim_start(en) == en);
    assert(en.take(7) =~= "Enable="@);
    assert(trim_start(da) == da);
    assert(da.take(5) =~= "Data="@);
    lemma_trim_end_prefix(da);
    assert(!crate::text::is_ws(da[0]));
    assert(trim(da)[0] == 'D');
    if da.len() >= 7 {
        assert(lower(da.take(7)[0]) != lower("Enable="@[0]));
    }
}

/// `l` ends in a `'\r'`.
pub open spec fn ends_cr(l: Seq<char>) -> bool {
    l.len() > 0 && l.last() == '\r'
}

proof fn lemma_split_trailing(t: Seq<char>)
    requires
        t.len() > 0,
        t.last() == '\n',
    ensures
        split_lines(t) == split_lines(t.drop_last()).push(Seq::empty()),
{
}

proof fn lemma_join_last(o: Seq<Seq<char>>, sep: Seq<char>)
    requires
        o.len() > 0,
        o.last().len() > 0,
    ensures
        join(o, sep).len() > 0,
        join(o, sep).last() == o.last().last(),
{
    if o.len() > 1 {
        let j = join(o.drop_last(), sep) + sep;
        assert((j + o.last()).last() == o.last().last());
    }
}

/// `o[k]` stands in `join(o, sep)` from some offset on.
proof fn lemma_join_holds(o: Seq<Seq<char>>, sep: Seq<char>, k: int) -> (off: int)
    requires
        0 <= k < o.len(),
    ensures
        0 <= off && off + o[k].len() <= join(o, sep).len(),
        join(o, sep).subrange(off, off + o[k].len()) == o[k],
    decreases o.len(),
{
    if o.len() == 1 {
        assert(join(o, sep).subrange(0, o[0].len() as int) =~= o[0]);
        0
    } else {
        let d = o.drop_last();
        let j = join(d, sep);
        let t = j + sep + o.last();
        assert(join(o, sep) == t);
        if k == o.len() - 1 {
            let off: int = (j.len() + sep.len()) as int;
            assert(t.subrange(off, off + o[k].len()) =~= o[k]);
            off
        } else {
            let off = lemma_join_holds(d, sep, k);
            assert(d[k] == o[k]);
            assert(t.subrange(off, off + o[k].len()) =~= j.subrange(off, off + o[k].len()));
            off
        }
    }
}

/// A line ending in `'\r'` that a `'\n'` follows in the join is a `\r\n`.
proof fn lemma_crlf_at(o: Seq<Seq<char>>, k: int)
    requires
        0 <= k < o.len() - 1,
        ends_cr(o[k]),
    ensures
        has_crlf(join(o, "\n"@)),
    decreases o.len(),
{
    reveal_strlit("\n");
    let d = o.drop_last();
    let j = join(d, "\n"@);
    let t = j + "\n"@ + o.last();
    assert(join(o, "\n"@) == t);
    if k == o.len() - 2 {
        assert(d.last() == o[k]);
        lemma_join_last(d, "\n"@);
        let i = j.len() - 1;
        assert(t[i] == '\r' && t[i + 1] == '\n');
    } else {
        assert(d[k] == o[k]);
        lemma_crlf_at(d, k);
        let i = choose|i: int| 0 <= i < j.len() - 1 && #[trigger] j[i] == '\r' && j[i + 1] == '\n';
        assert(t[i] == j[i] && t[i + 1] == j[i + 1]);
    }
}

/// The text of `o` joined by `nl`, with a final `nl` when `trailing`, read
/// back as lines by the editor: `o` itself, or `o` without its empty last
/// line when that line brings the text's final line break.
proof fn lemma_text_lines(o: Seq<Seq<char>>, p: Seq<char>, trailing: bool)
    requires
        o.len() > 0,
        p == Seq::<char>::empty() || p == seq!['\r'],
        forall|k: int| 0 <= k < o.len() ==> crate::text::no_nl(#[trigger] o[k]),
        p.len() == 0 ==> forall|k: int|
            0 <= k < o.len() && (k < o.len() - 1 || trailing) ==> !ends_cr(#[trigger] o[k]),
        !trailing ==> !ends_cr(o.last()),
        !trailing && o.last().len() == 0 ==> o.len() >= 2,
    ensures
        ({
            let nl = p.push('\n');
            let t = if trailing {
                join(o, nl) + nl
            } else {
                join(o, nl)
            };
            &&& (trailing || o.last().len() > 0) ==> ini_lines(t) == o && (t.len() > 0 && t.last() == '\n')
                == trailing
            &&& (!trailing && o.last().len() == 0) ==> ini_lines(t) == o.drop_last() && t.len() > 0 && t.last()
                == '\n' && t == join(o.drop_last(), nl) + nl
        }),
    decreases o.len(),
{
    let nl = p.push('\n');
    assert(crate::text::no_nl(p));
    if !trailing && o.last().len() == 0 {
        let d = o.drop_last();
        assert forall|k: int| 0 <= k < d.len() implies crate::text::no_nl(#[trigger] d[k]) by {
            assert(d[k] == o[k]);
        }
        if p.len() == 0 {
            assert forall|k: int| 0 <= k < d.len() && (k < d.len() - 1 || true) implies !ends_cr(#[trigger] d[k]) by {
                assert(d[k] == o[k]);
            }
        }
        lemma_text_lines(d, p, true);
        assert(o.last() =~= Seq::<char>::empty());
        assert(o =~= d.push(Seq::<char>::empty()));
        crate::text::lemma_join_push_empty(d, nl);
        return;
    }
    let o2 = if trailing {
        o.push(Seq::empty())
    } else {
        o
    };
    assert forall|k: int| 0 <= k < o2.len() implies crate::text::no_nl(#[trigger] o2[k]) by {
        if k < o.len() {
            assert(o2[k] == o[k]);
        }
    }
    crate::text::lemma_split_join(o2, p);
    let t = join(o2, nl);
    if trailing {
        crate::text::lemma_join_push_empty(o, nl);
        assert(t == join(o, nl) + nl);
        assert(t.last() == '\n');
        lemma_split_trailing(t);
        assert(body_of(t) == t.drop_last());
        let e = crate::text::split_join_expect(o2, p);
        assert(split_lines(body_of(t)) =~= e.drop_last());
        assert forall|k: int| 0 <= k < o.len() implies #[trigger] strip_cr(e.drop_last()[k]) == o[k] by {
            assert(e.drop_last()[k] == o2[k] + p);
            assert(o2[k] == o[k]);
            if p.len() == 1 {
                assert((o[k] + p).drop_last() =~= o[k]);
            } else {
                assert(o[k] + p =~= o[k]);
            }
        }
        assert(ini_lines(t) =~= o);
    } else {
        lemma_join_last(o, nl);
        assert(o.last() == o[o.len() - 1]);
        assert(o.last().last() != '\n');
        assert(body_of(t) == t);
        let e = crate::text::split_join_expect(o, p);
        assert forall|k: int| 0 <= k < o.len() implies #[trigger] strip_cr(e[k]) == o[k] by {
            if k < o.len() - 1 {
                if p.len() == 1 {
                    assert((o[k] + p).drop_last() =~= o[k]);
                } else {
                    assert(o[k] + p =~= o[k]);
                }
            }
        }
        assert(ini_lines(t) =~= o);
    }
}

/// The last edited line is the input's last line or one the editor writes.
proof fn lemma_edited_last(lines: Seq<Seq<char>>, en: Seq<char>, da: Seq<char>)
    requires
        lines.len() > 0,
    ensures
        edited_lines(lines, en, da).len() > 0,
        ({
            let x = edited_lines(lines, en, da).last();
            x == lines.last() || x == en || x == da
        }),
{
    let acc = edit_fold(lines, en, da);
    assert(acc == edit_step(edit_fold(lines.drop_last(), en, da), lines.last(), en, da));
    assert(acc.out.len() > 0 && (acc.out.last() == lines.last() || acc.out.last() == en || acc.out.last()
        == da));
}

/// The lines written by the editor hold no `'\n'`, when the token holds none.
proof fn lemma_edited_lines_plain(existing: Seq<char>, enable: bool, token: Seq<char>)
    requires
        crate::text::no_nl(token),
    ensures
        ({
            let o = edited_lines(ini_lines(existing), enable_line(enable), data_line(token));
            forall|k: int| 0 <= k < o.len() ==> crate::text::no_nl(#[trigger] o[k])
        }),
{
    reveal_strlit("Enable=True");
    reveal_strlit("Enable=False");
    reveal_strlit("Data=");
    reveal_strlit("[RememberMe]");
    let lines = ini_lines(existing);
    let en = enable_line(enable);
    let da = data_line(token);
    let o = edited_lines(lines, en, da);
    crate::text::lemma_split_lines_no_nl(body_of(existing));
    assert forall|k: int| 0 <= k < o.len() implies crate::text::no_nl(#[trigger] o[k]) by {
        law_edit_writes_only(existing, enable, token, k);
        if kept_line(lines, o[k]) {
            let j = choose|j: int| 0 <= j < lines.len() && !rewritten(lines, j) && #[trigger] lines[j] == o[k];
            let raw = split_lines(body_of(existing))[j];
            assert(crate::text::no_nl(raw));
            assert(lines[j] == strip_cr(raw));
        }
    }
}

/// The pass over edited lines that end with an empty line, without that
/// line, gives them back without it.
proof fn lemma_edited_drop_empty(o: Seq<Seq<char>>, en: Seq<char>, da: Seq<char>)
    requires
        keys_written(en, da),
        en.len() > 0,
        da.len() > 0,
        o.len() >= 2,
        o.last().len() == 0,
        edited_lines(o, en, da) == o,
    ensures
        edited_lines(o.drop_last(), en, da) == o.drop_last(),
{
    let d = o.drop_last();
    let e = Seq::<char>::empty();
    assert(o.last() =~= e);
    assert(o =~= d.push(e));
    lemma_fold_push(d, e, en, da);
    reveal_strlit("Enable=");
    reveal_strlit("Data=");
    assert(trim(e) =~= e);
    assert(!is_header(e));
    assert(trim_start(e) =~= e);
    assert(!is_key(e, "Enable="@));
    assert(!is_key(e, "Data="@));
    let a = edit_fold(d, en, da);
    let b = edit_fold(o, en, da);
    assert(b.out == a.out.push(e));
    let f = flush(b, en, da);
    if !b.seen {
        assert(edited_lines(o, en, da).last() == da);
    } else {
        if b.in_section && (!b.have_enable || !b.have_data) {
            assert(f.last() == en || f.last() == da);
        }
        assert(f == b.out);
        assert(flush(a, en, da) == a.out);
        assert(a.out =~= d);
    }
}

/// Editing twice with the same arguments is editing once, for a token with
/// neither a line break nor a `'\r'`, unless the first edit brings in a
/// `\r\n` the text did not hold, or leaves the text ending in `'\r'`.
pub proof fn law_edit_idempotent(existing: Seq<char>, enable: bool, token: Seq<char>)
    requires
        crate::text::no_nl(token),
        forall|i: int| 0 <= i < token.len() ==> #[trigger] token[i] != '\r',
        has_crlf(spec_edit_remember_me(existing, enable, token)) ==> has_crlf(existing),
        !ends_cr(spec_edit_remember_me(existing, enable, token)),
    ensures
        spec_edit_remember_me(spec_edit_remember_me(existing, enable, token), enable, token)
            == spec_edit_remember_me(existing, enable, token),
{
    reveal_strlit("Enable=True");
    reveal_strlit("Enable=False");
    reveal_strlit("Data=");
    reveal_strlit("[RememberMe]");
    reveal_strlit("\r\n");
    reveal_strlit("\n");
    let en = enable_line(enable);
    let da = data_line(token);
    let hd = "[RememberMe]"@;
    let nl = newline_of(existing);
    let p: Seq<char> = if has_crlf(existing) {
        seq!['\r']
    } else {
        Seq::empty()
    };
    assert(nl =~= p.push('\n'));
    let out = spec_edit_remember_me(existing, enable, token);
    let lines = ini_lines(existing);
    let trailing = all_ws(existing) || (existing.len() > 0 && existing.last() == '\n');
    let o = if all_ws(existing) {
        edited_lines(Seq::empty(), en, da)
    } else {
        edited_lines(lines, en, da)
    };
    lemma_keys_written(enable, token);
    // the output is `o` joined by the newline, with a final one when `trailing`
    if all_ws(existing) {
        let e0 = edit_fold(Seq::<Seq<char>>::empty(), en, da);
        assert(flush(e0, en, da) =~= Seq::<Seq<char>>::empty());
        assert(o =~= seq![hd, en, da]);
        assert(seq![hd, en, da].drop_last() =~= seq![hd, en]);
        assert(seq![hd, en].drop_last() =~= seq![hd]);
        assert(join(seq![hd], nl) == hd);
        assert(seq![hd, en].last() == en);
        assert(join(seq![hd, en], nl) == hd + nl + en);
        assert(seq![hd, en, da].last() == da);
        assert(join(seq![hd, en, da], nl) == hd + nl + en + nl + da);
        assert(out =~= join(o, nl) + nl);
        assert forall|k: int| 0 <= k < o.len() implies crate::text::no_nl(#[trigger] o[k]) by {
            if k == 2 {
                assert(o[k] == da);
            }
        }
    } else {
        lemma_edited_lines_plain(existing, enable, token);
    }
    law_edit_sets_token(existing, enable, token);
    assert(o.contains(en)) by {
        if all_ws(existing) {
            assert(o[1] == en);
        }
    }
    let ke = choose|k: int| 0 <= k < o.len() && o[k] == en;
    // the premises of reading the output back as lines
    if p.len() == 0 {
        let o2 = if trailing {
            o.push(Seq::empty())
        } else {
            o
        };
        if trailing {
            crate::text::lemma_join_push_empty(o, nl);
        }
        assert(nl == "\n"@);
        assert(join(o2, nl) == out);
        assert(!has_crlf(out));
        assert forall|k: int| 0 <= k < o.len() && (k < o.len() - 1 || trailing) implies !ends_cr(#[trigger] o[k]) by {
            if ends_cr(o[k]) {
                assert(o2[k] == o[k]);
                lemma_crlf_at(o2, k);
            }
        }
    }
    if !trailing && o.last().len() > 0 {
        lemma_join_last(o, nl);
        assert(o.last() == o[o.len() - 1]);
    }
    if !trailing && o.last().len() == 0 {
        assert(en.len() > 0);
        assert(ke < o.len() - 1);
    }
    lemma_text_lines(o, p, trailing);
    // the output is not blank: it holds the `Enable=` line
    let body = join(o, nl);
    let off = lemma_join_holds(o, nl, ke);
    assert(out.subrange(0, body.len() as int) =~= body);
    assert(out[off] == body[off]);
    assert(body[off] == en[0]);
    assert(!all_ws(out));
    // the output keeps the newline
    if has_crlf(existing) {
        law_edit_keeps_crlf(existing, enable, token);
    }
    assert(newline_of(out) == nl);
    // and the edit of the output's lines is the output's lines
    if all_ws(existing) {
        law_edited_lines_idempotent(Seq::empty(), enable, token);
    } else {
        law_edited_lines_idempotent(lines, enable, token);
    }
    assert(edited_lines(o, en, da) == o);
    if !trailing && o.last().len() == 0 {
        lemma_edited_drop_empty(o, en, da);
        assert(ini_lines(out) == o.drop_last());
        assert(out == join(o.drop_last(), nl) + nl);
    } else {
        assert(ini_lines(out) == o);
    }
}

} // verus!
