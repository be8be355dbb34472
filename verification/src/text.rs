//! Character-level text helpers shared by the parsers and editors.
//!
//! Text is handled as sequences of `char`; the specifications mirror the
//! meaning of the `str` methods the parsers rely on (`trim`, `split`,
//! `eq_ignore_ascii_case`, ...).

use vstd::prelude::*;

verus! {

/// Appends one character to a `String` (`String::push`).
#[verifier::external_body]
pub(crate) fn push_char(s: &mut String, c: char)
    ensures
        final(s)@ == old(s)@.push(c),
{
    s.push(c);
}

/// Unicode `White_Space`, the property `char::is_whitespace` tests.
pub open spec fn is_ws(c: char) -> bool {
    let u = c as u32;
    ||| 0x09 <= u <= 0x0d
    ||| u == 0x20
    ||| u == 0x85
    ||| u == 0xa0
    ||| u == 0x1680
    ||| 0x2000 <= u <= 0x200a
    ||| u == 0x2028
    ||| u == 0x2029
    ||| u == 0x202f
    ||| u == 0x205f
    ||| u == 0x3000
}

/// `s` with its leading whitespace removed (`str::trim_start`).
pub open spec fn trim_start(s: Seq<char>) -> Seq<char>
    decreases s.len(),
{
    if s.len() > 0 && is_ws(s[0]) {
        trim_start(s.skip(1))
    } else {
        s
    }
}

/// `s` with its trailing whitespace removed (`str::trim_end`).
pub open spec fn trim_end(s: Seq<char>) -> Seq<char>
    decreases s.len(),
{
    if s.len() > 0 && is_ws(s.last()) {
        trim_end(s.drop_last())
    } else {
        s
    }
}

/// `str::trim`.
pub open spec fn trim(s: Seq<char>) -> Seq<char> {
    trim_end(trim_start(s))
}

/// Every character of `s` is whitespace (so `s.trim()` is empty).
pub open spec fn all_ws(s: Seq<char>) -> bool {
    forall|i: int| 0 <= i < s.len() ==> is_ws(#[trigger] s[i])
}

/// `char::to_ascii_lowercase`.
pub open spec fn lower(c: char) -> char {
    if 'A' <= c <= 'Z' {
        ((c as u32) + 32) as char
    } else {
        c
    }
}

/// `str::eq_ignore_ascii_case`.
pub open spec fn eq_ignore_case(a: Seq<char>, b: Seq<char>) -> bool {
    &&& a.len() == b.len()
    &&& forall|i: int| 0 <= i < a.len() ==> lower(#[trigger] a[i]) == lower(b[i])
}

/// `s` begins with `p`.
pub open spec fn starts_with(s: Seq<char>, p: Seq<char>) -> bool {
    p.len() <= s.len() && s.take(p.len() as int) == p
}

/// `s` ends with `p`.
pub open spec fn ends_with(s: Seq<char>, p: Seq<char>) -> bool {
    p.len() <= s.len() && s.skip(s.len() - p.len()) == p
}

/// `s` contains the two characters `\r\n` next to each other.
pub open spec fn has_crlf(s: Seq<char>) -> bool {
    exists|i: int| 0 <= i < s.len() - 1 && #[trigger] s[i] == '\r' && s[i + 1] == '\n'
}

/// Splitting `s` on `'\n'`, as a left fold: the lines already ended by a
/// `'\n'`, and the line still open.
pub open spec fn split_fold(s: Seq<char>) -> (Seq<Seq<char>>, Seq<char>)
    decreases s.len(),
{
    if s.len() == 0 {
        (Seq::empty(), Seq::empty())
    } else {
        let (done, cur) = split_fold(s.drop_last());
        if s.last() == '\n' {
            (done.push(cur), Seq::empty())
        } else {
            (done, cur.push(s.last()))
        }
    }
}

/// `s.split('\n')`: the pieces between the `'\n'` characters (always at least one).
pub open spec fn split_lines(s: Seq<char>) -> Seq<Seq<char>> {
    split_fold(s).0.push(split_fold(s).1)
}

/// `lines.join(sep)`.
pub open spec fn join(lines: Seq<Seq<char>>, sep: Seq<char>) -> Seq<char>
    decreases lines.len(),
{
    if lines.len() == 0 {
        Seq::empty()
    } else if lines.len() == 1 {
        lines[0]
    } else {
        join(lines.drop_last(), sep) + sep + lines.last()
    }
}

/// Number of bytes of `c` in UTF-8.
pub open spec fn utf8_len(c: char) -> nat {
    let u = c as u32;
    if u < 0x80 {
        1
    } else if u < 0x800 {
        2
    } else if u < 0x10000 {
        3
    } else {
        4
    }
}

/// Number of bytes of `s` in UTF-8 (`str::len`).
pub open spec fn byte_len(s: Seq<char>) -> nat
    decreases s.len(),
{
    if s.len() == 0 {
        0
    } else {
        byte_len(s.drop_last()) + utf8_len(s.last())
    }
}

/// The characters of a string slice, in order.
pub fn chars_of(s: &str) -> (v: Vec<char>)
    ensures
        v@ == s@,
{
    let mut v: Vec<char> = Vec::new();
    for c in it: s.chars()
        invariant
            v@ == it.seq().take(it.index() as int),
            it.seq() == s@,
    {
        v.push(c);
    }
    v
}

/// A `String` holding the characters `v`.
pub fn string_of(v: &Vec<char>) -> (s: String)
    ensures
        s@ == v@,
{
    let mut s = String::new();
    let mut i: usize = 0;
    while i < v.len()
        invariant
            i <= v.len(),
            s@ == v@.take(i as int),
        decreases v.len() - i,
    {
        push_char(&mut s, v[i]);
        assert(v@.take(i as int).push(v@[i as int]) == v@.take(i + 1));
        i = i + 1;
    }
    assert(v@.take(v@.len() as int) == v@);
    s
}

/// `char::is_whitespace`.
pub fn is_whitespace(c: char) -> (b: bool)
    ensures
        b == is_ws(c),
{
    let u = c as u32;
    (0x09 <= u && u <= 0x0d) || u == 0x20 || u == 0x85 || u == 0xa0 || u == 0x1680 || (0x2000
        <= u && u <= 0x200a) || u == 0x2028 || u == 0x2029 || u == 0x202f || u == 0x205f || u
        == 0x3000
}

/// `char::to_ascii_lowercase`.
pub fn to_lower(c: char) -> (r: char)
    ensures
        r == lower(c),
{
    if 'A' <= c && c <= 'Z' {
        let b: u8 = (c as u8) + 32;
        b as char
    } else {
        c
    }
}

proof fn lemma_trim_start_skip(s: Seq<char>, i: int)
    requires
        0 <= i <= s.len(),
        forall|j: int| 0 <= j < i ==> is_ws(#[trigger] s[j]),
    ensures
        trim_start(s) == trim_start(s.skip(i)),
    decreases i,
{
    if i == 0 {
        assert(s.skip(0) == s);
    } else {
        assert(is_ws(s[0]));
        assert(trim_start(s) == trim_start(s.skip(1)));
        assert(s.skip(1).skip(i - 1) == s.skip(i));
        assert forall|j: int| 0 <= j < i - 1 implies is_ws(#[trigger] s.skip(1)[j]) by {
            assert(s.skip(1)[j] == s[j + 1]);
        }
        lemma_trim_start_skip(s.skip(1), i - 1);
    }
}

proof fn lemma_trim_end_take(s: Seq<char>, i: int)
    requires
        0 <= i <= s.len(),
        forall|j: int| i <= j < s.len() ==> is_ws(#[trigger] s[j]),
    ensures
        trim_end(s) == trim_end(s.take(i)),
    decreases s.len() - i,
{
    if i < s.len() {
        assert(s.drop_last().take(i) == s.take(i));
        lemma_trim_end_take(s.drop_last(), i);
    } else {
        assert(s.take(i) == s);
    }
}

/// `s.trim_start()`.
pub fn trim_start_chars(s: &[char]) -> (r: Vec<char>)
    ensures
        r@ == trim_start(s@),
{
    let mut i: usize = 0;
    while i < s.len() && is_whitespace(s[i])
        invariant
            i <= s.len(),
            forall|j: int| 0 <= j < i ==> is_ws(#[trigger] s@[j]),
        decreases s.len() - i,
    {
        i = i + 1;
    }
    proof {
        lemma_trim_start_skip(s@, i as int);
    }
    let r = copy_range(s, i, s.len());
    assert(r@ == s@.skip(i as int));
    r
}

/// `s.trim_end()`.
pub fn trim_end_chars(s: &[char]) -> (r: Vec<char>)
    ensures
        r@ == trim_end(s@),
{
    let mut i: usize = s.len();
    while i > 0 && is_whitespace(s[i - 1])
        invariant
            i <= s.len(),
            forall|j: int| i <= j < s.len() ==> is_ws(#[trigger] s@[j]),
        decreases i,
    {
        i = i - 1;
    }
    proof {
        lemma_trim_end_take(s@, i as int);
    }
    let r = copy_range(s, 0, i);
    assert(r@ == s@.take(i as int));
    r
}

/// `s.trim()`.
pub fn trim_chars(s: &[char]) -> (r: Vec<char>)
    ensures
        r@ == trim(s@),
{
    let a = trim_start_chars(s);
    trim_end_chars(a.as_slice())
}

/// The characters `s[lo..hi]`.
pub fn copy_range(s: &[char], lo: usize, hi: usize) -> (r: Vec<char>)
    requires
        lo <= hi <= s.len(),
    ensures
        r@ == s@.subrange(lo as int, hi as int),
{
    let mut r: Vec<char> = Vec::new();
    let mut i = lo;
    while i < hi
        invariant
            lo <= i <= hi <= s.len(),
            r@ == s@.subrange(lo as int, i as int),
        decreases hi - i,
    {
        r.push(s[i]);
        assert(s@.subrange(lo as int, i as int).push(s@[i as int]) == s@.subrange(
            lo as int,
            i + 1,
        ));
        i = i + 1;
    }
    r
}

/// Whether every character of `s` is whitespace.
pub fn is_blank(s: &[char]) -> (b: bool)
    ensures
        b == all_ws(s@),
{
    let mut i: usize = 0;
    while i < s.len()
        invariant
            i <= s.len(),
            forall|j: int| 0 <= j < i ==> is_ws(#[trigger] s@[j]),
        decreases s.len() - i,
    {
        if !is_whitespace(s[i]) {
            return false;
        }
        i = i + 1;
    }
    true
}

/// `a.eq_ignore_ascii_case(b)`.
pub fn eq_ignore_ascii_case(a: &[char], b: &[char]) -> (r: bool)
    ensures
        r == eq_ignore_case(a@, b@),
{
    if a.len() != b.len() {
        return false;
    }
    let mut i: usize = 0;
    while i < a.len()
        invariant
            i <= a.len(),
            a.len() == b.len(),
            forall|j: int| 0 <= j < i ==> lower(#[trigger] a@[j]) == lower(b@[j]),
        decreases a.len() - i,
    {
        if to_lower(a[i]) != to_lower(b[i]) {
            return false;
        }
        i = i + 1;
    }
    true
}

/// Whether `s` begins with `p`.
pub fn starts_with_chars(s: &[char], p: &[char]) -> (r: bool)
    ensures
        r == starts_with(s@, p@),
{
    if p.len() > s.len() {
        return false;
    }
    let mut i: usize = 0;
    while i < p.len()
        invariant
            i <= p.len() <= s.len(),
            forall|j: int| 0 <= j < i ==> s@[j] == p@[j],
        decreases p.len() - i,
    {
        if s[i] != p[i] {
            assert(s@.take(p.len() as int)[i as int] != p@[i as int]);
            return false;
        }
        i = i + 1;
    }
    assert(s@.take(p.len() as int) =~= p@);
    true
}

/// Whether `s` ends with `p`.
pub fn ends_with_chars(s: &[char], p: &[char]) -> (r: bool)
    ensures
        r == ends_with(s@, p@),
{
    if p.len() > s.len() {
        return false;
    }
    let off = s.len() - p.len();
    let mut i: usize = 0;
    while i < p.len()
        invariant
            i <= p.len() <= s.len(),
            off == s.len() - p.len(),
            forall|j: int| 0 <= j < i ==> s@[off + j] == p@[j],
        decreases p.len() - i,
    {
        if s[off + i] != p[i] {
            assert(s@.skip(off as int)[i as int] != p@[i as int]);
            return false;
        }
        i = i + 1;
    }
    assert(s@.skip(off as int) =~= p@);
    true
}

/// Whether `s` contains `\r\n`.
pub fn contains_crlf(s: &[char]) -> (r: bool)
    ensures
        r == has_crlf(s@),
{
    let mut i: usize = 0;
    while i < s.len() && i + 1 < s.len()
        invariant
            i <= s.len(),
            forall|j: int| 0 <= j < i && j < s.len() - 1 ==> !(#[trigger] s@[j] == '\r' && s@[j
                + 1] == '\n'),
        decreases s.len() - i,
    {
        if s[i] == '\r' && s[i + 1] == '\n' {
            return true;
        }
        i = i + 1;
    }
    false
}

/// `s.split('\n')`, one character vector per piece.
pub fn split_lines_chars(s: &[char]) -> (r: Vec<Vec<char>>)
    ensures
        r.deep_view() == split_lines(s@),
{
    let mut done: Vec<Vec<char>> = Vec::new();
    let mut cur: Vec<char> = Vec::new();
    let mut i: usize = 0;
    while i < s.len()
        invariant
            i <= s.len(),
            (done.deep_view(), cur@) == split_fold(s@.take(i as int)),
        decreases s.len() - i,
    {
        assert(s@.take(i + 1).drop_last() == s@.take(i as int));
        if s[i] == '\n' {
            let ghost before = done.deep_view();
            let ghost lv = cur@;
            let line = cur;
            cur = Vec::new();
            done.push(line);
            proof {
                lemma_deep_push(before, done, lv);
            }
        } else {
            cur.push(s[i]);
        }
        i = i + 1;
    }
    assert(s@.take(s@.len() as int) == s@);
    let ghost before = done.deep_view();
    let ghost last = cur@;
    done.push(cur);
    proof {
        lemma_deep_push(before, done, last);
    }
    done
}

/// The nested view of `v` after a push of a vector whose characters are `last`.
pub proof fn lemma_deep_push(before: Seq<Seq<char>>, v: Vec<Vec<char>>, last: Seq<char>)
    requires
        v@.len() == before.len() + 1,
        forall|i: int| 0 <= i < before.len() ==> #[trigger] v@[i].deep_view() == before[i],
        v@[before.len() as int]@ == last,
    ensures
        v.deep_view() == before.push(last),
{
    assert forall|i: int| 0 <= i < v@.len() implies #[trigger] v.deep_view()[i] == before.push(last)[i] by {
        if i < before.len() {
        } else {
            assert(v@[i].deep_view() =~= v@[i]@);
        }
    }
    assert(v.deep_view() =~= before.push(last));
}

/// `lines.join(sep)` as characters.
pub fn join_chars(lines: &Vec<Vec<char>>, sep: &[char]) -> (r: Vec<char>)
    ensures
        r@ == join(lines.deep_view(), sep@),
{
    let mut r: Vec<char> = Vec::new();
    let mut i: usize = 0;
    while i < lines.len()
        invariant
            i <= lines.len(),
            r@ == join(lines.deep_view().take(i as int), sep@),
        decreases lines.len() - i,
    {
        let ghost prev = lines.deep_view().take(i as int);
        assert(lines.deep_view().take(i + 1).drop_last() == prev);
        if i > 0 {
            append_chars(&mut r, sep);
        } else {
            assert(prev.len() == 0);
        }
        append_chars(&mut r, lines[i].as_slice());
        assert(lines.deep_view()[i as int] == lines[i as int]@);
        i = i + 1;
    }
    assert(lines.deep_view().take(lines.len() as int) == lines.deep_view());
    r
}

/// Appends `s` to `v`.
pub fn append_chars(v: &mut Vec<char>, s: &[char])
    ensures
        final(v)@ == old(v)@ + s@,
{
    let mut i: usize = 0;
    while i < s.len()
        invariant
            i <= s.len(),
            v@ == old(v)@ + s@.take(i as int),
        decreases s.len() - i,
    {
        v.push(s[i]);
        assert(s@.take(i as int).push(s@[i as int]) == s@.take(i + 1));
        i = i + 1;
    }
    assert(s@.take(s@.len() as int) == s@);
}

/// Whether two strings are equal.
pub fn str_eq(a: &str, b: &str) -> (r: bool)
    ensures
        r == (a@ == b@),
{
    String::from_str(a) == String::from_str(b)
}

// ---- lines and joins ----------------------------------------------------------

/// `s` holds no `'\n'`.
pub open spec fn no_nl(s: Seq<char>) -> bool {
    forall|i: int| 0 <= i < s.len() ==> #[trigger] s[i] != '\n'
}

/// Splitting `s + t` on `'\n'` when `t` holds none: `t` extends the open line.
pub proof fn lemma_split_fold_plain(s: Seq<char>, t: Seq<char>)
    requires
        no_nl(t),
    ensures
        split_fold(s + t) == (split_fold(s).0, split_fold(s).1 + t),
    decreases t.len(),
{
    if t.len() == 0 {
        assert(s + t =~= s);
        assert(split_fold(s).1 + t =~= split_fold(s).1);
    } else {
        lemma_split_fold_plain(s, t.drop_last());
        assert((s + t).drop_last() =~= s + t.drop_last());
        assert((s + t).last() == t.last());
        assert(t.last() == t[t.len() - 1]);
        assert((split_fold(s).1 + t.drop_last()).push(t.last()) =~= split_fold(s).1 + t);
    }
}

/// The pieces of splitting `s` on `'\n'` hold no `'\n'`.
pub proof fn lemma_split_lines_no_nl(s: Seq<char>)
    ensures
        forall|k: int| 0 <= k < split_lines(s).len() ==> no_nl(#[trigger] split_lines(s)[k]),
    decreases s.len(),
{
    if s.len() > 0 {
        lemma_split_lines_no_nl(s.drop_last());
        let (d, c) = split_fold(s.drop_last());
        assert(split_lines(s.drop_last()) == d.push(c));
        assert forall|k: int| 0 <= k < d.len() implies no_nl(#[trigger] d[k]) by {
            assert(d.push(c)[k] == d[k]);
        }
        assert(no_nl(c)) by {
            assert(d.push(c)[d.len() as int] == c);
        }
        if s.last() != '\n' {
            assert(no_nl(c.push(s.last())));
        }
    }
}

/// The lines of `o` joined by `p` and a `'\n'`, read back: each line but the
/// last carries `p`.
pub open spec fn split_join_expect(o: Seq<Seq<char>>, p: Seq<char>) -> Seq<Seq<char>> {
    Seq::new(o.len(), |k: int| if k < o.len() - 1 { o[k] + p } else { o[k] })
}

/// Splitting joined lines on `'\n'` gives the lines back (each but the last
/// followed by what precedes the `'\n'` in the separator).
pub proof fn lemma_split_join(o: Seq<Seq<char>>, p: Seq<char>)
    requires
        o.len() > 0,
        no_nl(p),
        forall|k: int| 0 <= k < o.len() ==> no_nl(#[trigger] o[k]),
    ensures
        split_lines(join(o, p.push('\n'))) == split_join_expect(o, p),
    decreases o.len(),
{
    let sep = p.push('\n');
    if o.len() == 1 {
        lemma_split_fold_plain(Seq::empty(), o[0]);
        assert(Seq::<char>::empty() + o[0] =~= o[0]);
        assert(split_fold(Seq::<char>::empty()) == (Seq::<Seq<char>>::empty(), Seq::<char>::empty()));
        assert(Seq::<char>::empty() + o[0] =~= o[0]);
        assert(split_lines(join(o, sep)) =~= split_join_expect(o, p));
    } else {
        let o1 = o.drop_last();
        assert forall|k: int| 0 <= k < o1.len() implies no_nl(#[trigger] o1[k]) by {
            assert(o1[k] == o[k]);
        }
        lemma_split_join(o1, p);
        let j = join(o1, sep);
        let e1 = split_join_expect(o1, p);
        let (d, c) = split_fold(j);
        assert(d.push(c) == e1);
        assert(d =~= e1.drop_last());
        assert(c == e1.last());
        lemma_split_fold_plain(j, p);
        assert(split_fold(j + p) == (d, c + p));
        assert((j + p).push('\n') =~= j + sep);
        assert((j + p).push('\n').drop_last() =~= j + p);
        assert(split_fold(j + sep) == (d.push(c + p), Seq::<char>::empty()));
        lemma_split_fold_plain(j + sep, o.last());
        assert(Seq::<char>::empty() + o.last() =~= o.last());
        assert(o.last() == o[o.len() - 1]);
        assert(join(o, sep) == j + sep + o.last());
        let r = d.push(c + p).push(o.last());
        assert(split_lines(join(o, sep)) == r);
        let ex = split_join_expect(o, p);
        assert(c == e1[o1.len() - 1]);
        assert(e1[o1.len() - 1] == o1[o1.len() - 1]);
        assert forall|k: int| 0 <= k < o.len() implies #[trigger] r[k] == ex[k] by {
            if k < o.len() - 2 {
                assert(r[k] == d[k]);
                assert(d[k] == e1[k]);
                assert(e1[k] == o1[k] + p);
                assert(o1[k] == o[k]);
            } else if k == o.len() - 2 {
                assert(r[k] == c + p);
                assert(o1[k] == o[k]);
            } else {
                assert(r[k] == o.last());
            }
        }
        assert(r =~= ex);
    }
}

/// Joining with one more (empty) line appends a separator.
pub proof fn lemma_join_push_empty(o: Seq<Seq<char>>, sep: Seq<char>)
    requires
        o.len() > 0,
    ensures
        join(o.push(Seq::empty()), sep) == join(o, sep) + sep,
{
    assert(o.push(Seq::empty()).drop_last() =~= o);
    assert(join(o, sep) + sep + Seq::<char>::empty() =~= join(o, sep) + sep);
}

/// Appending a whitespace character does not change the trimmed string.
pub proof fn lemma_trim_push_ws(l: Seq<char>, c: char)
    requires
        is_ws(c),
    ensures
        trim(l.push(c)) == trim(l),
{
    lemma_trim_start_push_ws(l, c);
    if all_ws(l) {
        lemma_trim_start_all_ws(l);
        assert(trim_start(seq![c]) == trim_start(seq![c].skip(1)));
        assert(seq![c].skip(1) =~= Seq::<char>::empty());
    } else {
        assert(trim_start(l).push(c).drop_last() =~= trim_start(l));
    }
}

proof fn lemma_trim_start_all_ws(l: Seq<char>)
    requires
        all_ws(l),
    ensures
        trim_start(l) == Seq::<char>::empty(),
    decreases l.len(),
{
    if l.len() > 0 {
        assert(is_ws(l[0]));
        assert forall|i: int| 0 <= i < l.skip(1).len() implies is_ws(#[trigger] l.skip(1)[i]) by {
            assert(l.skip(1)[i] == l[i + 1]);
        }
        lemma_trim_start_all_ws(l.skip(1));
    }
}

proof fn lemma_trim_start_push_ws(l: Seq<char>, c: char)
    requires
        is_ws(c),
    ensures
        trim_start(l.push(c)) == if all_ws(l) {
            trim_start(seq![c])
        } else {
            trim_start(l).push(c)
        },
    decreases l.len(),
{
    if l.len() == 0 {
        assert(l.push(c) =~= seq![c]);
    } else if is_ws(l[0]) {
        assert(l.push(c)[0] == l[0]);
        assert(l.push(c).skip(1) =~= l.skip(1).push(c));
        lemma_trim_start_push_ws(l.skip(1), c);
        if all_ws(l.skip(1)) {
            assert forall|i: int| 0 <= i < l.len() implies is_ws(#[trigger] l[i]) by {
                if i > 0 {
                    assert(l[i] == l.skip(1)[i - 1]);
                }
            }
        } else {
            let i = choose|i: int| 0 <= i < l.skip(1).len() && !is_ws(#[trigger] l.skip(1)[i]);
            assert(l[i + 1] == l.skip(1)[i]);
        }
    } else {
        assert(l.push(c)[0] == l[0]);
        assert(!all_ws(l));
    }
}

/// A string that neither starts nor ends with whitespace is its own trim.
pub proof fn lemma_trim_fixed(s: Seq<char>)
    requires
        s.len() > 0,
        !is_ws(s[0]),
        !is_ws(s.last()),
    ensures
        trim(s) == s,
{
}

} // verus!
