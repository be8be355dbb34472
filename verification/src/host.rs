//! Operating-system abstraction: the [`Host`] trait, `%VAR%` expansion, and
//! [`StubHost`], an in-memory host used off-Windows and as the controllable
//! double in tests.

use crate::text::{chars_of, string_of};
use vstd::prelude::*;

verus! {

/// Why a host operation failed.
pub struct HostError {
    pub message: String,
}

/// What a registry read answers: the data (`None` when the value is
/// missing), or the failure's message.
pub open spec fn answer_of(r: Result<Option<String>, HostError>) -> Result<Option<Seq<char>>, Seq<char>> {
    match r {
        Ok(o) => Ok(crate::model::opt_view(o)),
        Err(e) => Err(e.message@),
    }
}

/// The operating-system operations the engine needs.
pub trait Host {
    /// `out` is an expansion of `input` on this host. On a real machine it
    /// depends on the process environment, so it is a relation, not a result;
    /// a host that states nothing of it admits any expansion.
    open spec fn expands(&self, input: Seq<char>, out: Seq<char>) -> bool {
        true
    }

    /// `answer` is an answer of this host to a read of registry value `value`
    /// under `key` (see [`answer_of`]); a host that states nothing of its
    /// registry admits any answer.
    open spec fn reads(&self, key: Seq<char>, value: Seq<char>, answer: Result<Option<Seq<char>>, Seq<char>>) -> bool {
        true
    }

    /// Expand `%VAR%` placeholders (e.g. `%AppData%`) into a concrete path.
    fn expand_vars(&self, input: &str) -> (r: String)
        ensures
            self.expands(input@, r@),
    ;

    /// Read a registry value as a string, `None` when missing. `key` is like
    /// `HKCU\Software\Foo`.
    fn read_registry(&self, key: &str, value: &str) -> (r: Result<Option<String>, HostError>)
        ensures
            self.reads(key@, value@, answer_of(r)),
    ;

    /// Write a string registry value, creating the key if needed.
    fn write_registry(&mut self, key: &str, value: &str, data: &str) -> Result<(), HostError>;

    /// Delete a registry value (no error if already absent).
    fn delete_registry_value(&mut self, key: &str, value: &str) -> Result<(), HostError>;

    /// End every running process whose image name matches one of `exe_names`.
    fn kill_processes(&mut self, exe_names: &[String]) -> Result<(), HostError>;

    /// Whether a process matching `exe_names` is running.
    fn are_running(&self, exe_names: &[String]) -> bool;

    /// Launch an executable, optionally elevated, with an argument string.
    fn launch(&mut self, exe: &str, args: &str, elevated: bool) -> Result<(), HostError>;
}

// ---- %VAR% expansion ------------------------------------------------------

/// The value of variable `name` in `table` (first match from `i`).
pub open spec fn lookup_var(table: Seq<(Seq<char>, Seq<char>)>, name: Seq<char>, i: int) -> Option<
    Seq<char>,
>
    decreases table.len() - i,
{
    if i < 0 || i >= table.len() {
        None
    } else if table[i].0 == name {
        Some(table[i].1)
    } else {
        lookup_var(table, name, i + 1)
    }
}

/// Index of the first `'%'` of `s` at or after `i`.
pub open spec fn find_percent(s: Seq<char>, i: int) -> Option<int>
    decreases s.len() - i,
{
    if i < 0 || i >= s.len() {
        None
    } else if s[i] == '%' {
        Some(i)
    } else {
        find_percent(s, i + 1)
    }
}

/// `find_percent` finds the first `%` at or after `i`.
pub proof fn lemma_find_percent(s: Seq<char>, i: int)
    requires
        0 <= i <= s.len(),
    ensures
        find_percent(s, i) matches Some(j) ==> i <= j < s.len() && s[j] == '%' && forall|k: int|
            i <= k < j ==> #[trigger] s[k] != '%',
        find_percent(s, i) is None ==> forall|k: int| i <= k < s.len() ==> #[trigger] s[k] != '%',
    decreases s.len() - i,
{
    if i < s.len() && s[i] != '%' {
        lemma_find_percent(s, i + 1);
    }
}

/// `s` with each `%NAME%` replaced by its value in `table`; unknown names and
/// an unterminated `%NAME` stay as written.
pub open spec fn spec_expand(s: Seq<char>, table: Seq<(Seq<char>, Seq<char>)>) -> Seq<char>
    decreases s.len(),
{
    if s.len() == 0 {
        Seq::empty()
    } else if s[0] != '%' {
        seq![s[0]] + spec_expand(s.skip(1), table)
    } else {
        let rest = s.skip(1);
        match find_percent(rest, 0) {
            None => seq!['%'] + rest,
            Some(j) => {
                proof {
                    lemma_find_percent(rest, 0);
                }
                let name = rest.take(j);
                let head = match lookup_var(table, name, 0) {
                    Some(v) => v,
                    None => seq!['%'] + name + seq!['%'],
                };
                head + spec_expand(rest.skip(j + 1), table)
            },
        }
    }
}

/// The values of a variable table.
pub open spec fn table_view(t: Seq<(String, String)>) -> Seq<(Seq<char>, Seq<char>)> {
    t.map_values(|p: (String, String)| (p.0@, p.1@))
}

fn lookup_var_exec(table: &Vec<(String, String)>, name: &Vec<char>) -> (r: Option<String>)
    ensures
        r matches Some(v) ==> lookup_var(table_view(table@), name@, 0) == Some(v@),
        r is None ==> lookup_var(table_view(table@), name@, 0) is None,
{
    let key = string_of(name);
    let mut i: usize = 0;
    while i < table.len()
        invariant
            i <= table.len(),
            key@ == name@,
            lookup_var(table_view(table@), name@, 0) == lookup_var(
                table_view(table@),
                name@,
                i as int,
            ),
        decreases table.len() - i,
    {
        assert(table_view(table@)[i as int] == (table@[i as int].0@, table@[i as int].1@));
        if table[i].0 == key {
            return Some(table[i].1.clone());
        }
        i = i + 1;
    }
    None
}

/// Expands `%NAME%` placeholders with the values in `table` (first match);
/// unknown or unterminated placeholders are kept literally.
pub fn expand_placeholders(input: &str, table: &Vec<(String, String)>) -> (r: String)
    ensures
        r@ == spec_expand(input@, table_view(table@)),
{
    let s = chars_of(input);
    let ghost t = table_view(table@);
    let mut out: Vec<char> = Vec::new();
    let mut i: usize = 0;
    assert(s@.skip(0) == s@);
    while i < s.len()
        invariant
            i <= s.len(),
            s@ == input@,
            t == table_view(table@),
            out@ + spec_expand(s@.skip(i as int), t) == spec_expand(s@, t),
        decreases s.len() - i,
    {
        let ghost cur = s@.skip(i as int);
        if s[i] != '%' {
            assert(cur[0] == s@[i as int]);
            assert(cur.skip(1) == s@.skip(i + 1));
            out.push(s[i]);
            assert(out@ + spec_expand(s@.skip(i + 1), t) =~= out@.drop_last() + (seq![s@[i as int]]
                + spec_expand(cur.skip(1), t)));
            i = i + 1;
        } else {
            let ghost rest = cur.skip(1);
            proof {
                lemma_find_percent(rest, 0);
            }
            let mut j: usize = i + 1;
            while j < s.len() && s[j] != '%'
                invariant
                    i + 1 <= j <= s.len(),
                    s@ == input@,
                    rest == s@.skip(i + 1),
                    forall|k: int| i + 1 <= k < j ==> #[trigger] s@[k] != '%',
                decreases s.len() - j,
            {
                j = j + 1;
            }
            let mut name: Vec<char> = Vec::new();
            let mut k: usize = i + 1;
            while k < j
                invariant
                    i + 1 <= k <= j <= s.len(),
                    name@ == s@.subrange(i + 1, k as int),
                decreases j - k,
            {
                name.push(s[k]);
                assert(s@.subrange(i + 1, k as int).push(s@[k as int]) == s@.subrange(
                    i + 1,
                    k + 1,
                ));
                k = k + 1;
            }
            if j >= s.len() {
                // unterminated: `%` and the rest, as written
                assert forall|m: int| 0 <= m < rest.len() implies #[trigger] rest[m] != '%' by {
                    assert(rest[m] == s@[i + 1 + m]);
                }
                proof {
                    if let Some(x) = find_percent(rest, 0) {
                        assert(rest[x] == '%');
                    }
                }
                assert(name@ =~= rest);
                let ghost before = out@;
                out.push('%');
                let mut m: usize = 0;
                while m < name.len()
                    invariant
                        m <= name.len(),
                        out@ == before + seq!['%'] + name@.take(m as int),
                    decreases name.len() - m,
                {
                    out.push(name[m]);
                    assert(name@.take(m as int).push(name@[m as int]) == name@.take(m + 1));
                    m = m + 1;
                }
                assert(name@.take(name@.len() as int) == name@);
                assert(s@.skip(s@.len() as int).len() == 0);
                assert(out@ + spec_expand(s@.skip(s@.len() as int), t) =~= before + spec_expand(cur, t));
                i = s.len();
            } else {
                let ghost jj = (j - i - 1) as int;
                assert(rest[jj] == '%');
                assert forall|m: int| 0 <= m < jj implies #[trigger] rest[m] != '%' by {
                    assert(rest[m] == s@[i + 1 + m]);
                }
                proof {
                    if let Some(x) = find_percent(rest, 0) {
                        if x < jj {
                            assert(rest[x] != '%');
                        } else if x > jj {
                            assert(rest[jj] != '%');
                        }
                    }
                }
                assert(name@ == rest.take(jj));
                assert(rest.skip(jj + 1) == s@.skip(j + 1));
                let ghost before = out@;
                match lookup_var_exec(table, &name) {
                    Some(v) => {
                        let vc = chars_of(v.as_str());
                        let mut m: usize = 0;
                        while m < vc.len()
                            invariant
                                m <= vc.len(),
                                out@ == before + vc@.take(m as int),
                            decreases vc.len() - m,
                        {
                            out.push(vc[m]);
                            assert(vc@.take(m as int).push(vc@[m as int]) == vc@.take(m + 1));
                            m = m + 1;
                        }
                        assert(vc@.take(vc@.len() as int) == vc@);
                    },
                    None => {
                        out.push('%');
                        assert(out@ == before + seq!['%'] + name@.take(0));
                        let mut m: usize = 0;
                        while m < name.len()
                            invariant
                                m <= name.len(),
                                out@ == before + seq!['%'] + name@.take(m as int),
                            decreases name.len() - m,
                        {
                            out.push(name[m]);
                            assert(name@.take(m as int).push(name@[m as int]) == name@.take(
                                m + 1,
                            ));
                            m = m + 1;
                        }
                        assert(name@.take(name@.len() as int) == name@);
                        out.push('%');
                    },
                }
                assert(out@ + spec_expand(s@.skip(j + 1), t) =~= before + spec_expand(cur, t));
                i = j + 1;
            }
        }
    }
    assert(s@.skip(s@.len() as int).len() == 0);
    assert(out@ =~= spec_expand(s@, t));
    string_of(&out)
}

/// With no variables known, expansion leaves the text as written.
pub proof fn law_expand_without_vars(s: Seq<char>)
    ensures
        spec_expand(s, Seq::empty()) == s,
    decreases s.len(),
{
    if s.len() > 0 {
        if s[0] != '%' {
            law_expand_without_vars(s.skip(1));
            assert(seq![s[0]] + s.skip(1) =~= s);
        } else {
            let rest = s.skip(1);
            lemma_find_percent(rest, 0);
            match find_percent(rest, 0) {
                None => {
                    assert(seq!['%'] + rest =~= s);
                },
                Some(j) => {
                    law_expand_without_vars(rest.skip(j + 1));
                    assert(seq!['%'] + rest.take(j) + seq!['%'] + rest.skip(j + 1) =~= s);
                },
            }
        }
    }
}

// ---- association lists ----------------------------------------------------

/// The value of the first pair of `s` (from `i` on) whose key is `k`.
pub open spec fn assoc_get<K, V>(s: Seq<(K, V)>, k: K, i: int) -> Option<V>
    decreases s.len() - i,
{
    if i < 0 || i >= s.len() {
        None
    } else if s[i].0 == k {
        Some(s[i].1)
    } else {
        assoc_get(s, k, i + 1)
    }
}

proof fn lemma_assoc_shift<K, V>(s: Seq<(K, V)>, t: Seq<(K, V)>, k: K, i: int)
    requires
        0 <= i <= t.len(),
    ensures
        assoc_get(s + t, k, s.len() + i) == assoc_get(t, k, i),
    decreases t.len() - i,
{
    if i < t.len() {
        assert((s + t)[s.len() + i] == t[i]);
        lemma_assoc_shift(s, t, k, i + 1);
    }
}

/// Looking up in a concatenation finds the first list's pair first.
pub proof fn lemma_assoc_append<K, V>(s: Seq<(K, V)>, t: Seq<(K, V)>, k: K, i: int)
    requires
        0 <= i <= s.len(),
    ensures
        assoc_get(s + t, k, i) == match assoc_get(s, k, i) {
            Some(v) => Some(v),
            None => assoc_get(t, k, 0),
        },
    decreases s.len() - i,
{
    if i < s.len() {
        assert((s + t)[i] == s[i]);
        lemma_assoc_append(s, t, k, i + 1);
    } else {
        lemma_assoc_shift(s, t, k, 0);
    }
}

// ---- the in-memory host -----------------------------------------------------

/// An in-memory [`Host`]: `%VAR%` values, registry values, the set of running
/// processes and the launches are all held in memory, and registry reads and
/// writes can be made to fail on demand.
///
/// `running == None` means processes are not modelled: killing does nothing
/// and nothing counts as running (a caller that needs the real OS consults it
/// instead).
pub struct StubHost {
    vars: Vec<(String, String)>,
    registry: Vec<((String, String), String)>,
    running: Option<Vec<String>>,
    launched: Vec<(String, String)>,
    fail_read_value: Option<String>,
    fail_write_data: Option<String>,
}

/// The values of registry entries.
pub open spec fn reg_view(v: Seq<((String, String), String)>) -> Seq<((Seq<char>, Seq<char>), Seq<char>)> {
    v.map_values(|e: ((String, String), String)| ((e.0.0@, e.0.1@), e.1@))
}

/// The values of a list of strings.
pub open spec fn strings_view(v: Seq<String>) -> Seq<Seq<char>> {
    v.map_values(|s: String| s@)
}

/// ASCII lower-casing of a whole string.
pub open spec fn ascii_lower(s: Seq<char>) -> Seq<char> {
    s.map_values(|c: char| crate::text::lower(c))
}

/// No key has two entries.
pub open spec fn keys_unique<K, V>(es: Seq<(K, V)>) -> bool {
    forall|i: int, j: int| #![trigger es[i], es[j]] 0 <= i < j < es.len() ==> es[i].0 != es[j].0
}

impl StubHost {
    /// Each variable name and each registry value (key, value name) has one
    /// entry: the host's tables are maps. Every operation keeps this.
    pub closed spec fn tables_unique(&self) -> bool {
        keys_unique(self.var_table()) && keys_unique(reg_view(self.registry@))
    }

    /// The `%VAR%` table.
    pub closed spec fn var_table(&self) -> Seq<(Seq<char>, Seq<char>)> {
        table_view(self.vars@)
    }

    /// The stored data of registry value `value` under `key` (key as stored).
    pub closed spec fn registry_value(&self, key: Seq<char>, value: Seq<char>) -> Option<Seq<char>> {
        assoc_get(reg_view(self.registry@), (key, value), 0)
    }

    /// The modelled running processes, if processes are modelled.
    pub closed spec fn running_set(&self) -> Option<Seq<Seq<char>>> {
        match self.running {
            Some(v) => Some(strings_view(v@)),
            None => None,
        }
    }

    /// The launches so far, as (exe, args).
    pub closed spec fn launches(&self) -> Seq<(Seq<char>, Seq<char>)> {
        table_view(self.launched@)
    }

    /// The value name whose registry reads fail.
    pub closed spec fn failing_read(&self) -> Option<Seq<char>> {
        crate::model::opt_view(self.fail_read_value)
    }

    /// The data whose registry writes fail.
    pub closed spec fn failing_write(&self) -> Option<Seq<char>> {
        crate::model::opt_view(self.fail_write_data)
    }

    /// An empty host: no variables, no registry values, processes not
    /// modelled, nothing failing.
    pub fn new() -> (h: StubHost)
        ensures
            h.var_table().len() == 0,
            forall|k: Seq<char>, v: Seq<char>| #[trigger] h.registry_value(k, v) is None,
            h.running_set() is None,
            h.launches().len() == 0,
            h.failing_read() is None,
            h.failing_write() is None,
            h.tables_unique(),
    {
        StubHost {
            vars: Vec::new(),
            registry: Vec::new(),
            running: None,
            launched: Vec::new(),
            fail_read_value: None,
            fail_write_data: None,
        }
    }

    /// Adds a `%VAR%` value (builder style); a later value for the same name
    /// replaces the earlier one.
    pub fn with_var(self, name: &str, value: &str) -> (h: StubHost)
        ensures
            assoc_get(h.var_table(), name@, 0) == Some(value@),
            forall|other: Seq<char>|
                other != name@ ==> #[trigger] assoc_get(h.var_table(), other, 0) == assoc_get(
                    self.var_table(),
                    other,
                    0,
                ),
            forall|k: Seq<char>, v: Seq<char>| #[trigger] h.registry_value(k, v) == self.registry_value(k, v),
            h.running_set() == self.running_set(),
            h.launches() == self.launches(),
            h.failing_read() == self.failing_read(),
            h.failing_write() == self.failing_write(),
            self.tables_unique() ==> h.tables_unique(),
    {
        let mut h = self;
        let ghost before = table_view(h.vars@);
        let mut kept: Vec<(String, String)> = Vec::new();
        let mut i: usize = 0;
        let key = String::from_str(name);
        while i < h.vars.len()
            invariant
                i <= h.vars.len(),
                before == table_view(h.vars@),
                key@ == name@,
                assoc_get(table_view(kept@), name@, 0) is None,
                forall|other: Seq<char>|
                    other != name@ ==> #[trigger] assoc_get(table_view(kept@), other, 0)
                        == assoc_get(before.take(i as int), other, 0),
                forall|a: int| 0 <= a < kept@.len() ==> #[trigger] table_view(kept@)[a].0 != name@,
                keys_unique(before) ==> keys_unique(table_view(kept@)),
                keys_unique(before) ==> forall|a: int, m: int|
                    #![trigger table_view(kept@)[a], before[m]]
                    0 <= a < kept@.len() && i <= m < before.len() ==> table_view(kept@)[a].0 != before[m].0,
            decreases h.vars.len() - i,
        {
            let ghost kv = table_view(kept@);
            assert(before.take(i + 1) == before.take(i as int) + seq![before[i as int]]);
            assert(before[i as int] == (h.vars@[i as int].0@, h.vars@[i as int].1@));
            if h.vars[i].0 != key {
                let e = (h.vars[i].0.clone(), h.vars[i].1.clone());
                kept.push(e);
                assert(table_view(kept@) =~= kv + seq![before[i as int]]);
                proof {
                    lemma_assoc_append(kv, seq![before[i as int]], name@, 0);
                    assert(before[i as int].0 != name@);
                    assert(assoc_get(seq![before[i as int]], name@, 1) is None);
                    assert forall|other: Seq<char>| other != name@ implies #[trigger] assoc_get(
                        table_view(kept@),
                        other,
                        0,
                    ) == assoc_get(before.take(i + 1), other, 0) by {
                        lemma_assoc_append(kv, seq![before[i as int]], other, 0);
                        lemma_assoc_append(before.take(i as int), seq![before[i as int]], other, 0);
                    }
                }
            } else {
                proof {
                    assert forall|other: Seq<char>| other != name@ implies #[trigger] assoc_get(
                        table_view(kept@),
                        other,
                        0,
                    ) == assoc_get(before.take(i + 1), other, 0) by {
                        lemma_assoc_append(before.take(i as int), seq![before[i as int]], other, 0);
                        assert(assoc_get(seq![before[i as int]], other, 1) is None);
                    }
                }
            }
            i = i + 1;
        }
        assert(before.take(h.vars.len() as int) == before);
        let ghost kv = table_view(kept@);
        kept.push((key, String::from_str(value)));
        assert(table_view(kept@) =~= kv + seq![(name@, value@)]);
        assert(keys_unique(before) ==> keys_unique(table_view(kept@))) by {
            if keys_unique(before) {
                assert forall|a: int, b: int| 0 <= a < b < kv.len() + 1 implies #[trigger] table_view(kept@)[a].0
                    != #[trigger] table_view(kept@)[b].0 by {
                    if b == kv.len() {
                        assert(table_view(kept@)[a] == kv[a]);
                    } else {
                        assert(table_view(kept@)[a] == kv[a] && table_view(kept@)[b] == kv[b]);
                    }
                }
            }
        }
        proof {
            lemma_assoc_append(kv, seq![(name@, value@)], name@, 0);
            assert forall|other: Seq<char>| other != name@ implies #[trigger] assoc_get(
                table_view(kept@),
                other,
                0,
            ) == assoc_get(before, other, 0) by {
                lemma_assoc_append(kv, seq![(name@, value@)], other, 0);
                assert(assoc_get(seq![(name@, value@)], other, 1) is None);
            }
        }
        h.vars = kept;
        h
    }

    /// The registry entries without `(key, value)`.
    fn registry_without(&self, key: &str, value: &str) -> (r: Vec<((String, String), String)>)
        ensures
            assoc_get(reg_view(r@), (key@, value@), 0) is None,
            forall|a: int| 0 <= a < r@.len() ==> #[trigger] reg_view(r@)[a].0 != (key@, value@),
            keys_unique(reg_view(self.registry@)) ==> keys_unique(reg_view(r@)),
            forall|other: (Seq<char>, Seq<char>)|
                other != (key@, value@) ==> #[trigger] assoc_get(reg_view(r@), other, 0)
                    == assoc_get(reg_view(self.registry@), other, 0),
    {
        let ghost before = reg_view(self.registry@);
        let ghost name = (key@, value@);
        let mut kept: Vec<((String, String), String)> = Vec::new();
        let mut i: usize = 0;
        let k = String::from_str(key);
        let v = String::from_str(value);
        while i < self.registry.len()
            invariant
                i <= self.registry.len(),
                before == reg_view(self.registry@),
                name == (key@, value@),
                k@ == key@,
                v@ == value@,
                assoc_get(reg_view(kept@), name, 0) is None,
                forall|other: (Seq<char>, Seq<char>)|
                    other != name ==> #[trigger] assoc_get(reg_view(kept@), other, 0)
                        == assoc_get(before.take(i as int), other, 0),
                forall|a: int| 0 <= a < kept@.len() ==> #[trigger] reg_view(kept@)[a].0 != name,
                keys_unique(before) ==> keys_unique(reg_view(kept@)),
                keys_unique(before) ==> forall|a: int, m: int|
                    #![trigger reg_view(kept@)[a], before[m]]
                    0 <= a < kept@.len() && i <= m < before.len() ==> reg_view(kept@)[a].0 != before[m].0,
            decreases self.registry.len() - i,
        {
            let ghost kv = reg_view(kept@);
            let ghost e = before[i as int];
            assert(before.take(i + 1) == before.take(i as int) + seq![e]);
            assert(e == (
                (self.registry@[i as int].0.0@, self.registry@[i as int].0.1@),
                self.registry@[i as int].1@,
            ));
            if self.registry[i].0.0 != k || self.registry[i].0.1 != v {
                let x = (
                    (self.registry[i].0.0.clone(), self.registry[i].0.1.clone()),
                    self.registry[i].1.clone(),
                );
                kept.push(x);
                assert(reg_view(kept@) =~= kv + seq![e]);
                proof {
                    lemma_assoc_append(kv, seq![e], name, 0);
                    assert(assoc_get(seq![e], name, 1) is None);
                    assert forall|other: (Seq<char>, Seq<char>)| other != name implies #[trigger] assoc_get(
                        reg_view(kept@),
                        other,
                        0,
                    ) == assoc_get(before.take(i + 1), other, 0) by {
                        lemma_assoc_append(kv, seq![e], other, 0);
                        lemma_assoc_append(before.take(i as int), seq![e], other, 0);
                    }
                }
            } else {
                proof {
                    assert forall|other: (Seq<char>, Seq<char>)| other != name implies #[trigger] assoc_get(
                        reg_view(kept@),
                        other,
                        0,
                    ) == assoc_get(before.take(i + 1), other, 0) by {
                        lemma_assoc_append(before.take(i as int), seq![e], other, 0);
                        assert(assoc_get(seq![e], other, 1) is None);
                    }
                }
            }
            i = i + 1;
        }
        assert(before.take(self.registry.len() as int) == before);
        kept
    }

    /// Stores `data` for registry value `value` under `key` (key as given).
    pub fn set_registry(&mut self, key: &str, value: &str, data: &str)
        ensures
            final(self).registry_value(key@, value@) == Some(data@),
            forall|k: Seq<char>, v: Seq<char>|
                (k, v) != (key@, value@) ==> #[trigger] final(self).registry_value(k, v)
                    == old(self).registry_value(k, v),
            final(self).var_table() == old(self).var_table(),
            final(self).running_set() == old(self).running_set(),
            final(self).launches() == old(self).launches(),
            final(self).failing_read() == old(self).failing_read(),
            final(self).failing_write() == old(self).failing_write(),
            old(self).tables_unique() ==> final(self).tables_unique(),
    {
        let mut kept = self.registry_without(key, value);
        let ghost kv = reg_view(kept@);
        let ghost name = (key@, value@);
        kept.push(((String::from_str(key), String::from_str(value)), String::from_str(data)));
        assert(reg_view(kept@) =~= kv + seq![(name, data@)]);
        assert(keys_unique(reg_view(self.registry@)) ==> keys_unique(reg_view(kept@))) by {
            if keys_unique(reg_view(self.registry@)) {
                assert forall|a: int, b: int| 0 <= a < b < kv.len() + 1 implies #[trigger] reg_view(kept@)[a].0
                    != #[trigger] reg_view(kept@)[b].0 by {
                    if b == kv.len() {
                        assert(reg_view(kept@)[a] == kv[a]);
                    } else {
                        assert(reg_view(kept@)[a] == kv[a] && reg_view(kept@)[b] == kv[b]);
                    }
                }
            }
        }
        proof {
            lemma_assoc_append(kv, seq![(name, data@)], name, 0);
            assert forall|k: Seq<char>, v: Seq<char>| (k, v) != name implies #[trigger] assoc_get(
                reg_view(kept@),
                (k, v),
                0,
            ) == assoc_get(reg_view(self.registry@), (k, v), 0) by {
                lemma_assoc_append(kv, seq![(name, data@)], (k, v), 0);
                assert(assoc_get(seq![(name, data@)], (k, v), 1) is None);
            }
        }
        self.registry = kept;
    }

    /// Reads back a stored registry value (key as given).
    pub fn get_registry(&self, key: &str, value: &str) -> (r: Option<String>)
        ensures
            crate::model::opt_view(r) == self.registry_value(key@, value@),
    {
        let k = String::from_str(key);
        let v = String::from_str(value);
        let ghost es = reg_view(self.registry@);
        let mut i: usize = 0;
        while i < self.registry.len()
            invariant
                i <= self.registry.len(),
                es == reg_view(self.registry@),
                k@ == key@,
                v@ == value@,
                assoc_get(es, (key@, value@), 0) == assoc_get(es, (key@, value@), i as int),
            decreases self.registry.len() - i,
        {
            assert(es[i as int] == (
                (self.registry@[i as int].0.0@, self.registry@[i as int].0.1@),
                self.registry@[i as int].1@,
            ));
            if self.registry[i].0.0 == k && self.registry[i].0.1 == v {
                return Some(self.registry[i].1.clone());
            }
            i = i + 1;
        }
        None
    }

    /// Makes registry reads of value name `value` fail.
    pub fn fail_registry_read(&mut self, value: &str)
        ensures
            final(self).failing_read() == Some(value@),
            final(self).failing_write() == old(self).failing_write(),
            final(self).var_table() == old(self).var_table(),
            forall|k: Seq<char>, v: Seq<char>| #[trigger] final(self).registry_value(k, v) == old(self).registry_value(k, v),
            final(self).running_set() == old(self).running_set(),
            final(self).launches() == old(self).launches(),
            final(self).tables_unique() == old(self).tables_unique(),
    {
        self.fail_read_value = Some(String::from_str(value));
    }

    /// Makes registry writes of exactly `data` fail.
    pub fn fail_registry_write_data(&mut self, data: &str)
        ensures
            final(self).failing_write() == Some(data@),
            final(self).failing_read() == old(self).failing_read(),
            final(self).var_table() == old(self).var_table(),
            forall|k: Seq<char>, v: Seq<char>| #[trigger] final(self).registry_value(k, v) == old(self).registry_value(k, v),
            final(self).running_set() == old(self).running_set(),
            final(self).launches() == old(self).launches(),
            final(self).tables_unique() == old(self).tables_unique(),
    {
        self.fail_write_data = Some(String::from_str(data));
    }

    /// Models the running processes as exactly `names` (image names).
    pub fn set_running(&mut self, names: Vec<String>)
        ensures
            final(self).running_set() == Some(strings_view(names@)),
            final(self).failing_write() == old(self).failing_write(),
            final(self).failing_read() == old(self).failing_read(),
            final(self).var_table() == old(self).var_table(),
            forall|k: Seq<char>, v: Seq<char>| #[trigger] final(self).registry_value(k, v) == old(self).registry_value(k, v),
            final(self).launches() == old(self).launches(),
            final(self).tables_unique() == old(self).tables_unique(),
    {
        self.running = Some(names);
    }
}

/// `names` lower-cased (ASCII), as process targets.
pub open spec fn targets_of(names: Seq<String>) -> Seq<Seq<char>> {
    names.map_values(|n: String| ascii_lower(n@))
}

/// Some name of `names` (lower-cased) is in the modelled running set.
pub open spec fn spec_any_running(running: Option<Seq<Seq<char>>>, names: Seq<String>) -> bool {
    &&& names.len() > 0
    &&& running is Some
    &&& exists|t: Seq<char>| targets_of(names).contains(t) && #[trigger] running.unwrap().contains(t)
}

fn ascii_lowercase(s: &str) -> (r: String)
    ensures
        r@ == ascii_lower(s@),
{
    let c = chars_of(s);
    let mut out: Vec<char> = Vec::new();
    let mut i: usize = 0;
    while i < c.len()
        invariant
            i <= c.len(),
            c@ == s@,
            out@ == ascii_lower(c@.take(i as int)),
        decreases c.len() - i,
    {
        out.push(crate::text::to_lower(c[i]));
        assert(ascii_lower(c@.take(i + 1)) =~= ascii_lower(c@.take(i as int)).push(
            crate::text::lower(c@[i as int]),
        ));
        i = i + 1;
    }
    assert(c@.take(c@.len() as int) == c@);
    string_of(&out)
}

fn lowered_targets(names: &[String]) -> (r: Vec<String>)
    ensures
        strings_view(r@) == targets_of(names@),
{
    let mut r: Vec<String> = Vec::new();
    let mut i: usize = 0;
    while i < names.len()
        invariant
            i <= names.len(),
            strings_view(r@) == targets_of(names@.take(i as int)),
        decreases names.len() - i,
    {
        let l = ascii_lowercase(names[i].as_str());
        let ghost before = strings_view(r@);
        r.push(l);
        assert(strings_view(r@) =~= before.push(l@));
        assert(targets_of(names@.take(i + 1)) =~= targets_of(names@.take(i as int)).push(
            ascii_lower(names@[i as int]@),
        ));
        i = i + 1;
    }
    assert(names@.take(names@.len() as int) == names@);
    r
}

fn contains_string(v: &Vec<String>, s: &String) -> (b: bool)
    ensures
        b == strings_view(v@).contains(s@),
{
    let mut i: usize = 0;
    while i < v.len()
        invariant
            i <= v.len(),
            forall|k: int| 0 <= k < i ==> #[trigger] v@[k]@ != s@,
        decreases v.len() - i,
    {
        if v[i] == *s {
            assert(strings_view(v@)[i as int] == s@);
            return true;
        }
        i = i + 1;
    }
    proof {
        if strings_view(v@).contains(s@) {
            let k = choose|k: int| 0 <= k < strings_view(v@).len() && strings_view(v@)[k] == s@;
            assert(v@[k]@ == s@);
        }
    }
    false
}

/// The message of a stub registry read made to fail.
pub open spec fn read_failure(value: Seq<char>) -> Seq<char> {
    "stub: registry read of "@ + value + " failed"@
}

/// The message of a stub registry write made to fail.
pub open spec fn write_failure(data: Seq<char>) -> Seq<char> {
    "stub: registry write of "@ + data + " failed"@
}

impl Host for StubHost {
    /// Exactly the `%VAR%` expansion over the host's variable table.
    open spec fn expands(&self, input: Seq<char>, out: Seq<char>) -> bool {
        out == spec_expand(input, self.var_table())
    }

    /// A read of the failing value name fails; any other read answers the
    /// data stored under the expanded key.
    open spec fn reads(&self, key: Seq<char>, value: Seq<char>, answer: Result<Option<Seq<char>>, Seq<char>>) -> bool {
        if self.failing_read() == Some(value) {
            answer == Err::<Option<Seq<char>>, Seq<char>>(read_failure(value))
        } else {
            answer == Ok::<Option<Seq<char>>, Seq<char>>(self.registry_value(spec_expand(key, self.var_table()), value))
        }
    }

    /// Expands `%VAR%` with the host's variable table.
    fn expand_vars(&self, input: &str) -> (r: String)
        ensures
            r@ == spec_expand(input@, self.var_table()),
    {
        expand_placeholders(input, &self.vars)
    }

    /// Fails when `value` is the failing read; otherwise the value stored
    /// under the expanded key.
    fn read_registry(&self, key: &str, value: &str) -> (r: Result<Option<String>, HostError>)
        ensures
            self.failing_read() == Some(value@) ==> (r matches Err(e) && e.message@ == read_failure(value@)),
            self.failing_read() != Some(value@) ==> (r matches Ok(o) && crate::model::opt_view(o)
                == self.registry_value(spec_expand(key@, self.var_table()), value@)),
    {
        let v = String::from_str(value);
        match &self.fail_read_value {
            Some(f) => {
                if *f == v {
                    let mut m = String::from_str("stub: registry read of ");
                    m.append(value);
                    m.append(" failed");
                    return Err(HostError { message: m });
                }
            },
            None => {},
        }
        let k = self.expand_vars(key);
        Ok(self.get_registry(k.as_str(), value))
    }

    /// Fails when `data` is the failing write; otherwise stores it under the
    /// expanded key.
    fn write_registry(&mut self, key: &str, value: &str, data: &str) -> (r: Result<(), HostError>)
        ensures
            old(self).failing_write() == Some(data@) ==> (r matches Err(e) && e.message@ == write_failure(data@)) && forall|k: Seq<char>, v: Seq<char>|
                #[trigger] final(self).registry_value(k, v) == old(self).registry_value(k, v),
            old(self).failing_write() != Some(data@) ==> r is Ok && final(self).registry_value(
                spec_expand(key@, old(self).var_table()),
                value@,
            ) == Some(data@) && forall|k: Seq<char>, v: Seq<char>|
                (k, v) != (spec_expand(key@, old(self).var_table()), value@) ==> #[trigger] final(self).registry_value(k, v) == old(self).registry_value(k, v),
            final(self).var_table() == old(self).var_table(),
            final(self).running_set() == old(self).running_set(),
            final(self).launches() == old(self).launches(),
            final(self).failing_read() == old(self).failing_read(),
            final(self).failing_write() == old(self).failing_write(),
            old(self).tables_unique() ==> final(self).tables_unique(),
    {
        let d = String::from_str(data);
        match &self.fail_write_data {
            Some(f) => {
                if *f == d {
                    let mut m = String::from_str("stub: registry write of ");
                    m.append(data);
                    m.append(" failed");
                    return Err(HostError { message: m });
                }
            },
            None => {},
        }
        let k = self.expand_vars(key);
        self.set_registry(k.as_str(), value, data);
        Ok(())
    }

    /// Removes the value stored under the expanded key.
    fn delete_registry_value(&mut self, key: &str, value: &str) -> (r: Result<(), HostError>)
        ensures
            r is Ok,
            final(self).registry_value(spec_expand(key@, old(self).var_table()), value@) is None,
            forall|k: Seq<char>, v: Seq<char>|
                (k, v) != (spec_expand(key@, old(self).var_table()), value@) ==> #[trigger] final(self).registry_value(k, v) == old(self).registry_value(k, v),
            final(self).var_table() == old(self).var_table(),
            final(self).running_set() == old(self).running_set(),
            final(self).launches() == old(self).launches(),
            final(self).failing_read() == old(self).failing_read(),
            final(self).failing_write() == old(self).failing_write(),
            old(self).tables_unique() ==> final(self).tables_unique(),
    {
        let k = self.expand_vars(key);
        let kept = self.registry_without(k.as_str(), value);
        self.registry = kept;
        Ok(())
    }

    /// Removes the matching names (compared lower-cased) from the modelled
    /// running set.
    fn kill_processes(&mut self, exe_names: &[String]) -> (r: Result<(), HostError>)
        ensures
            r is Ok,
            final(self).running_set() == match old(self).running_set() {
                Some(set) => if exe_names@.len() == 0 {
                    Some(set)
                } else {
                    Some(set.filter(|n: Seq<char>| !targets_of(exe_names@).contains(n)))
                },
                None => None,
            },
            final(self).var_table() == old(self).var_table(),
            forall|k: Seq<char>, v: Seq<char>| #[trigger] final(self).registry_value(k, v) == old(self).registry_value(k, v),
            final(self).launches() == old(self).launches(),
            final(self).failing_read() == old(self).failing_read(),
            final(self).failing_write() == old(self).failing_write(),
            final(self).tables_unique() == old(self).tables_unique(),
    {
        if exe_names.len() == 0 {
            return Ok(());
        }
        let targets = lowered_targets(exe_names);
        match &self.running {
            Some(set) => {
                let ghost sv = strings_view(set@);
                let ghost tv = targets_of(exe_names@);
                let mut kept: Vec<String> = Vec::new();
                let mut i: usize = 0;
                while i < set.len()
                    invariant
                        i <= set.len(),
                        sv == strings_view(set@),
                        tv == strings_view(targets@),
                        strings_view(kept@) == sv.take(i as int).filter(|n: Seq<char>| !tv.contains(n)),
                    decreases set.len() - i,
                {
                    assert(sv.take(i + 1).drop_last() == sv.take(i as int));
                    assert(sv[i as int] == set@[i as int]@);
                    reveal(Seq::filter);
                    if !contains_string(&targets, &set[i]) {
                        let ghost kv = strings_view(kept@);
                        kept.push(set[i].clone());
                        assert(strings_view(kept@) =~= kv.push(sv[i as int]));
                    }
                    i = i + 1;
                }
                assert(sv.take(set.len() as int) == sv);
                self.running = Some(kept);
            },
            None => {},
        }
        Ok(())
    }

    /// Whether a matching name (compared lower-cased) is in the modelled set.
    fn are_running(&self, exe_names: &[String]) -> (b: bool)
        ensures
            b == spec_any_running(self.running_set(), exe_names@),
    {
        if exe_names.len() == 0 {
            return false;
        }
        let targets = lowered_targets(exe_names);
        match &self.running {
            Some(set) => {
                let ghost tv = targets_of(exe_names@);
                let mut i: usize = 0;
                while i < targets.len()
                    invariant
                        i <= targets.len(),
                        tv == strings_view(targets@),
                        tv == targets_of(exe_names@),
                        exe_names@.len() > 0,
                        self.running_set() == Some(strings_view(set@)),
                        forall|k: int| 0 <= k < i ==> !strings_view(set@).contains(#[trigger] tv[k]),
                    decreases targets.len() - i,
                {
                    assert(tv[i as int] == targets@[i as int]@);
                    if contains_string(set, &targets[i]) {
                        let ghost t = tv[i as int];
                        assert(tv.contains(t));
                        assert(strings_view(set@).contains(t));
                        assert(targets_of(exe_names@).contains(t) && strings_view(set@).contains(t));
                        assert(exe_names@.len() > 0);
                        assert(self.running_set() is Some);
                        assert(self.running_set().unwrap().contains(t));
                        return true;
                    }
                    i = i + 1;
                }
                proof {
                    assert forall|t: Seq<char>| tv.contains(t) implies !#[trigger] strings_view(set@).contains(t) by {
                        let k = choose|k: int| 0 <= k < tv.len() && tv[k] == t;
                    }
                }
                false
            },
            None => false,
        }
    }

    /// Records the launch.
    fn launch(&mut self, exe: &str, args: &str, elevated: bool) -> (r: Result<(), HostError>)
        ensures
            r is Ok,
            final(self).launches() == old(self).launches().push((exe@, args@)),
            final(self).var_table() == old(self).var_table(),
            forall|k: Seq<char>, v: Seq<char>| #[trigger] final(self).registry_value(k, v) == old(self).registry_value(k, v),
            final(self).running_set() == old(self).running_set(),
            final(self).failing_read() == old(self).failing_read(),
            final(self).failing_write() == old(self).failing_write(),
            final(self).tables_unique() == old(self).tables_unique(),
    {
        let ghost before = table_view(self.launched@);
        self.launched.push((String::from_str(exe), String::from_str(args)));
        assert(table_view(self.launched@) =~= before.push((exe@, args@)));
        Ok(())
    }
}

/// The host the library provides: an empty in-memory [`StubHost`]. (A
/// machine-backed host implements [`Host`] outside the library.)
pub fn host() -> (h: StubHost)
    ensures
        h.var_table().len() == 0,
        forall|k: Seq<char>, v: Seq<char>| #[trigger] h.registry_value(k, v) is None,
        h.running_set() is None,
        h.launches().len() == 0,
        h.failing_read() is None,
        h.failing_write() is None,
        h.tables_unique(),
{
    StubHost::new()
}

} // verus!
