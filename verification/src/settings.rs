//! User settings: program-wide switches and per-platform overrides.

use vstd::prelude::*;

verus! {

/// Per-platform overrides. `None` means "use the default".
#[derive(Clone, Copy)]
pub struct PlatformSettings {
    /// Explicit enable/disable; `None` follows auto-detection.
    pub enabled: Option<bool>,
    /// Launch the app silently after switching.
    pub silent: Option<bool>,
}

impl Default for PlatformSettings {
    fn default() -> (r: PlatformSettings)
        ensures
            r.enabled is None,
            r.silent is None,
    {
        PlatformSettings { enabled: None, silent: None }
    }
}

/// No platform id has two entries among the overrides.
pub open spec fn ids_unique(ps: Seq<(String, PlatformSettings)>) -> bool {
    forall|i: int, j: int| #![trigger ps[i], ps[j]] 0 <= i < j < ps.len() ==> ps[i].0@ != ps[j].0@
}

/// User settings. `platforms` maps a platform id to its overrides: each id
/// has one entry ([`ids_unique`], which the updates below keep), looked up by
/// its first occurrence.
pub struct Settings {
    /// Launch the platform's app after switching.
    pub auto_start: bool,
    /// Hide the switcher window after a successful switch.
    pub minimize_after_switch: bool,
    /// Verbose logging.
    pub debug_logging: bool,
    /// Per-platform overrides, by platform id.
    pub platforms: Vec<(String, PlatformSettings)>,
}

impl Default for Settings {
    fn default() -> (r: Settings)
        ensures
            r.auto_start,
            !r.minimize_after_switch,
            !r.debug_logging,
            r.platforms@.len() == 0,
            ids_unique(r.platforms@),
    {
        Settings {
            auto_start: true,
            minimize_after_switch: false,
            debug_logging: false,
            platforms: Vec::new(),
        }
    }
}

/// The overrides stored for `id` in `ps` from index `i` on (first match).
pub open spec fn lookup_platform(ps: Seq<(String, PlatformSettings)>, id: Seq<char>, i: int) -> Option<
    PlatformSettings,
>
    decreases ps.len() - i,
{
    if i < 0 || i >= ps.len() {
        None
    } else if ps[i].0@ == id {
        Some(ps[i].1)
    } else {
        lookup_platform(ps, id, i + 1)
    }
}

/// Whether platform `id` is shown: its explicit setting, else `detected`.
pub open spec fn spec_platform_enabled(ps: Seq<(String, PlatformSettings)>, id: Seq<char>, detected: bool) -> bool {
    match lookup_platform(ps, id, 0) {
        Some(p) => match p.enabled {
            Some(b) => b,
            None => detected,
        },
        None => detected,
    }
}

/// Whether Epic launches silently after a switch: its setting, else yes.
pub open spec fn spec_epic_silent(ps: Seq<(String, PlatformSettings)>) -> bool {
    match lookup_platform(ps, "epic"@, 0) {
        Some(p) => match p.silent {
            Some(b) => b,
            None => true,
        },
        None => true,
    }
}

impl Settings {
    /// Index of the first entry for `id`.
    fn index_of(&self, id: &str) -> (r: Option<usize>)
        ensures
            r matches Some(i) ==> i < self.platforms@.len() && lookup_platform(self.platforms@, id@, 0)
                == Some(self.platforms@[i as int].1) && self.platforms@[i as int].0@ == id@
                && forall|k: int| 0 <= k < i ==> #[trigger] self.platforms@[k].0@ != id@,
            r is None ==> lookup_platform(self.platforms@, id@, 0) is None && forall|k: int|
                0 <= k < self.platforms@.len() ==> #[trigger] self.platforms@[k].0@ != id@,
    {
        let key = String::from_str(id);
        let mut i: usize = 0;
        while i < self.platforms.len()
            invariant
                i <= self.platforms.len(),
                key@ == id@,
                lookup_platform(self.platforms@, id@, 0) == lookup_platform(
                    self.platforms@,
                    id@,
                    i as int,
                ),
                forall|k: int| 0 <= k < i ==> #[trigger] self.platforms@[k].0@ != id@,
            decreases self.platforms.len() - i,
        {
            if self.platforms[i].0 == key {
                return Some(i);
            }
            i = i + 1;
        }
        None
    }

    /// The overrides stored for a platform.
    pub fn platform(&self, id: &str) -> (r: Option<PlatformSettings>)
        ensures
            r == lookup_platform(self.platforms@, id@, 0),
    {
        match self.index_of(id) {
            Some(i) => Some(self.platforms[i].1),
            None => None,
        }
    }

    /// Whether a platform should be shown/active: the explicit setting if
    /// present, otherwise auto-detection.
    pub fn platform_enabled(&self, id: &str, detected: bool) -> (r: bool)
        ensures
            r == spec_platform_enabled(self.platforms@, id@, detected),
    {
        match self.platform(id) {
            Some(p) => match p.enabled {
                Some(b) => b,
                None => detected,
            },
            None => detected,
        }
    }

    /// The overrides of `id`, created with defaults if missing, updated by
    /// `f` (`platforms.entry(id).or_default()`).
    fn set_with(&mut self, id: &str, enabled: Option<Option<bool>>, silent: Option<Option<bool>>)
        ensures
            ({
                let before = match lookup_platform(old(self).platforms@, id@, 0) {
                    Some(p) => p,
                    None => PlatformSettings { enabled: None, silent: None },
                };
                lookup_platform(final(self).platforms@, id@, 0) == Some(
                    PlatformSettings {
                        enabled: match enabled {
                            Some(e) => e,
                            None => before.enabled,
                        },
                        silent: match silent {
                            Some(s) => s,
                            None => before.silent,
                        },
                    },
                )
            }),
            forall|other: Seq<char>|
                other != id@ ==> #[trigger] lookup_platform(final(self).platforms@, other, 0)
                    == lookup_platform(old(self).platforms@, other, 0),
            final(self).auto_start == old(self).auto_start,
            final(self).minimize_after_switch == old(self).minimize_after_switch,
            final(self).debug_logging == old(self).debug_logging,
            ids_unique(old(self).platforms@) ==> ids_unique(final(self).platforms@),
    {
        let ghost before = self.platforms@;
        match self.index_of(id) {
            Some(i) => {
                let mut p = self.platforms[i].1;
                match enabled {
                    Some(e) => {
                        p.enabled = e;
                    },
                    None => {},
                }
                match silent {
                    Some(s) => {
                        p.silent = s;
                    },
                    None => {},
                }
                let k = self.platforms[i].0.clone();
                self.platforms.set(i, (k, p));
                proof {
                    assert forall|other: Seq<char>| true implies #[trigger] lookup_platform(
                        self.platforms@,
                        other,
                        0,
                    ) == if other == id@ {
                        Some(p)
                    } else {
                        lookup_platform(before, other, 0)
                    } by {
                        lemma_lookup_platform_update(before, i as int, p, other, 0);
                    }
                }
            },
            None => {
                let mut p = PlatformSettings { enabled: None, silent: None };
                match enabled {
                    Some(e) => {
                        p.enabled = e;
                    },
                    None => {},
                }
                match silent {
                    Some(s) => {
                        p.silent = s;
                    },
                    None => {},
                }
                let k = String::from_str(id);
                self.platforms.push((k, p));
                proof {
                    assert forall|other: Seq<char>| true implies #[trigger] lookup_platform(
                        self.platforms@,
                        other,
                        0,
                    ) == if other == id@ {
                        Some(p)
                    } else {
                        lookup_platform(before, other, 0)
                    } by {
                        lemma_lookup_platform_push(before, k, p, other, 0);
                    }
                }
            },
        }
    }
}

proof fn lemma_lookup_platform_update(
    ps: Seq<(String, PlatformSettings)>,
    j: int,
    p: PlatformSettings,
    other: Seq<char>,
    i: int,
)
    requires
        0 <= j < ps.len(),
        forall|k: int| 0 <= k < j ==> #[trigger] ps[k].0@ != ps[j].0@,
        0 <= i <= j,
    ensures
        ({
            let q = ps.update(j, (ps[j].0, p));
            lookup_platform(q, other, i) == if other == ps[j].0@ {
                Some(p)
            } else {
                lookup_platform(ps, other, i)
            }
        }),
    decreases ps.len() - i,
{
    let q = ps.update(j, (ps[j].0, p));
    if i < j {
        assert(q[i] == ps[i]);
        if ps[i].0@ != other {
            lemma_lookup_platform_update(ps, j, p, other, i + 1);
        }
    } else {
        if other != ps[j].0@ {
            lemma_lookup_platform_update_rest(ps, j, p, other, j + 1);
        }
    }
}

proof fn lemma_lookup_platform_update_rest(
    ps: Seq<(String, PlatformSettings)>,
    j: int,
    p: PlatformSettings,
    other: Seq<char>,
    i: int,
)
    requires
        0 <= j < ps.len(),
        j < i,
    ensures
        lookup_platform(ps.update(j, (ps[j].0, p)), other, i) == lookup_platform(ps, other, i),
    decreases ps.len() - i,
{
    if i < ps.len() {
        assert(ps.update(j, (ps[j].0, p))[i] == ps[i]);
        lemma_lookup_platform_update_rest(ps, j, p, other, i + 1);
    }
}

proof fn lemma_lookup_platform_push(
    ps: Seq<(String, PlatformSettings)>,
    k: String,
    p: PlatformSettings,
    other: Seq<char>,
    i: int,
)
    requires
        0 <= i <= ps.len(),
        forall|m: int| i <= m < ps.len() ==> #[trigger] ps[m].0@ != k@,
    ensures
        lookup_platform(ps.push((k, p)), other, i) == if other == k@ {
            Some(p)
        } else {
            lookup_platform(ps, other, i)
        },
    decreases ps.len() - i,
{
    let q = ps.push((k, p));
    if i < ps.len() {
        assert(q[i] == ps[i]);
        lemma_lookup_platform_push(ps, k, p, other, i + 1);
    } else {
        assert(q[i] == (k, p));
        if other != k@ {
            assert(lookup_platform(q, other, i + 1) is None);
        }
    }
}

/// Whether Epic should launch silently after switching (default: yes).
pub fn epic_silent(settings: &Settings) -> (r: bool)
    ensures
        r == spec_epic_silent(settings.platforms@),
{
    match settings.platform("epic") {
        Some(p) => match p.silent {
            Some(b) => b,
            None => true,
        },
        None => true,
    }
}

/// Manually enables or disables a platform (overrides auto-detection).
pub fn set_platform_enabled(settings: &mut Settings, platform: &str, enabled: bool)
    ensures
        forall|detected: bool| #[trigger] spec_platform_enabled(final(settings).platforms@, platform@, detected) == enabled,
        lookup_platform(final(settings).platforms@, platform@, 0) matches Some(p) && p.silent == match lookup_platform(
            old(settings).platforms@,
            platform@,
            0,
        ) {
            Some(q) => q.silent,
            None => None,
        },
        forall|other: Seq<char>|
            other != platform@ ==> #[trigger] lookup_platform(final(settings).platforms@, other, 0)
                == lookup_platform(old(settings).platforms@, other, 0),
        final(settings).auto_start == old(settings).auto_start,
        final(settings).minimize_after_switch == old(settings).minimize_after_switch,
        final(settings).debug_logging == old(settings).debug_logging,
        ids_unique(old(settings).platforms@) ==> ids_unique(final(settings).platforms@),
{
    settings.set_with(platform, Some(Some(enabled)), None);
}

/// Sets a platform's "launch silently after switching" preference.
pub fn set_platform_silent(settings: &mut Settings, platform: &str, silent: bool)
    ensures
        lookup_platform(final(settings).platforms@, platform@, 0) matches Some(p) && p.silent == Some(silent)
            && p.enabled == match lookup_platform(old(settings).platforms@, platform@, 0) {
            Some(q) => q.enabled,
            None => None,
        },
        forall|other: Seq<char>|
            other != platform@ ==> #[trigger] lookup_platform(final(settings).platforms@, other, 0)
                == lookup_platform(old(settings).platforms@, other, 0),
        final(settings).auto_start == old(settings).auto_start,
        final(settings).minimize_after_switch == old(settings).minimize_after_switch,
        final(settings).debug_logging == old(settings).debug_logging,
        ids_unique(old(settings).platforms@) ==> ids_unique(final(settings).platforms@),
{
    settings.set_with(platform, None, Some(Some(silent)));
}

/// Epic launches silently unless the user turned it off: with no silent
/// preference stored for Epic (no entry, or an entry whose `silent` is
/// unset) it is silent, and a stored preference is followed.
pub proof fn law_epic_silent_by_default(ps: Seq<(String, PlatformSettings)>)
    ensures
        (lookup_platform(ps, "epic"@, 0) matches Some(p) ==> p.silent is None) ==> spec_epic_silent(ps),
        lookup_platform(ps, "epic"@, 0) matches Some(p) ==> (p.silent matches Some(b) ==> spec_epic_silent(ps)
            == b),
{
}

} // verus!
