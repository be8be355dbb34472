//! What the steps of the plans do to the machine a login lives on, and the
//! laws the plans keep together: restoring after a capture gives the captured
//! login back, and rolling back after a backup gives the backed-up state back.
//!
//! The caller expands a step's `live` template before touching the path, and
//! the host expands a registry key; `x` stands for that expansion.

use crate::model::{opt_view, LoginArtifact, PlatformDef, UniqueId};
use crate::epic::{dec_digit, decimal};
use crate::plans::{
    backup_rel, backup_step_for, capture_step_for, clear_step_for, files_before, is_backup_plan,
    is_capture_plan, is_clear_plan, is_restore_plan, is_rollback_plan, restore_step_for, rollback_step_for,
    BackupItem, BackupStep, CaptureStep, ClearStep, RestoreStep,
};
use crate::store::{join_path, lookup_pair};
use vstd::prelude::*;

verus! {

/// The login state of a machine: each path (as expanded) present with its
/// contents or absent, and each registry value (expanded key, value name)
/// present with its data or absent. A folder or a glob counts as one path.
pub struct Machine {
    pub paths: Map<Seq<char>, Seq<u8>>,
    pub registry: Map<(Seq<char>, Seq<char>), Seq<char>>,
}

/// The entry of `m` at `k`, if any.
pub open spec fn at<K, V>(m: Map<K, V>, k: K) -> Option<V> {
    if m.dom().contains(k) {
        Some(m[k])
    } else {
        None
    }
}

/// `m` with `k` set to `v`, or without `k` when `v` is `None`.
pub open spec fn put<K, V>(m: Map<K, V>, k: K, v: Option<V>) -> Map<K, V> {
    match v {
        Some(d) => m.insert(k, d),
        None => m.remove(k),
    }
}

/// The live path template of a file artifact.
pub open spec fn live_of(a: LoginArtifact) -> Seq<char> {
    match a {
        LoginArtifact::File { live, .. } => live@,
        LoginArtifact::Registry { .. } => Seq::empty(),
    }
}

/// The name an artifact is saved under.
pub open spec fn saved_of(a: LoginArtifact) -> Seq<char> {
    match a {
        LoginArtifact::File { saved, .. } => saved@,
        LoginArtifact::Registry { saved, .. } => saved@,
    }
}

/// The registry value of a registry artifact, its key expanded.
pub open spec fn reg_of(a: LoginArtifact, x: spec_fn(Seq<char>) -> Seq<char>) -> (Seq<char>, Seq<char>) {
    match a {
        LoginArtifact::Registry { key, value, .. } => (x(key@), value@),
        LoginArtifact::File { .. } => (Seq::empty(), Seq::empty()),
    }
}

/// Where a file artifact's saved copy lives in account folder `dir`.
pub open spec fn saved_copy(dir: Seq<char>, a: LoginArtifact) -> Seq<char> {
    join_path(dir, saved_of(a))
}

/// Artifact `a` is in the same state on `m` and `n`.
pub open spec fn same_artifact(m: Machine, n: Machine, a: LoginArtifact, x: spec_fn(Seq<char>) -> Seq<char>) -> bool {
    match a {
        LoginArtifact::File { live, .. } => at(m.paths, x(live@)) == at(n.paths, x(live@)),
        LoginArtifact::Registry { key, value, .. } => at(m.registry, (x(key@), value@)) == at(
            n.registry,
            (x(key@), value@),
        ),
    }
}

// ---- the steps ------------------------------------------------------------

/// A capture step on a machine and the registry values saved so far: a file
/// artifact's saved copy is replaced by the live path (removed when the live
/// path is absent); a present registry value is saved under its name.
pub open spec fn capture_effect(
    st: (Machine, Map<Seq<char>, Seq<char>>),
    s: CaptureStep,
    x: spec_fn(Seq<char>) -> Seq<char>,
) -> (Machine, Map<Seq<char>, Seq<char>>) {
    let m = st.0;
    match s {
        CaptureStep::CopyIntoSaved { live, dest } => (
            Machine { paths: put(m.paths, dest@, at(m.paths, x(live@))), registry: m.registry },
            st.1,
        ),
        CaptureStep::ReadRegistry { key, value, saved } => match at(m.registry, (x(key@), value@)) {
            Some(d) => (m, st.1.insert(saved@, d)),
            None => st,
        },
    }
}

/// The capture steps `s` run in order.
pub open spec fn run_capture(
    st: (Machine, Map<Seq<char>, Seq<char>>),
    s: Seq<CaptureStep>,
    x: spec_fn(Seq<char>) -> Seq<char>,
) -> (Machine, Map<Seq<char>, Seq<char>>)
    decreases s.len(),
{
    if s.len() == 0 {
        st
    } else {
        capture_effect(run_capture(st, s.drop_last(), x), s.last(), x)
    }
}

/// A clear step: the path (expanded) or the registry value is deleted.
pub open spec fn clear_effect(m: Machine, s: ClearStep, x: spec_fn(Seq<char>) -> Seq<char>) -> Machine {
    match s {
        ClearStep::DeleteLive { path } => Machine { paths: m.paths.remove(x(path@)), registry: m.registry },
        ClearStep::DeleteRegistry { key, value } => Machine {
            paths: m.paths,
            registry: m.registry.remove((x(key@), value@)),
        },
        ClearStep::RemoveMarker { path } => Machine { paths: m.paths.remove(x(path@)), registry: m.registry },
    }
}

/// The clear steps `s` run in order.
pub open spec fn run_clear(m: Machine, s: Seq<ClearStep>, x: spec_fn(Seq<char>) -> Seq<char>) -> Machine
    decreases s.len(),
{
    if s.len() == 0 {
        m
    } else {
        clear_effect(run_clear(m, s.drop_last(), x), s.last(), x)
    }
}

/// Step `s` deletes path `p`.
pub open spec fn clears_path(s: ClearStep, p: Seq<char>, x: spec_fn(Seq<char>) -> Seq<char>) -> bool {
    match s {
        ClearStep::DeleteLive { path } => x(path@) == p,
        ClearStep::RemoveMarker { path } => x(path@) == p,
        ClearStep::DeleteRegistry { .. } => false,
    }
}

/// Step `s` deletes registry value `r`.
pub open spec fn clears_value(s: ClearStep, r: (Seq<char>, Seq<char>), x: spec_fn(Seq<char>) -> Seq<char>) -> bool {
    match s {
        ClearStep::DeleteRegistry { key, value } => (x(key@), value@) == r,
        _ => false,
    }
}

/// A restore step: a present saved copy is copied to the live path (`xp`
/// expands it); registry data, when there is some, is written (`xk` expands
/// the key).
pub open spec fn restore_effect(
    m: Machine,
    s: RestoreStep,
    xp: spec_fn(Seq<char>) -> Seq<char>,
    xk: spec_fn(Seq<char>) -> Seq<char>,
) -> Machine {
    match s {
        RestoreStep::CopyFromSaved { saved, live } => match at(m.paths, saved@) {
            Some(c) => Machine { paths: m.paths.insert(xp(live@), c), registry: m.registry },
            None => m,
        },
        RestoreStep::WriteRegistry { key, value, data } => match data {
            Some(d) => Machine { paths: m.paths, registry: m.registry.insert((xk(key@), value@), d@) },
            None => m,
        },
    }
}

/// The restore steps `s` run in order.
pub open spec fn run_restore(
    m: Machine,
    s: Seq<RestoreStep>,
    xp: spec_fn(Seq<char>) -> Seq<char>,
    xk: spec_fn(Seq<char>) -> Seq<char>,
) -> Machine
    decreases s.len(),
{
    if s.len() == 0 {
        m
    } else {
        restore_effect(run_restore(m, s.drop_last(), xp, xk), s.last(), xp, xk)
    }
}

// ---- what the laws assume of a definition ---------------------------------

/// No path the clearing of `plat` deletes is, expanded, a saved copy in `dir`.
pub open spec fn saved_copies_apart(plat: PlatformDef, dir: Seq<char>, x: spec_fn(Seq<char>) -> Seq<char>) -> bool {
    let n = plat.login@.len();
    &&& forall|i: int, j: int|
        #![trigger plat.login@[i], plat.login@[j]]
        0 <= i < n && 0 <= j < n && plat.login@[i] is File && plat.login@[j] is File ==> x(
            live_of(plat.login@[i]),
        ) != saved_copy(dir, plat.login@[j])
    &&& forall|i: int, j: int|
        #![trigger plat.clear@[i], plat.login@[j]]
        0 <= i < plat.clear@.len() && 0 <= j < n && plat.login@[j] is File ==> x(plat.clear@[i]@)
            != saved_copy(dir, plat.login@[j])
    &&& forall|j: int|
        0 <= j < n && #[trigger] plat.login@[j] is File ==> (plat.unique_id matches UniqueId::GeneratedFile {
            file,
        } ==> x(file@) != saved_copy(dir, plat.login@[j]))
}

/// Artifacts saved under one name are one artifact: the same live path
/// (expanded) for files, the same registry value for registry artifacts.
pub open spec fn saved_names_agree(plat: PlatformDef, x: spec_fn(Seq<char>) -> Seq<char>) -> bool {
    forall|i: int, j: int|
        #![trigger plat.login@[i], plat.login@[j]]
        0 <= i < plat.login@.len() && 0 <= j < plat.login@.len() && saved_of(plat.login@[i]) == saved_of(
            plat.login@[j],
        ) ==> (plat.login@[i] is File && plat.login@[j] is File ==> x(live_of(plat.login@[i])) == x(
            live_of(plat.login@[j]),
        )) && (plat.login@[i] is Registry && plat.login@[j] is Registry ==> reg_of(plat.login@[i], x)
            == reg_of(plat.login@[j], x))
}

// ---- how the runs act ------------------------------------------------------

proof fn lemma_clear_run(m: Machine, s: Seq<ClearStep>, x: spec_fn(Seq<char>) -> Seq<char>)
    ensures
        forall|p: Seq<char>|
            (forall|j: int| 0 <= j < s.len() ==> !clears_path(#[trigger] s[j], p, x)) ==> at(
                run_clear(m, s, x).paths,
                p,
            ) == at(m.paths, p),
        forall|p: Seq<char>, j: int|
            0 <= j < s.len() && #[trigger] clears_path(s[j], p, x) ==> at(run_clear(m, s, x).paths, p) is None,
        forall|r: (Seq<char>, Seq<char>)|
            (forall|j: int| 0 <= j < s.len() ==> !clears_value(#[trigger] s[j], r, x)) ==> at(
                run_clear(m, s, x).registry,
                r,
            ) == at(m.registry, r),
        forall|r: (Seq<char>, Seq<char>), j: int|
            0 <= j < s.len() && #[trigger] clears_value(s[j], r, x) ==> at(run_clear(m, s, x).registry, r)
                is None,
    decreases s.len(),
{
    if s.len() > 0 {
        let d = s.drop_last();
        lemma_clear_run(m, d, x);
        let prev = run_clear(m, d, x);
        let last = s.last();
        assert forall|p: Seq<char>|
            (forall|j: int| 0 <= j < s.len() ==> !clears_path(#[trigger] s[j], p, x)) implies at(
            run_clear(m, s, x).paths,
            p,
        ) == at(m.paths, p) by {
            assert forall|j: int| 0 <= j < d.len() implies !clears_path(#[trigger] d[j], p, x) by {
                assert(d[j] == s[j]);
            }
            assert(!clears_path(s[s.len() - 1], p, x));
        }
        assert forall|p: Seq<char>, j: int|
            0 <= j < s.len() && #[trigger] clears_path(s[j], p, x) implies at(run_clear(m, s, x).paths, p)
            is None by {
            if j < d.len() {
                assert(d[j] == s[j]);
            }
        }
        assert forall|r: (Seq<char>, Seq<char>)|
            (forall|j: int| 0 <= j < s.len() ==> !clears_value(#[trigger] s[j], r, x)) implies at(
            run_clear(m, s, x).registry,
            r,
        ) == at(m.registry, r) by {
            assert forall|j: int| 0 <= j < d.len() implies !clears_value(#[trigger] d[j], r, x) by {
                assert(d[j] == s[j]);
            }
            assert(!clears_value(s[s.len() - 1], r, x));
        }
        assert forall|r: (Seq<char>, Seq<char>), j: int|
            0 <= j < s.len() && #[trigger] clears_value(s[j], r, x) implies at(
            run_clear(m, s, x).registry,
            r,
        ) is None by {
            if j < d.len() {
                assert(d[j] == s[j]);
            }
        }
    }
}

proof fn lemma_join_injective(dir: Seq<char>, a: Seq<char>, b: Seq<char>)
    ensures
        join_path(dir, a) == join_path(dir, b) ==> a == b,
{
    if join_path(dir, a) == join_path(dir, b) {
        let n: int = if dir.len() == 0 {
            0
        } else if dir.last() == '/' || dir.last() == '\\' {
            dir.len() as int
        } else {
            dir.len() + 1int
        };
        assert(join_path(dir, a).skip(n) =~= a);
        assert(join_path(dir, b).skip(n) =~= b);
    }
}

/// The capture state after the first `k` steps of a capture plan, run from
/// `m0` with nothing saved.
pub open spec fn captured(m0: Machine, steps: Seq<CaptureStep>, k: int, x: spec_fn(Seq<char>) -> Seq<char>) -> (
    Machine,
    Map<Seq<char>, Seq<char>>,
) {
    run_capture((m0, Map::empty()), steps.take(k), x)
}

/// After capturing the first `k` artifacts from `m0`: the registry and the
/// paths other than their saved copies are as on `m0`, each saved copy holds
/// its live path's state on `m0`, and each saved registry name its value's.
spec fn capture_inv(
    plat: PlatformDef,
    dir: Seq<char>,
    x: spec_fn(Seq<char>) -> Seq<char>,
    m0: Machine,
    st: (Machine, Map<Seq<char>, Seq<char>>),
    k: int,
) -> bool {
    &&& st.0.registry == m0.registry
    &&& forall|p: Seq<char>|
        (forall|i: int|
            0 <= i < k && (#[trigger] plat.login@[i]) is File ==> saved_copy(dir, plat.login@[i]) != p) ==> at(
            st.0.paths,
            p,
        ) == at(m0.paths, p)
    &&& forall|i: int|
        0 <= i < k && (#[trigger] plat.login@[i]) is File ==> at(st.0.paths, saved_copy(dir, plat.login@[i]))
            == at(m0.paths, x(live_of(plat.login@[i])))
    &&& forall|i: int|
        0 <= i < k && (#[trigger] plat.login@[i]) is Registry ==> at(st.1, saved_of(plat.login@[i])) == at(
            m0.registry,
            reg_of(plat.login@[i], x),
        )
    &&& forall|nm: Seq<char>|
        (forall|i: int|
            0 <= i < k && (#[trigger] plat.login@[i]) is Registry ==> saved_of(plat.login@[i]) != nm) ==> at(
            st.1,
            nm,
        ) is None
}

#[verifier::rlimit(40)]
proof fn lemma_capture_file_step(
    plat: PlatformDef,
    dir: Seq<char>,
    x: spec_fn(Seq<char>) -> Seq<char>,
    m0: Machine,
    prev: (Machine, Map<Seq<char>, Seq<char>>),
    s: CaptureStep,
    k: int,
)
    requires
        1 <= k <= plat.login@.len(),
        plat.login@[k - 1] is File,
        capture_step_for(s, plat.login@[k - 1], dir),
        capture_inv(plat, dir, x, m0, prev, k - 1),
        saved_copies_apart(plat, dir, x),
        saved_names_agree(plat, x),
    ensures
        capture_inv(plat, dir, x, m0, capture_effect(prev, s, x), k),
{
    let a = plat.login@[k - 1];
    let cur = capture_effect(prev, s, x);
    let dest = saved_copy(dir, a);
    let lv = x(live_of(a));
    assert forall|i: int| 0 <= i < k - 1 && (#[trigger] plat.login@[i]) is File implies saved_copy(
        dir,
        plat.login@[i],
    ) != lv by {}
    assert(at(prev.0.paths, lv) == at(m0.paths, lv));
    assert(at(cur.0.paths, dest) == at(m0.paths, lv));
    assert forall|p: Seq<char>|
        (forall|i: int|
            0 <= i < k && (#[trigger] plat.login@[i]) is File ==> saved_copy(dir, plat.login@[i]) != p)
            implies at(cur.0.paths, p) == at(m0.paths, p) by {
        assert(plat.login@[k - 1] is File);
        assert(p != dest);
    }
    assert forall|i: int| 0 <= i < k && (#[trigger] plat.login@[i]) is File implies at(
        cur.0.paths,
        saved_copy(dir, plat.login@[i]),
    ) == at(m0.paths, x(live_of(plat.login@[i]))) by {
        if i < k - 1 && saved_copy(dir, plat.login@[i]) == dest {
            lemma_join_injective(dir, saved_of(plat.login@[i]), saved_of(a));
        }
    }
}

/// The paths of a capture state stay as they were through a registry step.
proof fn lemma_capture_reg_paths(
    plat: PlatformDef,
    dir: Seq<char>,
    x: spec_fn(Seq<char>) -> Seq<char>,
    m0: Machine,
    prev: (Machine, Map<Seq<char>, Seq<char>>),
    s: CaptureStep,
    k: int,
)
    requires
        1 <= k <= plat.login@.len(),
        plat.login@[k - 1] is Registry,
        s is ReadRegistry,
        capture_inv(plat, dir, x, m0, prev, k - 1),
    ensures
        capture_effect(prev, s, x).0 == prev.0,
        forall|p: Seq<char>|
            (forall|i: int|
                0 <= i < k && (#[trigger] plat.login@[i]) is File ==> saved_copy(dir, plat.login@[i]) != p)
                ==> at(capture_effect(prev, s, x).0.paths, p) == at(m0.paths, p),
        forall|i: int|
            0 <= i < k && (#[trigger] plat.login@[i]) is File ==> at(
                capture_effect(prev, s, x).0.paths,
                saved_copy(dir, plat.login@[i]),
            ) == at(m0.paths, x(live_of(plat.login@[i]))),
{
    assert forall|p: Seq<char>|
        (forall|i: int|
            0 <= i < k && (#[trigger] plat.login@[i]) is File ==> saved_copy(dir, plat.login@[i]) != p)
            implies at(capture_effect(prev, s, x).0.paths, p) == at(m0.paths, p) by {
        assert forall|i: int|
            0 <= i < k - 1 && (#[trigger] plat.login@[i]) is File implies saved_copy(dir, plat.login@[i]) != p by {}
    }
}

#[verifier::rlimit(40)]
proof fn lemma_capture_reg_absent(
    plat: PlatformDef,
    dir: Seq<char>,
    x: spec_fn(Seq<char>) -> Seq<char>,
    m0: Machine,
    prev: (Machine, Map<Seq<char>, Seq<char>>),
    s: CaptureStep,
    k: int,
)
    requires
        1 <= k <= plat.login@.len(),
        plat.login@[k - 1] is Registry,
        capture_step_for(s, plat.login@[k - 1], dir),
        at(m0.registry, reg_of(plat.login@[k - 1], x)) is None,
        capture_inv(plat, dir, x, m0, prev, k - 1),
        saved_names_agree(plat, x),
    ensures
        capture_effect(prev, s, x).1 == prev.1,
        forall|i: int|
            0 <= i < k && (#[trigger] plat.login@[i]) is Registry ==> at(prev.1, saved_of(plat.login@[i])) == at(
                m0.registry,
                reg_of(plat.login@[i], x),
            ),
        forall|m: Seq<char>|
            (forall|i: int|
                0 <= i < k && (#[trigger] plat.login@[i]) is Registry ==> saved_of(plat.login@[i]) != m)
                ==> at(prev.1, m) is None,
{
    let a = plat.login@[k - 1];
    let nm = saved_of(a);
    if exists|j: int| 0 <= j < k - 1 && (#[trigger] plat.login@[j]) is Registry && saved_of(plat.login@[j]) == nm {
        let j = choose|j: int|
            0 <= j < k - 1 && (#[trigger] plat.login@[j]) is Registry && saved_of(plat.login@[j]) == nm;
        assert(reg_of(plat.login@[j], x) == reg_of(a, x));
    }
    assert forall|m: Seq<char>|
        (forall|i: int|
            0 <= i < k && (#[trigger] plat.login@[i]) is Registry ==> saved_of(plat.login@[i]) != m)
            implies at(prev.1, m) is None by {
        assert forall|i: int|
            0 <= i < k - 1 && (#[trigger] plat.login@[i]) is Registry implies saved_of(plat.login@[i]) != m by {}
    }
}

#[verifier::rlimit(40)]
proof fn lemma_capture_reg_present(
    plat: PlatformDef,
    dir: Seq<char>,
    x: spec_fn(Seq<char>) -> Seq<char>,
    m0: Machine,
    prev: (Machine, Map<Seq<char>, Seq<char>>),
    s: CaptureStep,
    k: int,
)
    requires
        1 <= k <= plat.login@.len(),
        plat.login@[k - 1] is Registry,
        capture_step_for(s, plat.login@[k - 1], dir),
        at(m0.registry, reg_of(plat.login@[k - 1], x)) is Some,
        prev.0.registry == m0.registry,
        forall|i: int|
            0 <= i < k - 1 && (#[trigger] plat.login@[i]) is Registry ==> at(prev.1, saved_of(plat.login@[i])) == at(
                m0.registry,
                reg_of(plat.login@[i], x),
            ),
        forall|m: Seq<char>|
            (forall|i: int|
                0 <= i < k - 1 && (#[trigger] plat.login@[i]) is Registry ==> saved_of(plat.login@[i]) != m)
                ==> at(prev.1, m) is None,
        forall|i: int|
            0 <= i < k - 1 && (#[trigger] plat.login@[i]) is Registry && saved_of(plat.login@[i]) == saved_of(
                plat.login@[k - 1],
            ) ==> reg_of(plat.login@[i], x) == reg_of(plat.login@[k - 1], x),
    ensures
        forall|i: int|
            0 <= i < k && (#[trigger] plat.login@[i]) is Registry ==> at(
                capture_effect(prev, s, x).1,
                saved_of(plat.login@[i]),
            ) == at(m0.registry, reg_of(plat.login@[i], x)),
        forall|m: Seq<char>|
            (forall|i: int|
                0 <= i < k && (#[trigger] plat.login@[i]) is Registry ==> saved_of(plat.login@[i]) != m)
                ==> at(capture_effect(prev, s, x).1, m) is None,
{
    let a = plat.login@[k - 1];
    let nm = saved_of(a);
    let cur = capture_effect(prev, s, x);
    assert(cur.1 == prev.1.insert(nm, at(m0.registry, reg_of(a, x)).unwrap()));
    assert forall|i: int| 0 <= i < k && (#[trigger] plat.login@[i]) is Registry implies at(
        cur.1,
        saved_of(plat.login@[i]),
    ) == at(m0.registry, reg_of(plat.login@[i], x)) by {
    }
    assert forall|m: Seq<char>|
        (forall|i: int|
            0 <= i < k && (#[trigger] plat.login@[i]) is Registry ==> saved_of(plat.login@[i]) != m)
            implies at(cur.1, m) is None by {
        assert(plat.login@[k - 1] is Registry);
        assert(nm != m);
        assert(cur.1.dom().contains(m) == prev.1.dom().contains(m));
        assert forall|i: int|
            0 <= i < k - 1 && (#[trigger] plat.login@[i]) is Registry implies saved_of(plat.login@[i]) != m by {}
        assert(at(prev.1, m) is None);
    }
}

proof fn lemma_capture_run(
    plat: PlatformDef,
    dir: Seq<char>,
    x: spec_fn(Seq<char>) -> Seq<char>,
    steps: Seq<CaptureStep>,
    m0: Machine,
    k: int,
)
    requires
        is_capture_plan(plat, dir, steps),
        0 <= k <= steps.len(),
        saved_copies_apart(plat, dir, x),
        saved_names_agree(plat, x),
    ensures
        capture_inv(plat, dir, x, m0, captured(m0, steps, k, x), k),
    decreases k,
{
    if k == 0 {
        assert(steps.take(0) =~= Seq::<CaptureStep>::empty());
    } else {
        lemma_capture_run(plat, dir, x, steps, m0, k - 1);
        let t = steps.take(k);
        assert(t.drop_last() =~= steps.take(k - 1));
        assert(t.last() == steps[k - 1]);
        assert(captured(m0, steps, k, x) == capture_effect(captured(m0, steps, k - 1, x), steps[k - 1], x));
        assert(capture_step_for(steps[k - 1], plat.login@[k - 1], dir));
        if plat.login@[k - 1] is File {
            lemma_capture_file_step(plat, dir, x, m0, captured(m0, steps, k - 1, x), steps[k - 1], k);
        } else {
            let prev = captured(m0, steps, k - 1, x);
            lemma_capture_reg_paths(plat, dir, x, m0, prev, steps[k - 1], k);
            if at(m0.registry, reg_of(plat.login@[k - 1], x)) is None {
                lemma_capture_reg_absent(plat, dir, x, m0, prev, steps[k - 1], k);
            } else {
                assert forall|i: int|
                    0 <= i < k - 1 && (#[trigger] plat.login@[i]) is Registry && saved_of(plat.login@[i])
                        == saved_of(plat.login@[k - 1]) implies reg_of(plat.login@[i], x) == reg_of(
                    plat.login@[k - 1],
                    x,
                ) by {
                    assert(plat.login@[k - 1] is Registry);
                }
                lemma_capture_reg_present(plat, dir, x, m0, prev, steps[k - 1], k);
            }
        }
    }
}

/// After restoring the first `k` artifacts onto `m3`: each of their live
/// paths and registry values is as on `m0`, and everything else as on `m3`.
spec fn restore_inv(
    plat: PlatformDef,
    x: spec_fn(Seq<char>) -> Seq<char>,
    m0: Machine,
    m3: Machine,
    mk: Machine,
    k: int,
) -> bool {
    &&& forall|p: Seq<char>|
        (forall|i: int| 0 <= i < k && (#[trigger] plat.login@[i]) is File ==> x(live_of(plat.login@[i])) != p)
            ==> at(mk.paths, p) == at(m3.paths, p)
    &&& forall|i: int|
        0 <= i < k && (#[trigger] plat.login@[i]) is File ==> at(mk.paths, x(live_of(plat.login@[i]))) == at(
            m0.paths,
            x(live_of(plat.login@[i])),
        )
    &&& forall|r: (Seq<char>, Seq<char>)|
        (forall|i: int| 0 <= i < k && (#[trigger] plat.login@[i]) is Registry ==> reg_of(plat.login@[i], x) != r)
            ==> at(mk.registry, r) == at(m3.registry, r)
    &&& forall|i: int|
        0 <= i < k && (#[trigger] plat.login@[i]) is Registry ==> at(mk.registry, reg_of(plat.login@[i], x))
            == at(m0.registry, reg_of(plat.login@[i], x))
}

/// What a restore needs of the machine it starts from: each saved copy holds
/// its live path's state on `m0` and each saved registry name its value's,
/// while the live paths and values themselves are cleared.
spec fn ready_to_restore(
    plat: PlatformDef,
    dir: Seq<char>,
    snapshot: Seq<(Seq<char>, Seq<char>)>,
    x: spec_fn(Seq<char>) -> Seq<char>,
    m0: Machine,
    m3: Machine,
) -> bool {
    &&& forall|i: int|
        0 <= i < plat.login@.len() && (#[trigger] plat.login@[i]) is File ==> at(
            m3.paths,
            saved_copy(dir, plat.login@[i]),
        ) == at(m0.paths, x(live_of(plat.login@[i]))) && at(m3.paths, x(live_of(plat.login@[i]))) is None
    &&& forall|i: int|
        0 <= i < plat.login@.len() && (#[trigger] plat.login@[i]) is Registry ==> lookup_pair(
            snapshot,
            saved_of(plat.login@[i]),
            0,
        ) == at(m0.registry, reg_of(plat.login@[i], x)) && at(m3.registry, reg_of(plat.login@[i], x)) is None
}

#[verifier::rlimit(40)]
proof fn lemma_restore_file_step(
    plat: PlatformDef,
    dir: Seq<char>,
    snapshot: Seq<(Seq<char>, Seq<char>)>,
    x: spec_fn(Seq<char>) -> Seq<char>,
    m0: Machine,
    m3: Machine,
    mk: Machine,
    s: RestoreStep,
    k: int,
)
    requires
        0 <= k < plat.login@.len(),
        plat.login@[k] is File,
        restore_step_for(s, plat.login@[k], dir, snapshot),
        restore_inv(plat, x, m0, m3, mk, k),
        ready_to_restore(plat, dir, snapshot, x, m0, m3),
        saved_copies_apart(plat, dir, x),
    ensures
        restore_inv(plat, x, m0, m3, restore_effect(mk, s, x, x), k + 1),
{
    let a = plat.login@[k];
    let lv = x(live_of(a));
    let sc = saved_copy(dir, a);
    let nk = restore_effect(mk, s, x, x);
    assert forall|i: int| 0 <= i < k && (#[trigger] plat.login@[i]) is File implies x(live_of(plat.login@[i])) != sc by {}
    assert(at(mk.paths, sc) == at(m0.paths, lv));
    assert(nk.registry == mk.registry);
    if at(m0.paths, lv) is None {
        assert(nk == mk);
        if exists|j: int| 0 <= j < k && (#[trigger] plat.login@[j]) is File && x(live_of(plat.login@[j])) == lv {
            let j = choose|j: int| 0 <= j < k && (#[trigger] plat.login@[j]) is File && x(live_of(plat.login@[j])) == lv;
            assert(at(nk.paths, lv) == at(m0.paths, lv));
        } else {
            assert(at(nk.paths, lv) == at(m3.paths, lv));
        }
        assert forall|p: Seq<char>|
            (forall|i: int| 0 <= i < k + 1 && (#[trigger] plat.login@[i]) is File ==> x(live_of(plat.login@[i])) != p)
                implies at(nk.paths, p) == at(m3.paths, p) by {
            assert forall|i: int| 0 <= i < k && (#[trigger] plat.login@[i]) is File implies x(live_of(plat.login@[i])) != p by {}
        }
    } else {
        assert(nk.paths == mk.paths.insert(lv, at(m0.paths, lv).unwrap()));
        assert forall|p: Seq<char>|
            (forall|i: int| 0 <= i < k + 1 && (#[trigger] plat.login@[i]) is File ==> x(live_of(plat.login@[i])) != p)
                implies at(nk.paths, p) == at(m3.paths, p) by {
            assert(plat.login@[k] is File);
            assert(p != lv);
            assert forall|i: int| 0 <= i < k && (#[trigger] plat.login@[i]) is File implies x(live_of(plat.login@[i])) != p by {}
        }
    }
    assert forall|r: (Seq<char>, Seq<char>)|
        (forall|i: int| 0 <= i < k + 1 && (#[trigger] plat.login@[i]) is Registry ==> reg_of(plat.login@[i], x) != r)
            implies at(nk.registry, r) == at(m3.registry, r) by {
        assert forall|i: int| 0 <= i < k && (#[trigger] plat.login@[i]) is Registry implies reg_of(plat.login@[i], x) != r by {}
    }
}

#[verifier::rlimit(40)]
proof fn lemma_restore_reg_step(
    plat: PlatformDef,
    dir: Seq<char>,
    snapshot: Seq<(Seq<char>, Seq<char>)>,
    x: spec_fn(Seq<char>) -> Seq<char>,
    m0: Machine,
    m3: Machine,
    mk: Machine,
    s: RestoreStep,
    k: int,
)
    requires
        0 <= k < plat.login@.len(),
        plat.login@[k] is Registry,
        restore_step_for(s, plat.login@[k], dir, snapshot),
        restore_inv(plat, x, m0, m3, mk, k),
        ready_to_restore(plat, dir, snapshot, x, m0, m3),
    ensures
        restore_inv(plat, x, m0, m3, restore_effect(mk, s, x, x), k + 1),
{
    let a = plat.login@[k];
    let rv = reg_of(a, x);
    let nk = restore_effect(mk, s, x, x);
    assert(nk.paths == mk.paths);
    if at(m0.registry, rv) is None {
        assert(nk == mk);
        if exists|j: int| 0 <= j < k && (#[trigger] plat.login@[j]) is Registry && reg_of(plat.login@[j], x) == rv {
            let j = choose|j: int| 0 <= j < k && (#[trigger] plat.login@[j]) is Registry && reg_of(plat.login@[j], x) == rv;
            assert(at(nk.registry, rv) == at(m0.registry, rv));
        } else {
            assert(at(nk.registry, rv) == at(m3.registry, rv));
        }
        assert forall|r: (Seq<char>, Seq<char>)|
            (forall|i: int| 0 <= i < k + 1 && (#[trigger] plat.login@[i]) is Registry ==> reg_of(plat.login@[i], x) != r)
                implies at(nk.registry, r) == at(m3.registry, r) by {
            assert forall|i: int| 0 <= i < k && (#[trigger] plat.login@[i]) is Registry implies reg_of(plat.login@[i], x) != r by {}
        }
    } else {
        assert(nk.registry == mk.registry.insert(rv, at(m0.registry, rv).unwrap()));
        assert forall|r: (Seq<char>, Seq<char>)|
            (forall|i: int| 0 <= i < k + 1 && (#[trigger] plat.login@[i]) is Registry ==> reg_of(plat.login@[i], x) != r)
                implies at(nk.registry, r) == at(m3.registry, r) by {
            assert(plat.login@[k] is Registry);
            assert(r != rv);
            assert forall|i: int| 0 <= i < k && (#[trigger] plat.login@[i]) is Registry implies reg_of(plat.login@[i], x) != r by {}
        }
    }
    assert forall|p: Seq<char>|
        (forall|i: int| 0 <= i < k + 1 && (#[trigger] plat.login@[i]) is File ==> x(live_of(plat.login@[i])) != p)
            implies at(nk.paths, p) == at(m3.paths, p) by {
        assert forall|i: int| 0 <= i < k && (#[trigger] plat.login@[i]) is File implies x(live_of(plat.login@[i])) != p by {}
    }
}

proof fn lemma_restore_run(
    plat: PlatformDef,
    dir: Seq<char>,
    snapshot: Seq<(Seq<char>, Seq<char>)>,
    x: spec_fn(Seq<char>) -> Seq<char>,
    steps: Seq<RestoreStep>,
    m0: Machine,
    m3: Machine,
    k: int,
)
    requires
        is_restore_plan(plat, dir, snapshot, steps),
        0 <= k <= steps.len(),
        ready_to_restore(plat, dir, snapshot, x, m0, m3),
        saved_copies_apart(plat, dir, x),
    ensures
        restore_inv(plat, x, m0, m3, run_restore(m3, steps.take(k), x, x), k),
    decreases k,
{
    if k == 0 {
        assert(steps.take(0) =~= Seq::<RestoreStep>::empty());
    } else {
        lemma_restore_run(plat, dir, snapshot, x, steps, m0, m3, k - 1);
        let t = steps.take(k);
        assert(t.drop_last() =~= steps.take(k - 1));
        let prev = run_restore(m3, steps.take(k - 1), x, x);
        assert(run_restore(m3, t, x, x) == restore_effect(prev, steps[k - 1], x, x));
        assert(restore_step_for(steps[k - 1], plat.login@[k - 1], dir, snapshot));
        if plat.login@[k - 1] is File {
            lemma_restore_file_step(plat, dir, snapshot, x, m0, m3, prev, steps[k - 1], k - 1);
        } else {
            lemma_restore_reg_step(plat, dir, snapshot, x, m0, m3, prev, steps[k - 1], k - 1);
        }
    }
}

/// No step of the clearing of `plat` deletes a saved copy in `dir`.
proof fn lemma_clear_spares_saved_copies(
    plat: PlatformDef,
    dir: Seq<char>,
    x: spec_fn(Seq<char>) -> Seq<char>,
    clear: Seq<ClearStep>,
    i: int,
)
    requires
        is_clear_plan(plat, clear),
        saved_copies_apart(plat, dir, x),
        0 <= i < plat.login@.len(),
        plat.login@[i] is File,
    ensures
        forall|j: int| 0 <= j < clear.len() ==> !clears_path(#[trigger] clear[j], saved_copy(dir, plat.login@[i]), x),
{
    let n = plat.login@.len();
    let m = plat.clear@.len();
    let sc = saved_copy(dir, plat.login@[i]);
    assert forall|j: int| 0 <= j < clear.len() implies !clears_path(#[trigger] clear[j], sc, x) by {
        if j < n {
            assert(clear_step_for(clear[j], plat.login@[j]));
            if plat.login@[j] is File {
                assert(x(live_of(plat.login@[j])) != sc);
            }
        } else if j < n + m {
            assert(clear[n + (j - n)] == clear[j]);
            assert(x(plat.clear@[j - n]@) != sc);
        }
    }
}

/// Restoring a login after capturing it gives it back. Capture the login of
/// `plat` from machine `m0` into account folder `dir` and keep the registry
/// values it read as `snapshot`; later, on a machine `m2` on which nothing
/// else wrote the saved copies, clear the live login and restore it from
/// `dir` and `snapshot`. Every login artifact is then as on `m0`: one that
/// was present holds `m0`'s content, one that was absent is absent. Assumed
/// of the definition: no path its clearing deletes is a saved copy, and
/// artifacts saved under one name are one artifact.
pub proof fn law_restore_after_capture(
    plat: PlatformDef,
    dir: Seq<char>,
    x: spec_fn(Seq<char>) -> Seq<char>,
    capture: Seq<CaptureStep>,
    clear: Seq<ClearStep>,
    restore: Seq<RestoreStep>,
    snapshot: Seq<(Seq<char>, Seq<char>)>,
    m0: Machine,
    m2: Machine,
)
    requires
        is_capture_plan(plat, dir, capture),
        is_clear_plan(plat, clear),
        is_restore_plan(plat, dir, snapshot, restore),
        forall|nm: Seq<char>|
            #[trigger] lookup_pair(snapshot, nm, 0) == at(run_capture((m0, Map::empty()), capture, x).1, nm),
        forall|i: int|
            0 <= i < plat.login@.len() && (#[trigger] plat.login@[i]) is File ==> at(
                m2.paths,
                saved_copy(dir, plat.login@[i]),
            ) == at(run_capture((m0, Map::empty()), capture, x).0.paths, saved_copy(dir, plat.login@[i])),
        saved_copies_apart(plat, dir, x),
        saved_names_agree(plat, x),
    ensures
        forall|i: int|
            0 <= i < plat.login@.len() ==> same_artifact(
                run_restore(run_clear(m2, clear, x), restore, x, x),
                m0,
                #[trigger] plat.login@[i],
                x,
            ),
{
    let n = plat.login@.len();
    lemma_capture_run(plat, dir, x, capture, m0, n as int);
    assert(capture.take(n as int) =~= capture);
    let m1 = run_capture((m0, Map::empty()), capture, x);
    let m3 = run_clear(m2, clear, x);
    lemma_clear_run(m2, clear, x);
    assert forall|i: int| 0 <= i < n && (#[trigger] plat.login@[i]) is File implies at(
        m3.paths,
        saved_copy(dir, plat.login@[i]),
    ) == at(m0.paths, x(live_of(plat.login@[i]))) && at(m3.paths, x(live_of(plat.login@[i]))) is None by {
        lemma_clear_spares_saved_copies(plat, dir, x, clear, i);
        assert(clear_step_for(clear[i], plat.login@[i]));
        assert(clears_path(clear[i], x(live_of(plat.login@[i])), x));
    }
    assert forall|i: int| 0 <= i < n && (#[trigger] plat.login@[i]) is Registry implies lookup_pair(
        snapshot,
        saved_of(plat.login@[i]),
        0,
    ) == at(m0.registry, reg_of(plat.login@[i], x)) && at(m3.registry, reg_of(plat.login@[i], x)) is None by {
        assert(clear_step_for(clear[i], plat.login@[i]));
        assert(clears_value(clear[i], reg_of(plat.login@[i], x), x));
    }
    assert(ready_to_restore(plat, dir, snapshot, x, m0, m3));
    lemma_restore_run(plat, dir, snapshot, x, restore, m0, m3, n as int);
    assert(restore.take(n as int) =~= restore);
    assert forall|i: int| 0 <= i < n implies same_artifact(
        run_restore(m3, restore, x, x),
        m0,
        #[trigger] plat.login@[i],
        x,
    ) by {
        if plat.login@[i] is File {
        } else {
        }
    }
}

// ---- backup and rollback ---------------------------------------------------

proof fn lemma_decimal_len(a: nat)
    ensures
        decimal(a).len() >= 1,
        a >= 10 ==> decimal(a).len() >= 2,
    decreases a,
{
    if a >= 10 {
        lemma_decimal_len(a / 10);
    }
}

proof fn lemma_decimal_injective(a: nat, b: nat)
    ensures
        decimal(a) == decimal(b) ==> a == b,
    decreases a,
{
    lemma_decimal_len(a);
    lemma_decimal_len(b);
    if decimal(a) == decimal(b) {
        if a < 10 && b < 10 {
            assert(decimal(a)[0] == dec_digit(a));
            assert(decimal(b)[0] == dec_digit(b));
        } else if a >= 10 && b >= 10 {
            lemma_decimal_len(a / 10);
            assert(decimal(a).last() == dec_digit(a % 10));
            assert(decimal(b).last() == dec_digit(b % 10));
            assert(decimal(a).drop_last() == decimal(a / 10));
            assert(decimal(b).drop_last() == decimal(b / 10));
            lemma_decimal_injective(a / 10, b / 10);
        } else {
            lemma_decimal_len(a / 10);
            lemma_decimal_len(b / 10);
        }
    }
}

proof fn lemma_backup_rel_injective(a: nat, b: nat)
    ensures
        backup_rel(a) == backup_rel(b) ==> a == b,
{
    if backup_rel(a) == backup_rel(b) {
        assert(backup_rel(a).skip(1) =~= decimal(a));
        assert(backup_rel(b).skip(1) =~= decimal(b));
        lemma_decimal_injective(a, b);
    }
}

proof fn lemma_files_before_step(login: Seq<LoginArtifact>, i: int)
    requires
        0 <= i < login.len(),
    ensures
        files_before(login, i + 1) == files_before(login, i) + if login[i] is File {
            1nat
        } else {
            0nat
        },
{
}

proof fn lemma_files_before_mono(login: Seq<LoginArtifact>, a: int, b: int)
    requires
        0 <= a <= b <= login.len(),
    ensures
        files_before(login, a) <= files_before(login, b),
    decreases b - a,
{
    if a < b {
        lemma_files_before_mono(login, a, b - 1);
        lemma_files_before_step(login, b - 1);
    }
}

/// The copy number of step `k` of the backup plan of `plat`.
spec fn copy_number(plat: PlatformDef, k: int) -> nat {
    let n = plat.login@.len();
    let f = files_before(plat.login@, n as int);
    if k < n {
        files_before(plat.login@, k)
    } else {
        (f + (k - n)) as nat
    }
}

/// The copies of a backup plan go to distinct names.
proof fn lemma_backup_rels_distinct(plat: PlatformDef, backup: Seq<BackupStep>)
    requires
        is_backup_plan(plat, backup),
    ensures
        forall|i: int, j: int|
            #![trigger backup[i], backup[j]]
            0 <= i < j < backup.len() && backup[i] is CopyOut && backup[j] is CopyOut ==> backup[i]->rel@
                != backup[j]->rel@,
{
    let n = plat.login@.len();
    let m = plat.clear@.len();
    let f = files_before(plat.login@, n as int);
    assert forall|k: int| 0 <= k < backup.len() && (#[trigger] backup[k]) is CopyOut implies backup[k]->rel@
        == backup_rel(copy_number(plat, k)) by {
        if k < n {
            assert(backup_step_for(backup[k], plat.login@[k], files_before(plat.login@, k)));
        } else if k < n + m {
            assert(backup[n + (k - n)] == backup[k]);
        }
    }
    assert forall|i: int, j: int|
        #![trigger backup[i], backup[j]]
        0 <= i < j < backup.len() && backup[i] is CopyOut && backup[j] is CopyOut implies backup[i]->rel@
        != backup[j]->rel@ by {
        if i < n {
            assert(backup_step_for(backup[i], plat.login@[i], files_before(plat.login@, i)));
            assert(plat.login@[i] is File);
            lemma_files_before_step(plat.login@, i);
            if j < n {
                lemma_files_before_mono(plat.login@, i + 1, j);
            } else {
                lemma_files_before_mono(plat.login@, i + 1, n as int);
            }
        }
        assert(copy_number(plat, i) < copy_number(plat, j));
        lemma_backup_rel_injective(copy_number(plat, i), copy_number(plat, j));
    }
}

/// A backup step on a machine: a present live path is copied into the backup
/// folder `bdir` under the step's name; a registry read changes nothing.
pub open spec fn backup_effect(m: Machine, s: BackupStep, bdir: Seq<char>, x: spec_fn(Seq<char>) -> Seq<char>) -> Machine {
    match s {
        BackupStep::CopyOut { live, rel } => match at(m.paths, x(live@)) {
            Some(c) => Machine { paths: m.paths.insert(join_path(bdir, rel@), c), registry: m.registry },
            None => m,
        },
        BackupStep::ReadRegistry { .. } => m,
    }
}

/// The backup steps `s` run in order.
pub open spec fn run_backup(m: Machine, s: Seq<BackupStep>, bdir: Seq<char>, x: spec_fn(Seq<char>) -> Seq<char>) -> Machine
    decreases s.len(),
{
    if s.len() == 0 {
        m
    } else {
        backup_effect(run_backup(m, s.drop_last(), bdir, x), s.last(), bdir, x)
    }
}

/// `item` is what backup step `s` records on machine `m`: the expanded live
/// path and the copy's name, or the registry value's data (`None` when absent).
pub open spec fn records(item: BackupItem, s: BackupStep, m: Machine, x: spec_fn(Seq<char>) -> Seq<char>) -> bool {
    match (item, s) {
        (BackupItem::File { live, rel }, BackupStep::CopyOut { live: l, rel: r }) => live@ == x(l@) && rel@ == r@,
        (BackupItem::Registry { key, value, data }, BackupStep::ReadRegistry { key: k, value: v }) => key@ == k@
            && value@ == v@ && opt_view(data) == at(m.registry, (x(k@), v@)),
        _ => false,
    }
}

/// The expanded live path a backup step copies.
pub open spec fn step_live(s: BackupStep, x: spec_fn(Seq<char>) -> Seq<char>) -> Seq<char> {
    match s {
        BackupStep::CopyOut { live, .. } => x(live@),
        BackupStep::ReadRegistry { .. } => Seq::empty(),
    }
}

/// Where a backup step's copy lives in the backup folder `bdir`.
pub open spec fn step_copy(s: BackupStep, bdir: Seq<char>) -> Seq<char> {
    match s {
        BackupStep::CopyOut { rel, .. } => join_path(bdir, rel@),
        BackupStep::ReadRegistry { .. } => Seq::empty(),
    }
}

/// The registry value (key expanded) a backup step reads.
pub open spec fn step_value(s: BackupStep, x: spec_fn(Seq<char>) -> Seq<char>) -> (Seq<char>, Seq<char>) {
    match s {
        BackupStep::ReadRegistry { key, value } => (x(key@), value@),
        BackupStep::CopyOut { .. } => (Seq::empty(), Seq::empty()),
    }
}

/// What backup step `s` covers is in the same state on `m` and `n`.
pub open spec fn same_backed_up(m: Machine, n: Machine, s: BackupStep, x: spec_fn(Seq<char>) -> Seq<char>) -> bool {
    match s {
        BackupStep::CopyOut { .. } => at(m.paths, step_live(s, x)) == at(n.paths, step_live(s, x)),
        BackupStep::ReadRegistry { .. } => at(m.registry, step_value(s, x)) == at(n.registry, step_value(s, x)),
    }
}

/// Step `k` of the clearing deletes exactly what step `k` of the backup covers.
proof fn lemma_clear_matches_backup(
    plat: PlatformDef,
    backup: Seq<BackupStep>,
    clear: Seq<ClearStep>,
    x: spec_fn(Seq<char>) -> Seq<char>,
)
    requires
        is_backup_plan(plat, backup),
        is_clear_plan(plat, clear),
    ensures
        clear.len() == backup.len(),
        forall|k: int|
            0 <= k < backup.len() ==> (#[trigger] backup[k] is CopyOut ==> clears_path(clear[k], step_live(backup[k], x), x))
                && (backup[k] is ReadRegistry ==> clears_value(clear[k], step_value(backup[k], x), x)),
        forall|k: int, p: Seq<char>|
            0 <= k < backup.len() && #[trigger] clears_path(clear[k], p, x) ==> backup[k] is CopyOut && p
                == step_live(backup[k], x),
        forall|k: int, r: (Seq<char>, Seq<char>)|
            0 <= k < backup.len() && #[trigger] clears_value(clear[k], r, x) ==> backup[k] is ReadRegistry && r
                == step_value(backup[k], x),
{
    let n = plat.login@.len();
    let m = plat.clear@.len();
    assert forall|k: int| 0 <= k < backup.len() implies (#[trigger] backup[k] is CopyOut ==> clears_path(
        clear[k],
        step_live(backup[k], x),
        x,
    )) && (backup[k] is ReadRegistry ==> clears_value(clear[k], step_value(backup[k], x), x)) && (forall|p: Seq<char>|
        #[trigger] clears_path(clear[k], p, x) ==> backup[k] is CopyOut && p == step_live(backup[k], x)) && (forall|
        r: (Seq<char>, Seq<char>),
    | #[trigger] clears_value(clear[k], r, x) ==> backup[k] is ReadRegistry && r == step_value(backup[k], x)) by {
        if k < n {
            assert(backup_step_for(backup[k], plat.login@[k], files_before(plat.login@, k)));
            assert(clear_step_for(clear[k], plat.login@[k]));
        } else if k < n + m {
            assert(backup[n + (k - n)] == backup[k]);
            assert(clear[n + (k - n)] == clear[k]);
        }
    }
}

/// After the first `k` backup steps from `m0`: the registry and the paths
/// other than their copies are as on `m0`, and each copy holds its live
/// path's state on `m0`.
spec fn backup_inv(
    backup: Seq<BackupStep>,
    bdir: Seq<char>,
    x: spec_fn(Seq<char>) -> Seq<char>,
    m0: Machine,
    mk: Machine,
    k: int,
) -> bool {
    &&& mk.registry == m0.registry
    &&& forall|p: Seq<char>|
        (forall|i: int| 0 <= i < k && (#[trigger] backup[i]) is CopyOut ==> step_copy(backup[i], bdir) != p)
            ==> at(mk.paths, p) == at(m0.paths, p)
    &&& forall|i: int|
        0 <= i < k && (#[trigger] backup[i]) is CopyOut ==> at(mk.paths, step_copy(backup[i], bdir)) == at(
            m0.paths,
            step_live(backup[i], x),
        )
}

/// The backup folder is fresh on `m0`, and no live path a backup copies is a
/// copy's place in it.
pub open spec fn backup_folder_apart(
    backup: Seq<BackupStep>,
    bdir: Seq<char>,
    x: spec_fn(Seq<char>) -> Seq<char>,
    m0: Machine,
) -> bool {
    &&& forall|j: int|
        0 <= j < backup.len() && (#[trigger] backup[j]) is CopyOut ==> !m0.paths.dom().contains(
            step_copy(backup[j], bdir),
        )
    &&& forall|i: int, j: int|
        #![trigger backup[i], backup[j]]
        0 <= i < backup.len() && 0 <= j < backup.len() && backup[i] is CopyOut && backup[j] is CopyOut ==> step_live(
            backup[i],
            x,
        ) != step_copy(backup[j], bdir)
}

#[verifier::rlimit(40)]
proof fn lemma_backup_run(
    plat: PlatformDef,
    backup: Seq<BackupStep>,
    bdir: Seq<char>,
    x: spec_fn(Seq<char>) -> Seq<char>,
    m0: Machine,
    k: int,
)
    requires
        is_backup_plan(plat, backup),
        0 <= k <= backup.len(),
        backup_folder_apart(backup, bdir, x, m0),
    ensures
        backup_inv(backup, bdir, x, m0, run_backup(m0, backup.take(k), bdir, x), k),
    decreases k,
{
    if k == 0 {
        assert(backup.take(0) =~= Seq::<BackupStep>::empty());
    } else {
        lemma_backup_run(plat, backup, bdir, x, m0, k - 1);
        lemma_backup_rels_distinct(plat, backup);
        let t = backup.take(k);
        assert(t.drop_last() =~= backup.take(k - 1));
        let prev = run_backup(m0, backup.take(k - 1), bdir, x);
        let cur = backup_effect(prev, backup[k - 1], bdir, x);
        assert(run_backup(m0, t, bdir, x) == cur);
        let s = backup[k - 1];
        if s is CopyOut {
            let c = step_copy(s, bdir);
            let l = step_live(s, x);
            assert forall|i: int| 0 <= i < k - 1 && (#[trigger] backup[i]) is CopyOut implies step_copy(backup[i], bdir)
                != l by {}
            assert forall|i: int| 0 <= i < k - 1 && (#[trigger] backup[i]) is CopyOut implies step_copy(backup[i], bdir)
                != c by {
                lemma_join_injective(bdir, backup[i]->rel@, s->rel@);
            }
            assert(at(prev.paths, l) == at(m0.paths, l));
            assert(at(prev.paths, c) == at(m0.paths, c));
            assert forall|p: Seq<char>|
                (forall|i: int| 0 <= i < k && (#[trigger] backup[i]) is CopyOut ==> step_copy(backup[i], bdir) != p)
                    implies at(cur.paths, p) == at(m0.paths, p) by {
                assert(backup[k - 1] is CopyOut);
                assert forall|i: int| 0 <= i < k - 1 && (#[trigger] backup[i]) is CopyOut implies step_copy(
                    backup[i],
                    bdir,
                ) != p by {}
            }
        } else {
            assert(cur == prev);
            assert forall|p: Seq<char>|
                (forall|i: int| 0 <= i < k && (#[trigger] backup[i]) is CopyOut ==> step_copy(backup[i], bdir) != p)
                    implies at(cur.paths, p) == at(m0.paths, p) by {
                assert forall|i: int| 0 <= i < k - 1 && (#[trigger] backup[i]) is CopyOut implies step_copy(
                    backup[i],
                    bdir,
                ) != p by {}
            }
        }
    }
}

/// After rolling back the first `k` items onto `m3`: what their backup steps
/// covered is as on `m0`, and everything else as on `m3`.
spec fn rollback_inv(
    backup: Seq<BackupStep>,
    x: spec_fn(Seq<char>) -> Seq<char>,
    m0: Machine,
    m3: Machine,
    mk: Machine,
    k: int,
) -> bool {
    &&& forall|p: Seq<char>|
        (forall|i: int| 0 <= i < k && (#[trigger] backup[i]) is CopyOut ==> step_live(backup[i], x) != p) ==> at(
            mk.paths,
            p,
        ) == at(m3.paths, p)
    &&& forall|i: int|
        0 <= i < k && (#[trigger] backup[i]) is CopyOut ==> at(mk.paths, step_live(backup[i], x)) == at(
            m0.paths,
            step_live(backup[i], x),
        )
    &&& forall|r: (Seq<char>, Seq<char>)|
        (forall|i: int| 0 <= i < k && (#[trigger] backup[i]) is ReadRegistry ==> step_value(backup[i], x) != r)
            ==> at(mk.registry, r) == at(m3.registry, r)
    &&& forall|i: int|
        0 <= i < k && (#[trigger] backup[i]) is ReadRegistry ==> at(mk.registry, step_value(backup[i], x)) == at(
            m0.registry,
            step_value(backup[i], x),
        )
}

/// What a rollback needs of the machine it starts from: each copy holds its
/// live path's state on `m0`, each item the registry value's data on `m0`,
/// and what the backup covered is cleared.
spec fn ready_to_roll_back(
    backup: Seq<BackupStep>,
    items: Seq<BackupItem>,
    bdir: Seq<char>,
    x: spec_fn(Seq<char>) -> Seq<char>,
    m0: Machine,
    m3: Machine,
) -> bool {
    &&& items.len() == backup.len()
    &&& forall|k: int| 0 <= k < backup.len() ==> records(#[trigger] items[k], backup[k], m0, x)
    &&& forall|k: int|
        0 <= k < backup.len() && (#[trigger] backup[k]) is CopyOut ==> at(m3.paths, step_copy(backup[k], bdir))
            == at(m0.paths, step_live(backup[k], x)) && at(m3.paths, step_live(backup[k], x)) is None
    &&& forall|k: int|
        0 <= k < backup.len() && (#[trigger] backup[k]) is ReadRegistry ==> at(m3.registry, step_value(backup[k], x))
            is None
    &&& forall|i: int, j: int|
        #![trigger backup[i], backup[j]]
        0 <= i < backup.len() && 0 <= j < backup.len() && backup[i] is CopyOut && backup[j] is CopyOut ==> step_live(
            backup[i],
            x,
        ) != step_copy(backup[j], bdir)
}

#[verifier::rlimit(60)]
proof fn lemma_rollback_step(
    backup: Seq<BackupStep>,
    items: Seq<BackupItem>,
    bdir: Seq<char>,
    x: spec_fn(Seq<char>) -> Seq<char>,
    xp: spec_fn(Seq<char>) -> Seq<char>,
    m0: Machine,
    m3: Machine,
    mk: Machine,
    s: RestoreStep,
    k: int,
)
    requires
        0 <= k < backup.len(),
        forall|p: Seq<char>| #[trigger] xp(p) == p,
        rollback_step_for(s, items[k], bdir),
        rollback_inv(backup, x, m0, m3, mk, k),
        ready_to_roll_back(backup, items, bdir, x, m0, m3),
    ensures
        rollback_inv(backup, x, m0, m3, restore_effect(mk, s, xp, x), k + 1),
{
    let b = backup[k];
    let nk = restore_effect(mk, s, xp, x);
    assert(records(items[k], b, m0, x));
    if b is CopyOut {
        let l = step_live(b, x);
        let c = step_copy(b, bdir);
        assert(s matches RestoreStep::CopyFromSaved { saved, live } && saved@ == c && xp(live@) == l);
        assert forall|i: int| 0 <= i < k && (#[trigger] backup[i]) is CopyOut implies step_live(backup[i], x) != c by {}
        assert(at(mk.paths, c) == at(m0.paths, l));
        assert(nk.registry == mk.registry);
        if at(m0.paths, l) is None {
            assert(nk == mk);
            if exists|j: int| 0 <= j < k && (#[trigger] backup[j]) is CopyOut && step_live(backup[j], x) == l {
                let j = choose|j: int| 0 <= j < k && (#[trigger] backup[j]) is CopyOut && step_live(backup[j], x) == l;
                assert(at(nk.paths, l) == at(m0.paths, l));
            } else {
                assert(at(nk.paths, l) == at(m3.paths, l));
            }
            assert forall|p: Seq<char>|
                (forall|i: int| 0 <= i < k + 1 && (#[trigger] backup[i]) is CopyOut ==> step_live(backup[i], x) != p)
                    implies at(nk.paths, p) == at(m3.paths, p) by {
                assert forall|i: int| 0 <= i < k && (#[trigger] backup[i]) is CopyOut implies step_live(backup[i], x)
                    != p by {}
            }
        } else {
            assert(nk.paths == mk.paths.insert(l, at(m0.paths, l).unwrap()));
            assert forall|p: Seq<char>|
                (forall|i: int| 0 <= i < k + 1 && (#[trigger] backup[i]) is CopyOut ==> step_live(backup[i], x) != p)
                    implies at(nk.paths, p) == at(m3.paths, p) by {
                assert(backup[k] is CopyOut);
                assert(p != l);
                assert forall|i: int| 0 <= i < k && (#[trigger] backup[i]) is CopyOut implies step_live(backup[i], x)
                    != p by {}
            }
        }
        assert forall|r: (Seq<char>, Seq<char>)|
            (forall|i: int| 0 <= i < k + 1 && (#[trigger] backup[i]) is ReadRegistry ==> step_value(backup[i], x) != r)
                implies at(nk.registry, r) == at(m3.registry, r) by {
            assert forall|i: int| 0 <= i < k && (#[trigger] backup[i]) is ReadRegistry implies step_value(backup[i], x)
                != r by {}
        }
    } else {
        let rv = step_value(b, x);
        assert(nk.paths == mk.paths);
        if at(m0.registry, rv) is None {
            assert(nk == mk);
            if exists|j: int| 0 <= j < k && (#[trigger] backup[j]) is ReadRegistry && step_value(backup[j], x) == rv {
                let j = choose|j: int|
                    0 <= j < k && (#[trigger] backup[j]) is ReadRegistry && step_value(backup[j], x) == rv;
                assert(at(nk.registry, rv) == at(m0.registry, rv));
            } else {
                assert(at(nk.registry, rv) == at(m3.registry, rv));
            }
            assert forall|r: (Seq<char>, Seq<char>)|
                (forall|i: int| 0 <= i < k + 1 && (#[trigger] backup[i]) is ReadRegistry ==> step_value(backup[i], x) != r)
                    implies at(nk.registry, r) == at(m3.registry, r) by {
                assert forall|i: int| 0 <= i < k && (#[trigger] backup[i]) is ReadRegistry implies step_value(
                    backup[i],
                    x,
                ) != r by {}
            }
        } else {
            assert(nk.registry == mk.registry.insert(rv, at(m0.registry, rv).unwrap()));
            assert forall|r: (Seq<char>, Seq<char>)|
                (forall|i: int| 0 <= i < k + 1 && (#[trigger] backup[i]) is ReadRegistry ==> step_value(backup[i], x) != r)
                    implies at(nk.registry, r) == at(m3.registry, r) by {
                assert(backup[k] is ReadRegistry);
                assert(r != rv);
                assert forall|i: int| 0 <= i < k && (#[trigger] backup[i]) is ReadRegistry implies step_value(
                    backup[i],
                    x,
                ) != r by {}
            }
        }
        assert forall|p: Seq<char>|
            (forall|i: int| 0 <= i < k + 1 && (#[trigger] backup[i]) is CopyOut ==> step_live(backup[i], x) != p)
                implies at(nk.paths, p) == at(m3.paths, p) by {
            assert forall|i: int| 0 <= i < k && (#[trigger] backup[i]) is CopyOut implies step_live(backup[i], x) != p by {}
        }
    }
}

proof fn lemma_rollback_run(
    backup: Seq<BackupStep>,
    items: Seq<BackupItem>,
    rollback: Seq<RestoreStep>,
    bdir: Seq<char>,
    x: spec_fn(Seq<char>) -> Seq<char>,
    xp: spec_fn(Seq<char>) -> Seq<char>,
    m0: Machine,
    m3: Machine,
    k: int,
)
    requires
        is_rollback_plan(items, bdir, rollback),
        0 <= k <= rollback.len(),
        forall|p: Seq<char>| #[trigger] xp(p) == p,
        ready_to_roll_back(backup, items, bdir, x, m0, m3),
    ensures
        rollback_inv(backup, x, m0, m3, run_restore(m3, rollback.take(k), xp, x), k),
    decreases k,
{
    if k == 0 {
        assert(rollback.take(0) =~= Seq::<RestoreStep>::empty());
    } else {
        lemma_rollback_run(backup, items, rollback, bdir, x, xp, m0, m3, k - 1);
        let t = rollback.take(k);
        assert(t.drop_last() =~= rollback.take(k - 1));
        let prev = run_restore(m3, rollback.take(k - 1), xp, x);
        assert(run_restore(m3, t, xp, x) == restore_effect(prev, rollback[k - 1], xp, x));
        assert(rollback_step_for(rollback[k - 1], items[k - 1], bdir));
        lemma_rollback_step(backup, items, bdir, x, xp, m0, m3, prev, rollback[k - 1], k - 1);
    }
}

/// Rolling back after a backup gives the backed-up state back. Back up the
/// live login of `plat` from machine `m0` into a fresh folder `bdir`,
/// recording `items`; later, on a machine `m2` on which nothing else wrote the
/// folder's copies, clear the live login and roll `items` back. Every login
/// artifact, extra `clear` path and generated-id marker is then as on `m0`:
/// one that was present holds `m0`'s content, one that was absent is absent
/// (files and registry values deleted). Assumed: no live path the backup
/// copies is the place of a copy in the folder.
pub proof fn law_rollback_after_backup(
    plat: PlatformDef,
    bdir: Seq<char>,
    x: spec_fn(Seq<char>) -> Seq<char>,
    backup: Seq<BackupStep>,
    items: Seq<BackupItem>,
    clear: Seq<ClearStep>,
    rollback: Seq<RestoreStep>,
    m0: Machine,
    m2: Machine,
)
    requires
        is_backup_plan(plat, backup),
        items.len() == backup.len(),
        forall|k: int| 0 <= k < backup.len() ==> records(#[trigger] items[k], backup[k], m0, x),
        is_clear_plan(plat, clear),
        is_rollback_plan(items, bdir, rollback),
        backup_folder_apart(backup, bdir, x, m0),
        forall|k: int|
            0 <= k < backup.len() && (#[trigger] backup[k]) is CopyOut ==> at(m2.paths, step_copy(backup[k], bdir))
                == at(run_backup(m0, backup, bdir, x).paths, step_copy(backup[k], bdir)),
    ensures
        ({
            let m4 = run_restore(run_clear(m2, clear, x), rollback, |p: Seq<char>| p, x);
            &&& forall|i: int|
                0 <= i < plat.login@.len() ==> same_artifact(m4, m0, #[trigger] plat.login@[i], x)
            &&& forall|j: int|
                0 <= j < plat.clear@.len() ==> at(m4.paths, x(#[trigger] plat.clear@[j]@)) == at(
                    m0.paths,
                    x(plat.clear@[j]@),
                )
            &&& (plat.unique_id matches UniqueId::GeneratedFile { file } ==> at(m4.paths, x(file@)) == at(
                m0.paths,
                x(file@),
            ))
        }),
{
    let n = plat.login@.len();
    let m = plat.clear@.len();
    let len = backup.len();
    let xp = |p: Seq<char>| p;
    lemma_backup_run(plat, backup, bdir, x, m0, len as int);
    assert(backup.take(len as int) =~= backup);
    let m1 = run_backup(m0, backup, bdir, x);
    let m3 = run_clear(m2, clear, x);
    lemma_clear_run(m2, clear, x);
    lemma_clear_matches_backup(plat, backup, clear, x);
    assert forall|k: int| 0 <= k < len && (#[trigger] backup[k]) is CopyOut implies at(
        m3.paths,
        step_copy(backup[k], bdir),
    ) == at(m0.paths, step_live(backup[k], x)) && at(m3.paths, step_live(backup[k], x)) is None by {
        let c = step_copy(backup[k], bdir);
        assert forall|j: int| 0 <= j < clear.len() implies !clears_path(#[trigger] clear[j], c, x) by {
            if clears_path(clear[j], c, x) {
                assert(backup[j] is CopyOut && c == step_live(backup[j], x));
            }
        }
        assert(clears_path(clear[k], step_live(backup[k], x), x));
    }
    assert forall|k: int| 0 <= k < len && (#[trigger] backup[k]) is ReadRegistry implies at(
        m3.registry,
        step_value(backup[k], x),
    ) is None by {
        assert(clears_value(clear[k], step_value(backup[k], x), x));
    }
    assert(ready_to_roll_back(backup, items, bdir, x, m0, m3));
    lemma_rollback_run(backup, items, rollback, bdir, x, xp, m0, m3, len as int);
    assert(rollback.take(len as int) =~= rollback);
    let m4 = run_restore(m3, rollback, xp, x);
    assert forall|k: int| 0 <= k < len implies same_backed_up(m4, m0, #[trigger] backup[k], x) by {
        if backup[k] is CopyOut {
        } else {
        }
    }
    assert forall|i: int| 0 <= i < n implies same_artifact(m4, m0, #[trigger] plat.login@[i], x) by {
        assert(backup_step_for(backup[i], plat.login@[i], files_before(plat.login@, i)));
        assert(same_backed_up(m4, m0, backup[i], x));
    }
    assert forall|j: int| 0 <= j < m implies at(m4.paths, x(#[trigger] plat.clear@[j]@)) == at(
        m0.paths,
        x(plat.clear@[j]@),
    ) by {
        assert(same_backed_up(m4, m0, backup[n + j], x));
    }
    if plat.unique_id is GeneratedFile {
        assert(same_backed_up(m4, m0, backup[(n + m) as int], x));
    }
}

} // verus!
