//! The reconciliation loop's decisions: coalescing a batch of change
//! notifications, classifying each distinct path, and dispatching mirror
//! operations and mapping reloads. The blocking receive-and-sleep cycle
//! itself cannot live here; it hands each debounced batch to `handle_event`
//! and reports the outcomes.

use vstd::prelude::*;

use crate::kpath::KPath;
use crate::kubo_manager::{KuboManager, Locked, config_path_spec};
use crate::kubo_config::{
    apply_mapping, loaded_from_mapping, mapping_ok, parse_mapping, read_file, toml_mapping,
    triples_to_entries, triples_view,
};
use crate::operations::{
    MirrorOutcome, copy_outcome_ok, copy_to_kubo, delete_from_kubo, delete_outcome_ok, path_exists,
};

verus! {

/// The kind of a filesystem change notification.
#[derive(Clone, Copy, Debug)]
pub enum EventKind {
    Modified,
    Removed,
    Other,
}

/// What processing one path of a batch did.
#[derive(Debug)]
pub enum Outcome {
    /// A mirror operation ran: what it did, with the location it acted on.
    Mirror(MirrorOutcome),
    /// The mapping file changed; the registry was rebuilt from it and the
    /// whole mirror resynced, with one copy outcome per reloaded entry.
    Reloaded(Vec<MirrorOutcome>),
    /// The mapping file changed but could not be reloaded; the previous
    /// mapping is kept untouched.
    ReloadFailed,
    /// The mapping file itself was removed: anomalous, nothing is done.
    MappingRemoved,
    /// Nothing to do for this path.
    Ignored,
}

/// An outcome a modification batch may produce: nothing is ever deleted
/// from the mirror by a modification.
pub open spec fn modified_outcome_shape(o: Outcome) -> bool {
    &&& !(o is MappingRemoved)
    &&& (o matches Outcome::Mirror(mo) ==> !(mo is Deleted) && !(mo is DeleteFailed))
}

/// An outcome a removal batch may produce: nothing is copied and no reload
/// happens on a removal.
pub open spec fn removed_outcome_shape(o: Outcome) -> bool {
    &&& !(o is Reloaded)
    &&& !(o is ReloadFailed)
    &&& (o matches Outcome::Mirror(mo) ==> !(mo is Copied) && !(mo is CopyFailed))
}

/// The byte strings held by a sequence of paths.
pub open spec fn paths_view(s: Seq<KPath>) -> Seq<Seq<u8>> {
    s.map_values(|p: KPath| p@)
}

/// The batch with duplicates coalesced: each path keeps its first
/// occurrence only.
pub open spec fn dedup_spec(s: Seq<Seq<u8>>) -> Seq<Seq<u8>>
    decreases s.len(),
{
    if s.len() == 0 {
        Seq::empty()
    } else {
        let rest = dedup_spec(s.drop_last());
        if rest.contains(s.last()) {
            rest
        } else {
            rest.push(s.last())
        }
    }
}

/// How often `p` occurs in `s`.
pub open spec fn count_of(s: Seq<Seq<u8>>, p: Seq<u8>) -> int
    decreases s.len(),
{
    if s.len() == 0 {
        0
    } else {
        count_of(s.drop_last(), p) + if s.last() == p {
            1int
        } else {
            0int
        }
    }
}

/// Coalescing keeps exactly the paths of the batch.
pub proof fn lemma_dedup_contains(s: Seq<Seq<u8>>, p: Seq<u8>)
    ensures
        dedup_spec(s).contains(p) == s.contains(p),
    decreases s.len(),
{
    if s.len() == 0 {
        assert(!s.contains(p));
        assert(!dedup_spec(s).contains(p));
    } else {
        let drop = s.drop_last();
        let rest = dedup_spec(drop);
        lemma_dedup_contains(drop, p);
        assert(forall|j: int| 0 <= j < drop.len() ==> drop[j] == s[j]);
        assert(s.contains(p) == (drop.contains(p) || s.last() == p)) by {
            if s.contains(p) {
                let j = choose|j: int| 0 <= j < s.len() && s[j] == p;
                if j < s.len() - 1 {
                    assert(drop[j] == p);
                }
            }
            if drop.contains(p) {
                let j = choose|j: int| 0 <= j < drop.len() && drop[j] == p;
                assert(s[j] == p);
            }
            if s.last() == p {
                assert(s[s.len() - 1] == p);
            }
        }
        if rest.contains(s.last()) {
            if s.last() == p {
                assert(rest.contains(p));
            }
        } else {
            let pushed = rest.push(s.last());
            assert(pushed.contains(p) == (rest.contains(p) || s.last() == p)) by {
                if pushed.contains(p) {
                    let j = choose|j: int| 0 <= j < pushed.len() && pushed[j] == p;
                    if j < rest.len() {
                        assert(rest[j] == p);
                    } else {
                        assert(pushed[rest.len() as int] == s.last());
                    }
                }
                if rest.contains(p) {
                    let j = choose|j: int| 0 <= j < rest.len() && rest[j] == p;
                    assert(pushed[j] == p);
                }
                if s.last() == p {
                    assert(pushed[rest.len() as int] == p);
                }
            }
        }
    }
}

/// A batch that holds a path, no matter how often, yields exactly one
/// processing slot for it after coalescing; a batch that does not hold it
/// yields none.
pub proof fn lemma_dedup_exactly_once(s: Seq<Seq<u8>>, p: Seq<u8>)
    ensures
        count_of(dedup_spec(s), p) == if s.contains(p) {
            1int
        } else {
            0int
        },
    decreases s.len(),
{
    if s.len() == 0 {
        assert(!s.contains(p));
    } else {
        let drop = s.drop_last();
        let rest = dedup_spec(drop);
        lemma_dedup_exactly_once(drop, p);
        lemma_dedup_contains(drop, p);
        assert(forall|j: int| 0 <= j < drop.len() ==> drop[j] == s[j]);
        assert(s.contains(p) == (drop.contains(p) || s.last() == p)) by {
            if s.contains(p) {
                let j = choose|j: int| 0 <= j < s.len() && s[j] == p;
                if j < s.len() - 1 {
                    assert(drop[j] == p);
                }
            }
            if drop.contains(p) {
                let j = choose|j: int| 0 <= j < drop.len() && drop[j] == p;
                assert(s[j] == p);
            }
            if s.last() == p {
                assert(s[s.len() - 1] == p);
            }
        }
        if rest.contains(s.last()) {
            lemma_dedup_contains(drop, s.last());
        } else {
            let pushed = rest.push(s.last());
            assert(pushed.drop_last() =~= rest);
            assert(pushed.last() == s.last());
        }
    }
}

/// Whether some element of `v` holds the same path bytes as `p`.
fn contains_path(v: &Vec<KPath>, p: &KPath) -> (r: bool)
    ensures
        r == paths_view(v@).contains(p@),
{
    let mut i: usize = 0;
    while i < v.len()
        invariant
            0 <= i <= v@.len(),
            forall|j: int| 0 <= j < i ==> (#[trigger] v@[j])@ != p@,
        decreases v@.len() - i,
    {
        if v[i].eq_path(p) {
            proof {
                assert(paths_view(v@)[i as int] == p@);
            }
            return true;
        }
        i = i + 1;
    }
    proof {
        if paths_view(v@).contains(p@) {
            let j = choose|j: int| 0 <= j < v@.len() && paths_view(v@)[j] == p@;
            assert(v@[j]@ == p@);
        }
    }
    false
}

/// Coalesces a batch of paths, keeping the first occurrence of each.
pub fn dedup_paths(paths: &Vec<KPath>) -> (r: Vec<KPath>)
    ensures
        paths_view(r@) =~= dedup_spec(paths_view(paths@)),
{
    let mut out: Vec<KPath> = Vec::new();
    let mut i: usize = 0;
    while i < paths.len()
        invariant
            0 <= i <= paths@.len(),
            paths_view(out@) =~= dedup_spec(paths_view(paths@).subrange(0, i as int)),
        decreases paths@.len() - i,
    {
        let in_out = contains_path(&out, &paths[i]);
        proof {
            let pre = paths_view(paths@).subrange(0, i as int);
            let cur = paths_view(paths@).subrange(0, i + 1);
            assert(cur.drop_last() =~= pre);
            assert(cur.last() == paths@[i as int]@);
        }
        if !in_out {
            out.push(paths[i].dup());
            proof {
                assert(paths_view(out@) =~= dedup_spec(paths_view(paths@).subrange(0, i + 1)));
            }
        } else {
            proof {
                assert(paths_view(out@) =~= dedup_spec(paths_view(paths@).subrange(0, i + 1)));
            }
        }
        i = i + 1;
    }
    proof {
        assert(paths_view(paths@).subrange(0, paths@.len() as int) =~= paths_view(paths@));
    }
    out
}

/// Rebuilds the registry from the mapping file, all or nothing: on any
/// failure (unreadable file, text that does not parse, unusable entry) the
/// previous mapping is kept untouched; on success the old entries are
/// discarded, the registry holds exactly the entries of the text that was
/// read, and the whole mirror is resynced, one copy outcome per entry.
pub fn reload(state: KuboManager<Locked>) -> (r: (KuboManager<Locked>, Outcome))
    requires
        state.wf(),
    ensures
        r.0.wf(),
        r.0@.root == state@.root,
        r.1 is Reloaded || r.1 is ReloadFailed,
        r.1 is ReloadFailed ==> r.0@ == state@,
        r.1 is Reloaded ==> loaded_from_mapping(
            Seq::<(Seq<u8>, Seq<u8>)>::empty(),
            r.0@.entries,
        ),
        r.1 matches Outcome::Reloaded(sync) ==> sync@.len() == r.0@.entries.len() && (forall|i: int|
            0 <= i < sync@.len() ==> copy_outcome_ok(
                r.0@,
                r.0@.entries[i].0,
                #[trigger] sync@[i],
            )),
{
    let cfg = state.config_path();
    let text = match read_file(&cfg) {
        Ok(t) => t,
        Err(_) => {
            return (state, Outcome::ReloadFailed);
        },
    };
    let triples = match parse_mapping(&text) {
        Ok(t) => t,
        Err(_) => {
            return (state, Outcome::ReloadFailed);
        },
    };
    if !mapping_ok(&triples) {
        return (state, Outcome::ReloadFailed);
    }
    let cleared = state.unlock().clear_paths();
    let relocked = apply_mapping(cleared, &triples);
    let (synced, report) = relocked.initial_copy();
    proof {
        assert(toml_mapping(text@).unwrap() == triples_view(triples@));
        assert(synced@.entries == Seq::<(Seq<u8>, Seq<u8>)>::empty() + triples_to_entries(
            toml_mapping(text@).unwrap(),
        ));
        assert(loaded_from_mapping(Seq::<(Seq<u8>, Seq<u8>)>::empty(), synced@.entries));
    }
    (synced, Outcome::Reloaded(report))
}

/// Decides and performs what one distinct path of a batch requires, given
/// the kind of the event and whether the path currently exists. Only a
/// modification of the mapping file changes the registry, and only when the
/// file reloads in full; everything else at most touches the mirror.
pub fn handle_one(state: KuboManager<Locked>, kind: EventKind, path: &KPath, exists: bool) -> (r: (
    KuboManager<Locked>,
    Outcome,
))
    requires
        state.wf(),
    ensures
        r.0.wf(),
        r.0@.root == state@.root,
        !(kind is Modified && exists && path@ == config_path_spec(state@.root)) ==> r.0@
            == state@,
        kind is Other ==> r.1 is Ignored,
        kind is Modified && !exists ==> r.1 is Ignored,
        kind is Modified && exists && path@ == config_path_spec(state@.root) ==> (r.1
            is Reloaded || r.1 is ReloadFailed) && (r.1 is ReloadFailed ==> r.0@ == state@),
        kind is Modified && exists && path@ != config_path_spec(state@.root) ==> (r.1 matches
            Outcome::Mirror(o) && copy_outcome_ok(state@, path@, o)),
        kind is Removed && exists ==> r.1 is Ignored,
        kind is Removed && !exists && path@ == config_path_spec(state@.root) ==> r.1
            is MappingRemoved,
        kind is Removed && !exists && path@ != config_path_spec(state@.root) ==> (r.1 matches
            Outcome::Mirror(o) && delete_outcome_ok(state@, path@, o)),
        kind is Modified ==> modified_outcome_shape(r.1),
        kind is Removed ==> removed_outcome_shape(r.1),
        !(r.1 is Reloaded) ==> r.0@ == state@,
        r.1 is Reloaded ==> loaded_from_mapping(
            Seq::<(Seq<u8>, Seq<u8>)>::empty(),
            r.0@.entries,
        ),
        r.1 matches Outcome::Reloaded(sync) ==> sync@.len() == r.0@.entries.len() && (forall|
            i: int,
        |
            0 <= i < sync@.len() ==> copy_outcome_ok(
                r.0@,
                r.0@.entries[i].0,
                #[trigger] sync@[i],
            )),
{
    match kind {
        EventKind::Other => (state, Outcome::Ignored),
        EventKind::Modified => {
            if !exists {
                return (state, Outcome::Ignored);
            }
            let cfg = state.config_path();
            if path.eq_path(&cfg) {
                reload(state)
            } else {
                let o = copy_to_kubo(path, &state);
                (state, Outcome::Mirror(o))
            }
        },
        EventKind::Removed => {
            if exists {
                return (state, Outcome::Ignored);
            }
            let cfg = state.config_path();
            if path.eq_path(&cfg) {
                (state, Outcome::MappingRemoved)
            } else {
                let o = delete_from_kubo(path, &state);
                (state, Outcome::Mirror(o))
            }
        },
    }
}

/// Processes one debounced batch of notifications of one kind: coalesces
/// the paths, then dispatches each distinct path once, in order. The mirror
/// root never changes, and a batch that does not touch the mapping file
/// leaves the registry exactly as it was.
pub fn handle_event(state: KuboManager<Locked>, kind: EventKind, paths: &Vec<KPath>) -> (r: (
    KuboManager<Locked>,
    Vec<(KPath, Outcome)>,
))
    requires
        state.wf(),
    ensures
        r.0.wf(),
        r.0@.root == state@.root,
        r.1@.map_values(|e: (KPath, Outcome)| e.0@) =~= dedup_spec(paths_view(paths@)),
        (forall|i: int|
            0 <= i < dedup_spec(paths_view(paths@)).len() ==> #[trigger] dedup_spec(
                paths_view(paths@),
            )[i] != config_path_spec(state@.root)) ==> r.0@ == state@,
        kind is Other ==> r.0@ == state@ && (forall|i: int|
            0 <= i < r.1@.len() ==> (#[trigger] r.1@[i]).1 is Ignored),
        kind is Modified ==> (forall|i: int|
            0 <= i < r.1@.len() ==> modified_outcome_shape((#[trigger] r.1@[i]).1)),
        kind is Removed ==> (forall|i: int|
            0 <= i < r.1@.len() ==> removed_outcome_shape((#[trigger] r.1@[i]).1)),
        (forall|i: int| 0 <= i < r.1@.len() ==> !((#[trigger] r.1@[i]).1 is Reloaded)) ==> r.0@
            == state@,
        (exists|i: int| 0 <= i < r.1@.len() && (#[trigger] r.1@[i]).1 is Reloaded)
            ==> loaded_from_mapping(Seq::<(Seq<u8>, Seq<u8>)>::empty(), r.0@.entries),
{
    let batch = dedup_paths(paths);
    let ghost dv = dedup_spec(paths_view(paths@));
    let mut s = state;
    let mut out: Vec<(KPath, Outcome)> = Vec::new();
    let mut i: usize = 0;
    while i < batch.len()
        invariant
            0 <= i <= batch@.len(),
            paths_view(batch@) =~= dv,
            s.wf(),
            s@.root == state@.root,
            out@.len() == i,
            forall|j: int| 0 <= j < i ==> (#[trigger] out@[j]).0@ == dv[j],
            (forall|j: int| 0 <= j < i ==> #[trigger] dv[j] != config_path_spec(state@.root))
                ==> s@ == state@,
            kind is Other ==> s@ == state@ && (forall|j: int|
                0 <= j < i ==> (#[trigger] out@[j]).1 is Ignored),
            kind is Modified ==> (forall|j: int|
                0 <= j < i ==> modified_outcome_shape((#[trigger] out@[j]).1)),
            kind is Removed ==> (forall|j: int|
                0 <= j < i ==> removed_outcome_shape((#[trigger] out@[j]).1)),
            (forall|j: int| 0 <= j < i ==> !((#[trigger] out@[j]).1 is Reloaded)) ==> s@
                == state@,
            (exists|j: int| 0 <= j < i && (#[trigger] out@[j]).1 is Reloaded)
                ==> loaded_from_mapping(Seq::<(Seq<u8>, Seq<u8>)>::empty(), s@.entries),
        decreases batch@.len() - i,
    {
        let p = batch[i].dup();
        proof {
            assert(p@ == paths_view(batch@)[i as int]);
        }
        let exists = path_exists(&p);
        let (ns, o) = handle_one(s, kind, &p, exists);
        let ghost old_out = out@;
        let ghost old_s = s@;
        let ghost ov = o;
        s = ns;
        out.push((p, o));
        proof {
            assert(forall|j: int| 0 <= j < i ==> out@[j] == old_out[j]);
            assert(out@[i as int].1 == ov);
            if forall|j: int| 0 <= j < i + 1 ==> !((#[trigger] out@[j]).1 is Reloaded) {
                assert forall|j: int| 0 <= j < i implies !((#[trigger] old_out[j]).1
                    is Reloaded) by {
                    assert(!(out@[j].1 is Reloaded));
                }
                assert(!(ov is Reloaded));
                assert(s@ == state@);
            }
            if exists|j: int| 0 <= j < i + 1 && (#[trigger] out@[j]).1 is Reloaded {
                let j = choose|j: int| 0 <= j < i + 1 && (#[trigger] out@[j]).1 is Reloaded;
                if j < i {
                    assert(old_out[j].1 is Reloaded);
                    assert(exists|k: int| 0 <= k < i && (#[trigger] old_out[k]).1 is Reloaded);
                }
                assert(loaded_from_mapping(Seq::<(Seq<u8>, Seq<u8>)>::empty(), s@.entries));
            }
        }
        i = i + 1;
    }
    proof {
        let firsts = out@.map_values(|e: (KPath, Outcome)| e.0@);
        assert forall|k: int| 0 <= k < firsts.len() implies firsts[k] == dv[k] by {}
        assert(firsts =~= dv);
    }
    (s, out)
}

/// With an unchanged registry model — what a failed reload leaves behind —
/// the watch set and every resolution are exactly what they were before
/// the event.
pub proof fn lemma_failed_reload_keeps_behavior(
    pre: crate::kubo_manager::RegModel,
    post: crate::kubo_manager::RegModel,
    p: Seq<u8>,
)
    requires
        post == pre,
    ensures
        crate::kubo_manager::watch_set_spec(post) == crate::kubo_manager::watch_set_spec(pre),
        crate::kubo_manager::resolve_spec(post, p) == crate::kubo_manager::resolve_spec(pre, p),
{
}

} // verus!
