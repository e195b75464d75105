//! The path registry: a typestate-guarded mapping from managed source paths
//! to their mirrored locations. While `Unlocked` the mapping may be changed;
//! while `Locked` it is read-only and resolution and mirroring are permitted.

use vstd::prelude::*;

use crate::kpath::{KPath, SEP, append_range, is_abs_path, is_path_prefix, is_seg, join_spec, last_sep};

verus! {

/// Marker for a read-only registry on which mirroring may run.
pub struct Locked;

/// Marker for a mutable registry on which mirroring may not run.
pub struct Unlocked;

/// The mathematical content of a registry: the ordered managed entries,
/// each a source path with its target label, and the mirror root path.
pub ghost struct RegModel {
    pub entries: Seq<(Seq<u8>, Seq<u8>)>,
    pub root: Seq<u8>,
}

/// Every source is an absolute path, every label a single segment, and the
/// mirror root is an absolute path.
pub open spec fn model_wf(m: RegModel) -> bool {
    &&& is_abs_path(m.root)
    &&& forall|i: int|
        0 <= i < m.entries.len() ==> is_abs_path(#[trigger] m.entries[i].0) && is_seg(
            m.entries[i].1,
        )
}

/// The first entry, in registration order, whose source path is a
/// component-wise prefix of `p`.
pub open spec fn first_match(entries: Seq<(Seq<u8>, Seq<u8>)>, p: Seq<u8>) -> Option<
    (Seq<u8>, Seq<u8>),
>
    decreases entries.len(),
{
    if entries.len() == 0 {
        None
    } else if is_path_prefix(entries[0].0, p) {
        Some(entries[0])
    } else {
        first_match(entries.drop_first(), p)
    }
}

/// The mirrored location of `p` under entry `e`: the target label's
/// directory under the mirror root, then the source's final segment, then
/// the remainder of `p` below the source.
pub open spec fn mirror_path(root: Seq<u8>, e: (Seq<u8>, Seq<u8>), p: Seq<u8>) -> Seq<u8> {
    root + seq![SEP] + e.1 + e.0.subrange(last_sep(e.0), e.0.len() as int) + p.subrange(
        e.0.len() as int,
        p.len() as int,
    )
}

/// Where `p` is mirrored, if any managed path is an ancestor of it.
pub open spec fn resolve_spec(m: RegModel, p: Seq<u8>) -> Option<Seq<u8>> {
    match first_match(m.entries, p) {
        None => None,
        Some(e) => Some(mirror_path(m.root, e, p)),
    }
}

/// The final segment of the mapping file's name, `kubo.toml`, as bytes.
pub open spec fn config_name() -> Seq<u8> {
    seq![107u8, 117u8, 98u8, 111u8, 46u8, 116u8, 111u8, 109u8, 108u8]
}

/// The final segment of the mirror root's name, `.kubo`, as bytes.
pub open spec fn kubo_dir_name() -> Seq<u8> {
    seq![46u8, 107u8, 117u8, 98u8, 111u8]
}

/// The path of the mapping file under the mirror root.
pub open spec fn config_path_spec(root: Seq<u8>) -> Seq<u8> {
    join_spec(root, config_name())
}

/// The paths the reconciliation loop watches: every managed source path,
/// then the mapping file itself.
pub open spec fn watch_set_spec(m: RegModel) -> Seq<Seq<u8>> {
    m.entries.map_values(|e: (Seq<u8>, Seq<u8>)| e.0).push(config_path_spec(m.root))
}

/// If no entry's source is an ancestor of `p`, nothing matches.
pub proof fn lemma_first_match_none(entries: Seq<(Seq<u8>, Seq<u8>)>, p: Seq<u8>)
    requires
        forall|j: int| 0 <= j < entries.len() ==> !is_path_prefix(#[trigger] entries[j].0, p),
    ensures
        first_match(entries, p) is None,
    decreases entries.len(),
{
    if entries.len() > 0 {
        assert(forall|j: int|
            0 <= j < entries.len() - 1 ==> entries.drop_first()[j] == entries[j + 1]);
        lemma_first_match_none(entries.drop_first(), p);
    }
}

/// If some entry's source is an ancestor of `p`, an entry matches.
pub proof fn lemma_first_match_some(entries: Seq<(Seq<u8>, Seq<u8>)>, p: Seq<u8>)
    requires
        exists|j: int| 0 <= j < entries.len() && is_path_prefix(#[trigger] entries[j].0, p),
    ensures
        first_match(entries, p) is Some,
    decreases entries.len(),
{
    if !is_path_prefix(entries[0].0, p) {
        let j = choose|j: int|
            0 <= j < entries.len() && is_path_prefix(#[trigger] entries[j].0, p);
        assert(forall|k: int|
            0 <= k < entries.len() - 1 ==> entries.drop_first()[k] == entries[k + 1]);
        assert(is_path_prefix(entries.drop_first()[j - 1].0, p));
        lemma_first_match_some(entries.drop_first(), p);
    }
}

/// Every managed source path resolves to a mirror location.
pub proof fn lemma_source_resolves(m: RegModel, i: int)
    requires
        model_wf(m),
        0 <= i < m.entries.len(),
    ensures
        resolve_spec(m, m.entries[i].0) is Some,
{
    crate::kpath::lemma_path_prefix_refl(m.entries[i].0);
    lemma_first_match_some(m.entries, m.entries[i].0);
}

/// If entry `i` matches `p` and no earlier entry does, entry `i` is the match.
pub proof fn lemma_first_match_at(entries: Seq<(Seq<u8>, Seq<u8>)>, p: Seq<u8>, i: int)
    requires
        0 <= i < entries.len(),
        is_path_prefix(entries[i].0, p),
        forall|j: int| 0 <= j < i ==> !is_path_prefix(#[trigger] entries[j].0, p),
    ensures
        first_match(entries, p) == Some(entries[i]),
    decreases entries.len(),
{
    if i > 0 {
        assert(forall|j: int|
            0 <= j < entries.len() - 1 ==> entries.drop_first()[j] == entries[j + 1]);
        lemma_first_match_at(entries.drop_first(), p, i - 1);
    }
}

/// Resolving a strict descendant of a managed source path yields the
/// source's own mirror location extended by the descendant's relative
/// suffix below the source — provided no earlier-registered entry also
/// covers the descendant, since earlier registrations win ties.
pub proof fn lemma_resolve_descendant(m: RegModel, i: int, p: Seq<u8>)
    requires
        model_wf(m),
        0 <= i < m.entries.len(),
        is_path_prefix(m.entries[i].0, p),
        p.len() > m.entries[i].0.len(),
        forall|j: int| 0 <= j < i ==> !is_path_prefix(#[trigger] m.entries[j].0, p),
    ensures
        resolve_spec(m, m.entries[i].0) is Some,
        resolve_spec(m, p) is Some,
        resolve_spec(m, p).unwrap() == resolve_spec(m, m.entries[i].0).unwrap() + p.subrange(
            m.entries[i].0.len() as int,
            p.len() as int,
        ),
{
    let src = m.entries[i].0;
    lemma_first_match_at(m.entries, p, i);
    assert forall|j: int| 0 <= j < i implies !is_path_prefix(#[trigger] m.entries[j].0, src) by {
        if is_path_prefix(m.entries[j].0, src) {
            crate::kpath::lemma_path_prefix_transitive(m.entries[j].0, src, p);
        }
    }
    crate::kpath::lemma_path_prefix_refl(src);
    lemma_first_match_at(m.entries, src, i);
    let base = m.root + seq![SEP] + m.entries[i].1 + src.subrange(last_sep(src), src.len() as int);
    assert(src.subrange(src.len() as int, src.len() as int) =~= Seq::<u8>::empty());
    assert(mirror_path(m.root, m.entries[i], src) =~= base);
    assert(resolve_spec(m, p).unwrap() == base + p.subrange(src.len() as int, p.len() as int));
}

/// Stores the managed source paths with their target labels and the mirror
/// root, guarded by a typestate that decides whether the mapping may change.
pub struct KuboManager<State> {
    paths: Vec<(KPath, Vec<u8>)>,
    kubo_dir: KPath,
    state: State,
}

impl<State> View for KuboManager<State> {
    type V = RegModel;

    closed spec fn view(&self) -> RegModel {
        RegModel {
            entries: self.paths@.map_values(|e: (KPath, Vec<u8>)| (e.0@, e.1@)),
            root: self.kubo_dir@,
        }
    }
}

impl KuboManager<Unlocked> {
    /// Creates a registry with no managed paths, whose mirror root is the
    /// `.kubo` directory under the given home directory.
    pub fn new(home: &KPath) -> (r: KuboManager<Unlocked>)
        requires
            home.wf(),
        ensures
            r@.entries =~= Seq::<(Seq<u8>, Seq<u8>)>::empty(),
            r@.root == join_spec(home@, kubo_dir_name()),
            r.wf(),
    {
        let mut seg: Vec<u8> = Vec::new();
        seg.push(46);
        seg.push(107);
        seg.push(117);
        seg.push(98);
        seg.push(111);
        proof {
            assert(seg@ =~= kubo_dir_name());
        }
        let r = KuboManager { paths: Vec::new(), kubo_dir: home.join_seg(&seg), state: Unlocked };
        proof {
            assert(r@.entries =~= Seq::<(Seq<u8>, Seq<u8>)>::empty());
        }
        r
    }

    /// Appends a managed path with its target label.
    pub fn add_path(self, path: KPath, target: Vec<u8>) -> (r: KuboManager<Unlocked>)
        requires
            self.wf(),
            path.wf(),
            is_seg(target@),
        ensures
            r@.root == self@.root,
            r@.entries =~= self@.entries.push((path@, target@)),
            r.wf(),
    {
        let ghost old_entries = self@.entries;
        let ghost pv = path@;
        let ghost tv = target@;
        let mut s = self;
        s.paths.push((path, target));
        proof {
            assert(s@.entries =~= old_entries.push((pv, tv)));
        }
        s
    }

    /// Empties the managed set; the mirror root is kept.
    pub fn clear_paths(self) -> (r: KuboManager<Unlocked>)
        requires
            self.wf(),
        ensures
            r@.root == self@.root,
            r@.entries =~= Seq::<(Seq<u8>, Seq<u8>)>::empty(),
            r.wf(),
    {
        let mut s = self;
        s.paths = Vec::new();
        proof {
            assert(s@.entries =~= Seq::<(Seq<u8>, Seq<u8>)>::empty());
        }
        s
    }

    /// Makes the registry read-only, permitting mirroring.
    pub fn lock(self) -> (r: KuboManager<Locked>)
        ensures
            r@ == self@,
    {
        KuboManager { paths: self.paths, kubo_dir: self.kubo_dir, state: Locked }
    }
}

impl KuboManager<Locked> {
    /// Makes the registry mutable again, forbidding mirroring.
    pub fn unlock(self) -> (r: KuboManager<Unlocked>)
        ensures
            r@ == self@,
    {
        KuboManager { paths: self.paths, kubo_dir: self.kubo_dir, state: Unlocked }
    }

    /// Mirrors every managed path once, in registration order; run at
    /// startup and after every reload. The registry is returned unchanged,
    /// with one copy outcome per managed entry, each at the entry's
    /// resolved mirror location.
    pub fn initial_copy(self) -> (r: (KuboManager<Locked>, Vec<crate::operations::MirrorOutcome>))
        requires
            self.wf(),
        ensures
            r.0@ == self@,
            r.1@.len() == self@.entries.len(),
            forall|i: int|
                0 <= i < r.1@.len() ==> crate::operations::copy_outcome_ok(
                    self@,
                    self@.entries[i].0,
                    #[trigger] r.1@[i],
                ),
            forall|i: int|
                0 <= i < r.1@.len() ==> (#[trigger] r.1@[i]) is Copied || r.1@[i] is CopyFailed,
    {
        let mut outcomes: Vec<crate::operations::MirrorOutcome> = Vec::new();
        let mut i: usize = 0;
        while i < self.paths.len()
            invariant
                0 <= i <= self.paths.len(),
                self.wf(),
                outcomes@.len() == i,
                forall|j: int|
                    0 <= j < i ==> crate::operations::copy_outcome_ok(
                        self@,
                        self@.entries[j].0,
                        #[trigger] outcomes@[j],
                    ),
                forall|j: int|
                    0 <= j < i ==> (#[trigger] outcomes@[j]) is Copied || outcomes@[j]
                        is CopyFailed,
            decreases self.paths.len() - i,
        {
            proof {
                assert(self@.entries[i as int] == (self.paths@[i as int].0@,
                self.paths@[i as int].1@));
            }
            let o = crate::operations::copy_to_kubo(&self.paths[i].0, &self);
            proof {
                lemma_source_resolves(self@, i as int);
            }
            outcomes.push(o);
            i = i + 1;
        }
        (self, outcomes)
    }

    /// The source paths to watch, followed by the mapping file itself.
    pub fn watch_paths(&self) -> (r: Vec<KPath>)
        requires
            self.wf(),
        ensures
            r@.map_values(|p: KPath| p@) =~= watch_set_spec(self@),
            forall|i: int| 0 <= i < r@.len() ==> (#[trigger] r@[i]).wf(),
    {
        let mut wpaths: Vec<KPath> = Vec::new();
        let mut i: usize = 0;
        while i < self.paths.len()
            invariant
                0 <= i <= self.paths.len(),
                self.wf(),
                wpaths@.len() == i,
                forall|j: int|
                    0 <= j < i ==> (#[trigger] wpaths@[j])@ == self@.entries[j].0
                        && wpaths@[j].wf(),
            decreases self.paths.len() - i,
        {
            proof {
                assert(self@.entries[i as int] == (self.paths@[i as int].0@,
                self.paths@[i as int].1@));
                assert(is_abs_path(self@.entries[i as int].0));
            }
            wpaths.push(self.paths[i].0.dup());
            i = i + 1;
        }
        wpaths.push(self.config_path());
        proof {
            let ghost ws = watch_set_spec(self@);
            assert forall|k: int| 0 <= k < wpaths@.len() implies (#[trigger] wpaths@[k])@
                == ws[k] by {
                if k < self@.entries.len() {
                    assert(ws[k] == self@.entries.map_values(|e: (Seq<u8>, Seq<u8>)| e.0)[k]);
                }
            }
            assert(wpaths@.map_values(|p: KPath| p@) =~= ws);
        }
        wpaths
    }

    /// Resolves a path to its mirrored location: the first managed entry, in
    /// registration order, whose source is an ancestor of (or equal to) the
    /// path decides; an error means no managed path covers it.
    pub fn convert_path(&self, path: &KPath) -> (r: Result<KPath, ()>)
        requires
            self.wf(),
        ensures
            r matches Ok(t) ==> resolve_spec(self@, path@) == Some(t@),
            r is Err <==> resolve_spec(self@, path@) is None,
    {
        let mut i: usize = 0;
        while i < self.paths.len()
            invariant
                0 <= i <= self.paths.len(),
                self.wf(),
                forall|j: int|
                    0 <= j < i ==> !is_path_prefix(#[trigger] self@.entries[j].0, path@),
            decreases self.paths.len() - i,
        {
            if path.starts_with(&self.paths[i].0) {
                let src = &self.paths[i].0;
                let label = &self.paths[i].1;
                proof {
                    assert(self@.entries[i as int] == (self.paths@[i as int].0@,
                    self.paths@[i as int].1@));
                    assert(is_abs_path(self@.entries[i as int].0));
                    assert(is_abs_path(src@));
                    if src@.len() == 1 {
                        assert(path@.len() >= 1);
                    }
                    assert(src@.len() <= path@.len());
                    crate::kpath::lemma_last_sep(src@);
                }
                let ls = src.find_last_sep();
                let mut out = append_range_root(&self.kubo_dir);
                out = append_range(out, label, 0, label.len());
                out = append_range(out, src.as_bytes(), ls, src.as_bytes().len());
                out = append_range(out, path.as_bytes(), src.as_bytes().len(), path.as_bytes().len());
                proof {
                    lemma_first_match_at(self@.entries, path@, i as int);
                    assert(out@ =~= mirror_path(
                        self@.root,
                        self@.entries[i as int],
                        path@,
                    ));
                }
                return Ok(KPath::from_bytes(out));
            }
            i = i + 1;
        }
        proof {
            lemma_first_match_none(self@.entries, path@);
        }
        Err(())
    }
}

impl<State> KuboManager<State> {
    /// All sources are absolute paths, all labels single segments, and the
    /// mirror root is an absolute path.
    pub open spec fn wf(&self) -> bool {
        model_wf(self@)
    }

    /// The mirror root path.
    pub fn get_kubo_dir(&self) -> (r: KPath)
        ensures
            r@ == self@.root,
    {
        self.kubo_dir.dup()
    }

    /// The path of the mapping file, `kubo.toml` under the mirror root.
    pub fn config_path(&self) -> (r: KPath)
        requires
            self.wf(),
        ensures
            r@ == config_path_spec(self@.root),
            r.wf(),
    {
        let mut seg: Vec<u8> = Vec::new();
        seg.push(107);
        seg.push(117);
        seg.push(98);
        seg.push(111);
        seg.push(46);
        seg.push(116);
        seg.push(111);
        seg.push(109);
        seg.push(108);
        proof {
            assert(seg@ =~= config_name());
        }
        self.kubo_dir.join_seg(&seg)
    }

}

/// Starts a mirror-path buffer: the mirror root followed by one separator.
fn append_range_root(root: &KPath) -> (r: Vec<u8>)
    ensures
        r@ == root@ + seq![SEP],
{
    let mut out = append_range(Vec::new(), root.as_bytes(), 0, root.as_bytes().len());
    proof {
        assert(out@ =~= root@);
    }
    out.push(SEP);
    proof {
        assert(out@ =~= root@ + seq![SEP]);
    }
    out
}

} // verus!
