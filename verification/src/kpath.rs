//! Absolute filesystem paths as byte strings, with the component-wise
//! operations that path resolution needs: prefix tests, joining a segment,
//! and locating the final separator.

use vstd::prelude::*;

verus! {

/// Byte value of the path separator `/`.
pub const SEP: u8 = 47;

/// An absolute path: begins with a separator, has no empty segments, and
/// does not end with a separator (except the root path itself).
pub open spec fn is_abs_path(s: Seq<u8>) -> bool {
    &&& s.len() >= 1
    &&& s[0] == SEP
    &&& (forall|i: int| 1 <= i < s.len() ==> !(#[trigger] s[i] == SEP && s[i - 1] == SEP))
    &&& (s.len() > 1 ==> s[s.len() - 1] != SEP)
}

/// A single path segment: non-empty and free of separators.
pub open spec fn is_seg(s: Seq<u8>) -> bool {
    s.len() >= 1 && (forall|i: int| 0 <= i < s.len() ==> s[i] != SEP)
}

/// `p` names the same node as `q` or an ancestor of it, component-wise:
/// either `p` is the root, or `p` is a byte prefix of `q` that ends exactly
/// on a component boundary.
pub open spec fn is_path_prefix(p: Seq<u8>, q: Seq<u8>) -> bool {
    if p.len() == 1 {
        p[0] == SEP && q.len() >= 1 && q[0] == SEP
    } else {
        &&& p.len() <= q.len()
        &&& q.subrange(0, p.len() as int) == p
        &&& (q.len() == p.len() || q[p.len() as int] == SEP)
    }
}

/// Index of the last separator in `s`, or `-1` if there is none.
pub open spec fn last_sep(s: Seq<u8>) -> int
    decreases s.len(),
{
    if s.len() == 0 {
        -1
    } else if s[s.len() - 1] == SEP {
        s.len() - 1
    } else {
        last_sep(s.drop_last())
    }
}

/// The path obtained by appending segment `s` to path `p`.
pub open spec fn join_spec(p: Seq<u8>, s: Seq<u8>) -> Seq<u8> {
    if p.len() == 1 {
        p + s
    } else {
        p + seq![SEP] + s
    }
}

/// In a string that starts with a separator, the last separator exists and
/// every byte after it is a non-separator.
pub proof fn lemma_last_sep(s: Seq<u8>)
    requires
        s.len() >= 1,
        s[0] == SEP,
    ensures
        0 <= last_sep(s) < s.len(),
        s[last_sep(s)] == SEP,
        forall|i: int| last_sep(s) < i < s.len() ==> s[i] != SEP,
    decreases s.len(),
{
    if s[s.len() - 1] == SEP {
    } else {
        assert(s.len() >= 2);
        lemma_last_sep(s.drop_last());
        assert(forall|i: int| 0 <= i < s.len() - 1 ==> s.drop_last()[i] == s[i]);
    }
}

/// The last separator is the unique separator followed only by non-separators.
pub proof fn lemma_last_sep_at(s: Seq<u8>, k: int)
    requires
        0 <= k < s.len(),
        s[k] == SEP,
        forall|i: int| k < i < s.len() ==> s[i] != SEP,
    ensures
        last_sep(s) == k,
    decreases s.len(),
{
    if k == s.len() - 1 {
    } else {
        assert(forall|i: int| 0 <= i < s.len() - 1 ==> s.drop_last()[i] == s[i]);
        lemma_last_sep_at(s.drop_last(), k);
    }
}

/// Every absolute path is a prefix of itself.
pub proof fn lemma_path_prefix_refl(p: Seq<u8>)
    requires
        is_abs_path(p),
    ensures
        is_path_prefix(p, p),
{
    if p.len() != 1 {
        assert(p.subrange(0, p.len() as int) =~= p);
    }
}

/// Component-wise prefixing is transitive.
pub proof fn lemma_path_prefix_transitive(a: Seq<u8>, b: Seq<u8>, c: Seq<u8>)
    requires
        is_path_prefix(a, b),
        is_path_prefix(b, c),
    ensures
        is_path_prefix(a, c),
{
    if a.len() == 1 {
        if b.len() == 1 {
        } else {
            assert(c.subrange(0, b.len() as int) == b);
            assert(c.subrange(0, b.len() as int)[0] == c[0]);
            assert(c[0] == SEP);
        }
    } else {
        assert(b.len() >= a.len());
        if b.len() == 1 {
            assert(a.len() == 0);
            assert(c.subrange(0, 0) =~= a);
        } else {
            assert(c.subrange(0, b.len() as int) == b);
            assert forall|i: int| 0 <= i < a.len() implies c[i] == a[i] by {
                assert(c.subrange(0, b.len() as int)[i] == c[i]);
                assert(b.subrange(0, a.len() as int)[i] == b[i]);
            }
            assert(c.subrange(0, a.len() as int) =~= a);
            if a.len() < c.len() {
                if a.len() == b.len() {
                    if b.len() < c.len() {
                        assert(c[a.len() as int] == SEP);
                    }
                } else {
                    assert(b.subrange(0, a.len() as int) == a);
                    assert(b[a.len() as int] == SEP);
                    assert(c.subrange(0, b.len() as int)[a.len() as int] == c[a.len() as int]);
                }
            }
        }
    }
}

/// An absolute filesystem path held as bytes.
#[derive(Debug)]
pub struct KPath {
    bytes: Vec<u8>,
}

impl View for KPath {
    type V = Seq<u8>;

    closed spec fn view(&self) -> Seq<u8> {
        self.bytes@
    }
}

/// Decides `is_abs_path` on a byte string.
pub fn check_abs(b: &Vec<u8>) -> (r: bool)
    ensures
        r == is_abs_path(b@),
{
    if b.len() == 0 {
        return false;
    }
    if b[0] != SEP {
        return false;
    }
    let mut i: usize = 1;
    while i < b.len()
        invariant
            1 <= i <= b.len(),
            b@[0] == SEP,
            forall|j: int| 1 <= j < i ==> !(#[trigger] b@[j] == SEP && b@[j - 1] == SEP),
        decreases b.len() - i,
    {
        if b[i] == SEP && b[i - 1] == SEP {
            return false;
        }
        i = i + 1;
    }
    if b.len() > 1 && b[b.len() - 1] == SEP {
        return false;
    }
    true
}

/// Decides `is_seg` on a byte string.
pub fn check_seg(b: &Vec<u8>) -> (r: bool)
    ensures
        r == is_seg(b@),
{
    if b.len() == 0 {
        return false;
    }
    let mut i: usize = 0;
    while i < b.len()
        invariant
            0 <= i <= b.len(),
            forall|j: int| 0 <= j < i ==> b@[j] != SEP,
        decreases b.len() - i,
    {
        if b[i] == SEP {
            return false;
        }
        i = i + 1;
    }
    true
}

/// Returns `v` extended with the bytes of `src` from `from` (inclusive)
/// to `to` (exclusive).
pub fn append_range(v: Vec<u8>, src: &Vec<u8>, from: usize, to: usize) -> (r: Vec<u8>)
    requires
        from <= to <= src.len(),
    ensures
        r@ == v@ + src@.subrange(from as int, to as int),
{
    let ghost orig = v@;
    let mut out = v;
    let mut i: usize = from;
    while i < to
        invariant
            from <= i <= to <= src@.len(),
            out@ == orig + src@.subrange(from as int, i as int),
        decreases to - i,
    {
        out.push(src[i]);
        proof {
            assert(out@ =~= orig + src@.subrange(from as int, i + 1));
        }
        i = i + 1;
    }
    proof {
        assert(out@ =~= orig + src@.subrange(from as int, to as int));
    }
    out
}

impl KPath {
    /// The path is well-formed: absolute without empty segments.
    pub open spec fn wf(&self) -> bool {
        is_abs_path(self@)
    }

    /// Validates a byte string as an absolute path and wraps it; rejects
    /// exactly the strings that are not well-formed absolute paths.
    pub fn new(bytes: Vec<u8>) -> (r: Result<KPath, ()>)
        ensures
            r matches Ok(p) ==> p@ == bytes@ && p.wf(),
            r is Err <==> !is_abs_path(bytes@),
    {
        if check_abs(&bytes) {
            Ok(KPath { bytes })
        } else {
            Err(())
        }
    }

    /// Wraps a byte string as a path without validating it.
    pub fn from_bytes(bytes: Vec<u8>) -> (r: KPath)
        ensures
            r@ == bytes@,
    {
        KPath { bytes }
    }

    /// The bytes of the path.
    pub fn as_bytes(&self) -> (r: &Vec<u8>)
        ensures
            r@ == self@,
    {
        &self.bytes
    }

    /// An independent copy of the path.
    pub fn dup(&self) -> (r: KPath)
        ensures
            r@ == self@,
    {
        let b = self.bytes.clone();
        proof {
            assert(b@ =~= self.bytes@);
        }
        KPath { bytes: b }
    }

    /// Byte-for-byte path equality.
    pub fn eq_path(&self, other: &KPath) -> (r: bool)
        ensures
            r == (self@ == other@),
    {
        if self.bytes.len() != other.bytes.len() {
            return false;
        }
        let mut i: usize = 0;
        while i < self.bytes.len()
            invariant
                0 <= i <= self.bytes.len(),
                self.bytes.len() == other.bytes.len(),
                forall|j: int| 0 <= j < i ==> self@[j] == other@[j],
            decreases self.bytes.len() - i,
        {
            if self.bytes[i] != other.bytes[i] {
                return false;
            }
            i = i + 1;
        }
        proof {
            assert(self@ =~= other@);
        }
        true
    }

    /// Whether `prefix` names this path or one of its ancestors.
    pub fn starts_with(&self, prefix: &KPath) -> (r: bool)
        ensures
            r == is_path_prefix(prefix@, self@),
    {
        if prefix.bytes.len() == 1 {
            return prefix.bytes[0] == SEP && self.bytes.len() >= 1 && self.bytes[0] == SEP;
        }
        if prefix.bytes.len() > self.bytes.len() {
            return false;
        }
        let mut i: usize = 0;
        while i < prefix.bytes.len()
            invariant
                0 <= i <= prefix@.len() <= self@.len(),
                prefix@.len() != 1,
                forall|j: int| 0 <= j < i ==> prefix@[j] == self@[j],
            decreases prefix@.len() - i,
        {
            if prefix.bytes[i] != self.bytes[i] {
                proof {
                    if is_path_prefix(prefix@, self@) {
                        assert(self@.subrange(0, prefix@.len() as int) == prefix@);
                        assert(self@.subrange(0, prefix@.len() as int)[i as int]
                            == self@[i as int]);
                        assert(false);
                    }
                }
                return false;
            }
            i = i + 1;
        }
        proof {
            assert(self@.subrange(0, prefix@.len() as int) =~= prefix@);
        }
        self.bytes.len() == prefix.bytes.len() || self.bytes[prefix.bytes.len()] == SEP
    }

    /// Index of the last separator in the path.
    pub fn find_last_sep(&self) -> (r: usize)
        requires
            self@.len() >= 1,
            self@[0] == SEP,
        ensures
            r == last_sep(self@),
    {
        let mut i: usize = self.bytes.len();
        while i > 0
            invariant
                0 <= i <= self.bytes.len(),
                self@.len() >= 1,
                self@[0] == SEP,
                forall|j: int| i <= j < self@.len() ==> self@[j] != SEP,
            decreases i,
    {
            i = i - 1;
            if self.bytes[i] == SEP {
                proof {
                    lemma_last_sep_at(self@, i as int);
                }
                return i;
            }
        }
        proof {
            assert(self@[0] != SEP);
            assert(false);
        }
        0
    }

    /// The path extended with one further segment.
    pub fn join_seg(&self, seg: &Vec<u8>) -> (r: KPath)
        requires
            self.wf(),
            is_seg(seg@),
        ensures
            r@ == join_spec(self@, seg@),
            r.wf(),
    {
        let mut out = self.bytes.clone();
        proof {
            assert(out@ =~= self.bytes@);
        }
        if self.bytes.len() > 1 {
            out.push(SEP);
            proof {
                assert(out@ =~= self@ + seq![SEP]);
            }
        }
        let r = append_range(out, seg, 0, seg.len());
        proof {
            assert(seg@.subrange(0, seg@.len() as int) =~= seg@);
            let j = join_spec(self@, seg@);
            assert(r@ =~= j);
            assert(j[0] == SEP);
            assert forall|i: int| 1 <= i < j.len() implies !(#[trigger] j[i] == SEP && j[i - 1]
                == SEP) by {
                if self@.len() == 1 {
                    if i >= 1 {
                        assert(j[i] == seg@[i - 1]);
                    }
                } else {
                    if i < self@.len() {
                    } else if i == self@.len() {
                        assert(j[i] == SEP && j[i - 1] == self@[self@.len() - 1]);
                    } else {
                        assert(j[i] == seg@[i - self@.len() - 1]);
                    }
                }
            }
            assert(j[j.len() - 1] == seg@[seg@.len() - 1]);
        }
        KPath { bytes: r }
    }

    /// The parent directory of the path (the root is its own parent).
    pub fn parent_dir(&self) -> (r: KPath)
        requires
            self@.len() >= 1,
            self@[0] == SEP,
        ensures
            r@ == if last_sep(self@) == 0 { seq![SEP] } else {
                self@.subrange(0, last_sep(self@))
            },
    {
        proof {
            lemma_last_sep(self@);
        }
        let ls = self.find_last_sep();
        if ls == 0 {
            let mut b: Vec<u8> = Vec::new();
            b.push(SEP);
            proof {
                assert(b@ =~= seq![SEP]);
            }
            KPath { bytes: b }
        } else {
            let b = append_range(Vec::new(), &self.bytes, 0, ls);
            proof {
                assert(b@ =~= self@.subrange(0, last_sep(self@)));
            }
            KPath { bytes: b }
        }
    }
}

} // verus!
