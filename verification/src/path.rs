//! Target paths for generated files.
//!
//! A path is a list of directory segments, a file stem and an optional
//! extension; all files of one run share a single root, so resolving a
//! relative path between two files never fails.

use vstd::prelude::*;

use crate::case::str_eq;

verus! {

/// The path of one output file, relative to the export root.
#[derive(Clone, Debug)]
pub struct TargetPath {
    pub dirs: Vec<String>,
    pub stem: String,
    pub ext: String,
}

/// The character sequences of a list of segments.
pub open spec fn deep(v: Seq<String>) -> Seq<Seq<char>> {
    v.map_values(|s: String| s@)
}

/// The length of the longest common prefix of two segment lists.
pub open spec fn lcp(a: Seq<Seq<char>>, b: Seq<Seq<char>>) -> nat
    decreases a.len(),
{
    if a.len() == 0 || b.len() == 0 || a[0] != b[0] {
        0
    } else {
        1 + lcp(a.drop_first(), b.drop_first())
    }
}

pub proof fn lemma_lcp_bound(a: Seq<Seq<char>>, b: Seq<Seq<char>>)
    ensures
        lcp(a, b) <= a.len(),
        lcp(a, b) <= b.len(),
    decreases a.len(),
{
    if a.len() == 0 || b.len() == 0 || a[0] != b[0] {
    } else {
        lemma_lcp_bound(a.drop_first(), b.drop_first());
    }
}

/// Appending one segment appends its characters to the deep view.
pub proof fn lemma_deep_push(pre: Seq<String>, post: Seq<String>, xs: Seq<char>)
    requires
        post.len() == pre.len() + 1,
        forall|k: int| 0 <= k < pre.len() ==> post[k] == pre[k],
        post[pre.len() as int]@ == xs,
    ensures
        deep(post) =~= deep(pre) + seq![xs],
{
    assert forall|k: int| 0 <= k < post.len() implies deep(post)[k] == (deep(pre) + seq![xs])[k]
    by {
        assert(deep(post)[k] == post[k]@);
        if k < pre.len() {
            assert(deep(pre)[k] == pre[k]@);
        }
    }
}

/// Extending a prefix by one element extends its deep view by that
/// element's characters.
pub proof fn lemma_deep_subrange_snoc(v: Seq<String>, i: int)
    requires
        0 <= i < v.len(),
    ensures
        deep(v.subrange(0, i + 1)) =~= deep(v.subrange(0, i)) + seq![v[i]@],
{
    assert forall|k: int| 0 <= k < i + 1 implies deep(v.subrange(0, i + 1))[k] == (deep(
        v.subrange(0, i),
    ) + seq![v[i]@])[k] by {
        assert(deep(v.subrange(0, i + 1))[k] == v.subrange(0, i + 1)[k]@);
        if k < i {
            assert(deep(v.subrange(0, i))[k] == v.subrange(0, i)[k]@);
        }
    }
}

/// The segments joined by `/`.
pub open spec fn slash_join(segs: Seq<Seq<char>>) -> Seq<char>
    decreases segs.len(),
{
    if segs.len() == 0 {
        Seq::empty()
    } else if segs.len() == 1 {
        segs[0]
    } else {
        slash_join(segs.drop_last()) + "/"@ + segs.last()
    }
}

/// The name of the file itself: the stem, plus `.ext` when an extension is
/// set.
pub open spec fn filename_spec(stem: Seq<char>, ext: Seq<char>) -> Seq<char> {
    if ext.len() == 0 {
        stem
    } else {
        stem + "."@ + ext
    }
}

/// `n` repetitions of the step up one directory.
pub open spec fn dotdots(n: nat) -> Seq<char>
    decreases n,
{
    if n == 0 {
        Seq::empty()
    } else {
        dotdots((n - 1) as nat) + "../"@
    }
}

/// `ups` leading `../` steps — or a single `./` when no step goes up —
/// followed by the remaining segments.
pub open spec fn rel_spec(ups: nat, rest: Seq<Seq<char>>) -> Seq<char> {
    if ups == 0 {
        "./"@ + slash_join(rest)
    } else {
        dotdots(ups) + slash_join(rest)
    }
}

impl TargetPath {
    /// The whole path as one mathematical value.
    pub open spec fn model(self) -> (Seq<Seq<char>>, Seq<char>, Seq<char>) {
        (deep(self.dirs@), self.stem@, self.ext@)
    }

    /// The path rendered with `/` separators, extension included.
    pub open spec fn spec_str(self) -> Seq<char> {
        slash_join(deep(self.dirs@) + seq![filename_spec(self.stem@, self.ext@)])
    }

    pub fn new(dirs: Vec<String>, stem: String, ext: String) -> (r: TargetPath)
        ensures
            r.dirs == dirs,
            r.stem == stem,
            r.ext == ext,
    {
        TargetPath { dirs, stem, ext }
    }

    /// Replaces the extension.
    pub fn with_extension(self, ext: String) -> (r: TargetPath)
        ensures
            r.dirs == self.dirs,
            r.stem == self.stem,
            r.ext == ext,
    {
        TargetPath { dirs: self.dirs, stem: self.stem, ext }
    }

    /// All segments of this path taken as directory names, the file's own
    /// name included; used when a path serves as the directory a child is
    /// placed under.
    pub fn as_dir_segments(&self) -> (r: Vec<String>)
        ensures
            deep(r@) == deep(self.dirs@) + seq![filename_spec(self.stem@, self.ext@)],
    {
        let mut out: Vec<String> = Vec::new();
        let n = self.dirs.len();
        let mut i: usize = 0;
        while i < n
            invariant
                0 <= i <= n,
                n == self.dirs@.len(),
                out@.len() == i,
                deep(out@) == deep(self.dirs@.subrange(0, i as int)),
            decreases n - i,
        {
            let ghost out0 = out@;
            out.push(self.dirs[i].clone());
            proof {
                lemma_deep_push(out0, out@, self.dirs@[i as int]@);
                lemma_deep_subrange_snoc(self.dirs@, i as int);
            }
            i = i + 1;
        }
        proof {
            assert(self.dirs@.subrange(0, n as int) =~= self.dirs@);
        }
        out.push(self.filename());
        proof {
            assert(deep(out@) =~= deep(self.dirs@) + seq![
                filename_spec(self.stem@, self.ext@),
            ]);
        }
        out
    }

    /// The file's own name, extension included.
    pub fn filename(&self) -> (r: String)
        ensures
            r@ == filename_spec(self.stem@, self.ext@),
    {
        if self.ext.as_str().unicode_len() == 0 {
            proof {
                assert(self.ext@ =~= Seq::<char>::empty());
                assert(filename_spec(self.stem@, self.ext@) == self.stem@);
            }
            self.stem.clone()
        } else {
            let mut out = self.stem.clone();
            out.append(".");
            out.append(self.ext.as_str());
            out
        }
    }

    /// The path rendered with `/` separators, extension included.
    pub fn to_slash(&self) -> (r: String)
        ensures
            r@ == self.spec_str(),
    {
        let segs = self.as_dir_segments();
        join_slash(&segs)
    }

    /// Prefixes this path with the given directory segments.
    pub fn prefixed(self, prefix: &Vec<String>) -> (r: TargetPath)
        ensures
            deep(r.dirs@) == deep(prefix@) + deep(self.dirs@),
            r.stem == self.stem,
            r.ext == self.ext,
    {
        let mut dirs: Vec<String> = Vec::new();
        let n = prefix.len();
        let mut i: usize = 0;
        while i < n
            invariant
                0 <= i <= n,
                n == prefix@.len(),
                dirs@.len() == i,
                deep(dirs@) == deep(prefix@.subrange(0, i as int)),
            decreases n - i,
        {
            let ghost dirs0 = dirs@;
            dirs.push(prefix[i].clone());
            proof {
                lemma_deep_push(dirs0, dirs@, prefix@[i as int]@);
                lemma_deep_subrange_snoc(prefix@, i as int);
            }
            i = i + 1;
        }
        proof {
            assert(prefix@.subrange(0, n as int) =~= prefix@);
        }
        let m = self.dirs.len();
        let mut j: usize = 0;
        while j < m
            invariant
                0 <= j <= m,
                m == self.dirs@.len(),
                dirs@.len() == prefix@.len() + j,
                deep(dirs@) == deep(prefix@) + deep(self.dirs@.subrange(0, j as int)),
            decreases m - j,
        {
            let ghost dirs0 = dirs@;
            dirs.push(self.dirs[j].clone());
            proof {
                lemma_deep_push(dirs0, dirs@, self.dirs@[j as int]@);
                lemma_deep_subrange_snoc(self.dirs@, j as int);
                assert(deep(dirs@) =~= deep(prefix@) + deep(
                    self.dirs@.subrange(0, j + 1 as int),
                ));
            }
            j = j + 1;
        }
        proof {
            assert(self.dirs@.subrange(0, m as int) =~= self.dirs@);
        }
        TargetPath { dirs, stem: self.stem, ext: self.ext }
    }

    /// Whether two paths name the same file.
    pub fn same_as(&self, other: &TargetPath) -> (r: bool)
        ensures
            r == (self.model() == other.model()),
    {
        if !str_eq(self.stem.as_str(), other.stem.as_str()) {
            return false;
        }
        if !str_eq(self.ext.as_str(), other.ext.as_str()) {
            return false;
        }
        let n = self.dirs.len();
        if n != other.dirs.len() {
            proof {
                assert(deep(self.dirs@).len() != deep(other.dirs@).len());
            }
            return false;
        }
        let mut i: usize = 0;
        while i < n
            invariant
                0 <= i <= n,
                n == self.dirs@.len(),
                n == other.dirs@.len(),
                forall|j: int| 0 <= j < i ==> deep(self.dirs@)[j] == deep(other.dirs@)[j],
            decreases n - i,
        {
            if !str_eq(self.dirs[i].as_str(), other.dirs[i].as_str()) {
                proof {
                    assert(deep(self.dirs@)[i as int] != deep(other.dirs@)[i as int]);
                }
                return false;
            }
            i = i + 1;
        }
        proof {
            assert(deep(self.dirs@) =~= deep(other.dirs@));
        }
        true
    }
}

/// Joins segments with `/`.
pub fn join_slash(segs: &Vec<String>) -> (r: String)
    ensures
        r@ == slash_join(deep(segs@)),
{
    let mut out = String::new();
    let n = segs.len();
    let mut i: usize = 0;
    while i < n
        invariant
            0 <= i <= n,
            n == segs@.len(),
            out@ == slash_join(deep(segs@.subrange(0, i as int))),
        decreases n - i,
    {
        if i > 0 {
            out.append("/");
        }
        out.append(segs[i].as_str());
        proof {
            let pre = deep(segs@.subrange(0, i + 1 as int));
            assert(pre.drop_last() =~= deep(segs@.subrange(0, i as int)));
            assert(pre.last() == segs@[i as int]@);
            if i == 0 {
                assert(slash_join(pre) == pre[0]);
                assert(slash_join(deep(segs@.subrange(0, 0))) =~= Seq::<char>::empty());
                assert(out@ =~= slash_join(pre));
            } else {
                assert(out@ =~= slash_join(pre));
            }
        }
        i = i + 1;
    }
    proof {
        assert(segs@.subrange(0, n as int) =~= segs@);
        if n == 0 {
            assert(out@ =~= slash_join(deep(segs@)));
        }
    }
    out
}

/// The longest common prefix of `a` and `b` from position `i` on.
fn lcp_from(a: &Vec<String>, b: &Vec<String>, i: usize) -> (r: usize)
    requires
        i <= a@.len(),
        i <= b@.len(),
    ensures
        r as nat == lcp(deep(a@).skip(i as int), deep(b@).skip(i as int)),
        i + r <= a@.len(),
        i + r <= b@.len(),
    decreases a@.len() - i,
{
    proof {
        lemma_lcp_bound(deep(a@).skip(i as int), deep(b@).skip(i as int));
    }
    if i >= a.len() || i >= b.len() {
        proof {
            assert(deep(a@).skip(i as int).len() == 0 || deep(b@).skip(i as int).len() == 0);
        }
        return 0;
    }
    if str_eq(a[i].as_str(), b[i].as_str()) {
        proof {
            assert(deep(a@).skip(i as int)[0] == a@[i as int]@);
            assert(deep(b@).skip(i as int)[0] == b@[i as int]@);
            assert(deep(a@).skip(i as int).drop_first() =~= deep(a@).skip(i + 1 as int));
            assert(deep(b@).skip(i as int).drop_first() =~= deep(b@).skip(i + 1 as int));
        }
        let rest = lcp_from(a, b, i + 1);
        1 + rest
    } else {
        proof {
            assert(deep(a@).skip(i as int)[0] != deep(b@).skip(i as int)[0]);
        }
        0
    }
}

/// Resolves the relative import path written in `cur`'s file to reach
/// `dep`: the number of `../` steps above `cur`'s directory up to the
/// common ancestor, followed by the remaining directory segments of `dep`
/// and `dep`'s stem (the extension is left off; the target language
/// resolves it itself).
pub fn resolve_relative(cur: &TargetPath, dep: &TargetPath) -> (r: (usize, Vec<String>))
    ensures
        ({
            let m = lcp(deep(cur.dirs@), deep(dep.dirs@));
            &&& r.0 as nat == deep(cur.dirs@).len() - m
            &&& deep(r.1@) == deep(dep.dirs@).skip(m as int) + seq![dep.stem@]
        }),
{
    let m = lcp_from(&cur.dirs, &dep.dirs, 0);
    proof {
        assert(deep(cur.dirs@).skip(0) =~= deep(cur.dirs@));
        assert(deep(dep.dirs@).skip(0) =~= deep(dep.dirs@));
    }
    let ups = cur.dirs.len() - m;
    let mut rest: Vec<String> = Vec::new();
    let n = dep.dirs.len();
    let mut i: usize = m;
    while i < n
        invariant
            m <= i <= n,
            n == dep.dirs@.len(),
            rest@.len() == i - m,
            deep(rest@) == deep(dep.dirs@).subrange(m as int, i as int),
        decreases n - i,
    {
        rest.push(dep.dirs[i].clone());
        proof {
            assert(deep(rest@) =~~= deep(dep.dirs@).subrange(m as int, i + 1 as int));
        }
        i = i + 1;
    }
    rest.push(dep.stem.clone());
    proof {
        assert(deep(dep.dirs@).subrange(m as int, n as int) =~= deep(dep.dirs@).skip(m as int));
        assert(deep(rest@) =~= deep(dep.dirs@).skip(
            lcp(deep(cur.dirs@), deep(dep.dirs@)) as int,
        ) + seq![dep.stem@]);
    }
    (ups, rest)
}

/// Renders a resolved relative path: the `../` steps, or `./` when none,
/// then the segments joined by `/`.
pub fn rel_import_string(ups: usize, rest: &Vec<String>) -> (r: String)
    ensures
        r@ == rel_spec(ups as nat, deep(rest@)),
{
    let mut out = String::new();
    if ups == 0 {
        out.append("./");
    } else {
        let mut k: usize = 0;
        while k < ups
            invariant
                0 <= k <= ups,
                out@ == dotdots(k as nat),
            decreases ups - k,
        {
            out.append("../");
            proof {
                assert(out@ =~= dotdots((k + 1) as nat));
            }
            k = k + 1;
        }
    }
    let joined = join_slash(rest);
    out.append(joined.as_str());
    proof {
        assert(out@ =~= rel_spec(ups as nat, deep(rest@)));
    }
    out
}

} // verus!
