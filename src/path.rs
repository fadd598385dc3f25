use vstd::prelude::*;

use crate::record::views;

verus! {

/// `p` without the separators it starts with.
pub open spec fn drop_leading_seps(p: Seq<char>) -> Seq<char>
    decreases p.len(),
{
    if p.len() > 0 && p[0] == '/' {
        drop_leading_seps(p.drop_first())
    } else {
        p
    }
}

/// `tail` appended to `base` as a path: an absolute `tail` replaces `base`,
/// and one separator stands between the two parts.
pub open spec fn join_spec(base: Seq<char>, tail: Seq<char>) -> Seq<char> {
    if tail.len() > 0 && tail[0] == '/' {
        tail
    } else if base.len() == 0 {
        tail
    } else if base.last() == '/' {
        base + tail
    } else {
        base + seq!['/'] + tail
    }
}

/// Where an absolute path lands inside the trash root: the root separator is
/// stripped and the rest is joined onto the root.
pub open spec fn mirror_spec(root: Seq<char>, original: Seq<char>) -> Seq<char> {
    join_spec(root, drop_leading_seps(original))
}

/// `path` is `root` itself or lies below it, component by component.
pub open spec fn is_under(root: Seq<char>, path: Seq<char>) -> bool {
    &&& root.len() <= path.len()
    &&& path.subrange(0, root.len() as int) == root
    &&& (path.len() == root.len() || (root.len() > 0 && root.last() == '/') || path[root.len() as int]
        == '/')
}

/// The original location of a path inside the trash root: the root is
/// stripped and the root separator put back.
pub open spec fn unmirror_spec(root: Seq<char>, path: Seq<char>) -> Seq<char> {
    seq!['/'] + drop_leading_seps(path.subrange(root.len() as int, path.len() as int))
}

/// `p` without the separators it ends with.
pub open spec fn drop_trailing_seps(p: Seq<char>) -> Seq<char>
    decreases p.len(),
{
    if p.len() > 0 && p.last() == '/' {
        drop_trailing_seps(p.drop_last())
    } else {
        p
    }
}

/// The index of the last separator in `p`, if there is one.
pub open spec fn last_sep(p: Seq<char>) -> Option<int>
    decreases p.len(),
{
    if p.len() == 0 {
        None
    } else if p.last() == '/' {
        Some(p.len() - 1)
    } else {
        last_sep(p.drop_last())
    }
}

/// The directory that holds `p`: nothing for the empty path and the root, the
/// empty path for a single relative component, and otherwise everything before
/// the last component, without trailing separators (the root stays `/`).
pub open spec fn parent_spec(p: Seq<char>) -> Option<Seq<char>> {
    let t = drop_trailing_seps(p);
    if t.len() == 0 {
        None
    } else {
        match last_sep(t) {
            None => Some(Seq::<char>::empty()),
            Some(i) => {
                let h = drop_trailing_seps(t.subrange(0, i));
                if h.len() == 0 {
                    Some(seq!['/'])
                } else {
                    Some(h)
                }
            },
        }
    }
}

/// `p` starts at the file-system root.
pub open spec fn is_absolute(p: Seq<char>) -> bool {
    p.len() > 0 && p[0] == '/'
}

/// The index of the first separator in `p`, or its length when it has none.
pub open spec fn sep_index(p: Seq<char>) -> int
    decreases p.len(),
{
    if p.len() == 0 || p[0] == '/' {
        0
    } else {
        1 + sep_index(p.drop_first())
    }
}

/// The components of the rest `p` of a path, reading from one piece between
/// separators to the next: empty pieces are dropped, and so is a `.` piece
/// unless it is the `first` piece of the path.
pub open spec fn comps_from(p: Seq<char>, first: bool) -> Seq<Seq<char>>
    decreases p.len(),
{
    let i = sep_index(p);
    let piece = p.take(i);
    let kept: Seq<Seq<char>> = if piece.len() > 0 && (piece != seq!['.'] || first) {
        seq![piece]
    } else {
        Seq::empty()
    };
    if 0 <= i < p.len() {
        kept + comps_from(p.skip(i + 1), false)
    } else {
        kept
    }
}

/// The components of `p` besides the root: `/a//b/./c/` has `a`, `b`, `c`;
/// a relative path keeps a leading `.`.
pub open spec fn comps(p: Seq<char>) -> Seq<Seq<char>> {
    comps_from(p, true)
}

/// A path as paths are compared: whether it is absolute, and its components.
/// Two texts name the same path when their keys are equal.
pub open spec fn path_key(p: Seq<char>) -> (bool, Seq<Seq<char>>) {
    (is_absolute(p), comps(p))
}

/// The key of the directory that holds `p`: its last component dropped;
/// nothing for the root and the empty path.
pub open spec fn parent_key(p: Seq<char>) -> Option<(bool, Seq<Seq<char>>)> {
    if comps(p).len() == 0 {
        None
    } else {
        Some((is_absolute(p), comps(p).drop_last()))
    }
}

/// Why a path could not be mapped back out of the trash.
#[derive(Debug, Clone, Copy, PartialEq, Eq, Structural)]
pub enum PathError {
    /// The path does not lie under the trash root.
    OutsideRoot,
    /// Restoring the path would put it at the file-system root: it is the
    /// trash root itself, or the path `/`.
    FilesystemRoot,
}

/// The characters of `s`, one by one.
pub fn chars_of(s: &str) -> (v: Vec<char>)
    ensures
        v@ == s@,
{
    let mut v: Vec<char> = Vec::new();
    for c in it: s.chars()
        invariant
            v@ == it.seq().subrange(0, it.index() as int),
    {
        v.push(c);
    }
    v
}

proof fn lemma_drop_leading_seps_skip(p: Seq<char>, k: int)
    requires
        0 <= k <= p.len(),
        forall|j: int| 0 <= j < k ==> p[j] == '/',
    ensures
        drop_leading_seps(p) == drop_leading_seps(p.subrange(k, p.len() as int)),
    decreases k,
{
    if k > 0 {
        assert(p.drop_first().subrange(k - 1, p.len() - 1) =~= p.subrange(k, p.len() as int));
        lemma_drop_leading_seps_skip(p.drop_first(), k - 1);
    } else {
        assert(p.subrange(0, p.len() as int) =~= p);
    }
}

/// The index of the first character of `v` at or after `from` that is not a
/// separator.
fn skip_seps(v: &Vec<char>, from: usize) -> (k: usize)
    requires
        from <= v.len(),
    ensures
        from <= k <= v.len(),
        drop_leading_seps(v@.subrange(from as int, v.len() as int)) == v@.subrange(
            k as int,
            v.len() as int,
        ),
{
    let mut k = from;
    while k < v.len() && v[k] == '/'
        invariant
            from <= k <= v.len(),
            forall|j: int| from <= j < k ==> v@[j] == '/',
        decreases v.len() - k,
    {
        k = k + 1;
    }
    let ghost p = v@.subrange(from as int, v.len() as int);
    proof {
        lemma_drop_leading_seps_skip(p, k - from);
        assert(p.subrange(k - from, p.len() as int) =~= v@.subrange(k as int, v.len() as int));
    }
    k
}

/// Whether `p` names the file-system root: it holds nothing but separators.
pub fn is_fs_root(p: &str) -> (b: bool)
    ensures
        b == (drop_leading_seps(p@).len() == 0),
{
    let v = chars_of(p);
    let k = skip_seps(&v, 0);
    proof {
        assert(v@.subrange(0, v@.len() as int) =~= v@);
    }
    k == v.len()
}

/// The path `tail` joined onto `base`.
pub fn join_path(base: &str, tail: &str) -> (r: String)
    ensures
        r@ == join_spec(base@, tail@),
{
    let b = chars_of(base);
    let t = chars_of(tail);
    if t.len() > 0 && t[0] == '/' {
        String::from_str(tail)
    } else if b.len() == 0 {
        String::from_str(tail)
    } else if b[b.len() - 1] == '/' {
        let mut r = String::from_str(base);
        r.append(tail);
        r
    } else {
        let mut r = String::from_str(base);
        r.append("/");
        r.append(tail);
        proof {
            reveal_strlit("/");
        }
        r
    }
}

/// The place inside the trash root `root` that mirrors the absolute path
/// `original`.
pub fn mirror(root: &str, original: &str) -> (r: String)
    ensures
        r@ == mirror_spec(root@, original@),
{
    let o = chars_of(original);
    let k = skip_seps(&o, 0);
    proof {
        assert(o@.subrange(0, o@.len() as int) =~= o@);
    }
    let rest = original.substring_char(k, o.len());
    join_path(root, rest)
}

/// Whether `path` is `root` or lies below it.
pub fn under_root(root: &str, path: &str) -> (b: bool)
    ensures
        b == is_under(root@, path@),
{
    let r = chars_of(root);
    let p = chars_of(path);
    if r.len() > p.len() {
        return false;
    }
    let mut i: usize = 0;
    while i < r.len()
        invariant
            r@ == root@,
            p@ == path@,
            r.len() <= p.len(),
            i <= r.len(),
            forall|j: int| 0 <= j < i ==> r@[j] == p@[j],
        decreases r.len() - i,
    {
        if r[i] != p[i] {
            proof {
                let sub = p@.subrange(0, r@.len() as int);
                assert(sub[i as int] == p@[i as int]);
                assert(sub[i as int] != r@[i as int]);
                assert(sub != r@);
            }
            return false;
        }
        i = i + 1;
    }
    proof {
        assert(p@.subrange(0, r@.len() as int) =~= r@);
    }
    p.len() == r.len() || (r.len() > 0 && r[r.len() - 1] == '/') || p[r.len()] == '/'
}

/// The original location of `trashed`, a path inside the trash root `root`.
pub fn unmirror(root: &str, trashed: &str) -> (r: Result<String, PathError>)
    ensures
        is_under(root@, trashed@) ==> r is Ok && r->Ok_0@ == unmirror_spec(root@, trashed@),
        !is_under(root@, trashed@) ==> r == Err::<String, PathError>(PathError::OutsideRoot),
{
    if !under_root(root, trashed) {
        return Err(PathError::OutsideRoot);
    }
    let n = chars_of(root).len();
    let t = chars_of(trashed);
    let k = skip_seps(&t, n);
    let mut r = String::from_str("/");
    r.append(trashed.substring_char(k, t.len()));
    proof {
        reveal_strlit("/");
    }
    Ok(r)
}

proof fn lemma_drop_trailing_seps_cut(p: Seq<char>, e: int)
    requires
        0 <= e <= p.len(),
        forall|j: int| e <= j < p.len() ==> p[j] == '/',
    ensures
        drop_trailing_seps(p) == drop_trailing_seps(p.subrange(0, e)),
    decreases p.len() - e,
{
    if e < p.len() {
        assert(p.drop_last().subrange(0, e) =~= p.subrange(0, e));
        lemma_drop_trailing_seps_cut(p.drop_last(), e);
    } else {
        assert(p.subrange(0, p.len() as int) =~= p);
    }
}

/// The end of `v[..upto]` once the separators it ends with are dropped.
fn trim_end_seps(v: &Vec<char>, upto: usize) -> (e: usize)
    requires
        upto <= v.len(),
    ensures
        e <= upto,
        drop_trailing_seps(v@.subrange(0, upto as int)) == v@.subrange(0, e as int),
{
    let mut e = upto;
    while e > 0 && v[e - 1] == '/'
        invariant
            e <= upto <= v.len(),
            forall|j: int| e <= j < upto ==> v@[j] == '/',
        decreases e,
    {
        e = e - 1;
    }
    let ghost p = v@.subrange(0, upto as int);
    proof {
        lemma_drop_trailing_seps_cut(p, e as int);
        assert(p.subrange(0, e as int) =~= v@.subrange(0, e as int));
    }
    e
}

proof fn lemma_last_sep_at(p: Seq<char>, i: int)
    requires
        0 <= i < p.len(),
        p[i] == '/',
        forall|j: int| i < j < p.len() ==> p[j] != '/',
    ensures
        last_sep(p) == Some(i),
    decreases p.len(),
{
    if i < p.len() - 1 {
        lemma_last_sep_at(p.drop_last(), i);
    }
}

proof fn lemma_last_sep_none(p: Seq<char>)
    requires
        forall|j: int| 0 <= j < p.len() ==> p[j] != '/',
    ensures
        last_sep(p) is None,
    decreases p.len(),
{
    if p.len() > 0 {
        lemma_last_sep_none(p.drop_last());
    }
}

proof fn lemma_drop_trailing_seps_prefix(p: Seq<char>)
    ensures
        drop_trailing_seps(p).len() <= p.len(),
        drop_trailing_seps(p) == p.take(drop_trailing_seps(p).len() as int),
        drop_trailing_seps(p).len() > 0 ==> drop_trailing_seps(p).last() != '/',
    decreases p.len(),
{
    if p.len() > 0 && p.last() == '/' {
        lemma_drop_trailing_seps_prefix(p.drop_last());
        let d = drop_trailing_seps(p.drop_last());
        assert(p.drop_last().take(d.len() as int) =~= p.take(d.len() as int));
    } else {
        assert(p.take(p.len() as int) =~= p);
    }
}

proof fn lemma_last_sep_bound(t: Seq<char>)
    ensures
        last_sep(t) matches Some(i) ==> 0 <= i < t.len() && t[i] == '/',
    decreases t.len(),
{
    if t.len() > 0 && t.last() != '/' {
        lemma_last_sep_bound(t.drop_last());
    }
}

/// A parent is shorter than the path it belongs to.
pub proof fn lemma_parent_shorter(p: Seq<char>)
    ensures
        parent_spec(p) matches Some(q) ==> q.len() < p.len(),
{
    let t = drop_trailing_seps(p);
    lemma_drop_trailing_seps_prefix(p);
    if t.len() > 0 {
        lemma_last_sep_bound(t);
        if let Some(i) = last_sep(t) {
            lemma_drop_trailing_seps_prefix(t.subrange(0, i));
        }
    }
}

/// The directory that holds `p`, when it has one.
pub fn parent(p: &str) -> (r: Option<String>)
    ensures
        r is Some <==> parent_spec(p@) is Some,
        r is Some ==> r->Some_0@ == parent_spec(p@)->Some_0,
{
    let v = chars_of(p);
    let e = trim_end_seps(&v, v.len());
    proof {
        assert(v@.subrange(0, v@.len() as int) =~= v@);
    }
    let ghost t = v@.subrange(0, e as int);
    if e == 0 {
        return None;
    }
    let mut i = e;
    while i > 0 && v[i - 1] != '/'
        invariant
            i <= e <= v.len(),
            forall|j: int| i <= j < e ==> v@[j] != '/',
        decreases i,
    {
        i = i - 1;
    }
    if i == 0 {
        proof {
            lemma_last_sep_none(t);
        }
        return Some(String::new());
    }
    proof {
        lemma_last_sep_at(t, i - 1);
    }
    let h = trim_end_seps(&v, i - 1);
    proof {
        assert(t.subrange(0, i - 1) =~= v@.subrange(0, (i - 1) as int));
    }
    if h == 0 {
        let r = String::from_str("/");
        proof {
            reveal_strlit("/");
        }
        Some(r)
    } else {
        Some(String::from_str(p.substring_char(0, h)))
    }
}

proof fn lemma_sep_index_at(p: Seq<char>, i: int)
    requires
        0 <= i <= p.len(),
        i < p.len() ==> p[i] == '/',
        forall|j: int| 0 <= j < i ==> p[j] != '/',
    ensures
        sep_index(p) == i,
    decreases i,
{
    if i > 0 {
        lemma_sep_index_at(p.drop_first(), i - 1);
    }
}

/// The components of `p` and whether it is absolute, as `path_key` gives them.
pub fn path_components(p: &str) -> (r: (bool, Vec<String>))
    ensures
        r.0 == is_absolute(p@),
        views(r.1@) == comps(p@),
{
    let v = chars_of(p);
    let n = v.len();
    let mut out: Vec<String> = Vec::new();
    let mut start: usize = 0;
    let mut first = true;
    let mut done = false;
    proof {
        assert(v@.skip(0) =~= v@);
        assert(views(out@) + comps_from(v@, true) =~= comps(p@));
    }
    while !done
        invariant
            v@ == p@,
            n == v@.len(),
            start <= n,
            !done ==> views(out@) + comps_from(v@.skip(start as int), first)
                == comps(p@),
            done ==> views(out@) == comps(p@),
        decreases n - start + (if done { 0int } else { 1int }),
    {
        let ghost rest = v@.skip(start as int);
        let mut i = start;
        while i < n && v[i] != '/'
            invariant
                start <= i <= n,
                n == v@.len(),
                forall|j: int| start <= j < i ==> v@[j] != '/',
            decreases n - i,
        {
            i = i + 1;
        }
        proof {
            lemma_sep_index_at(rest, i - start);
            assert(rest.take(i - start) =~= v@.subrange(start as int, i as int));
        }
        let len = i - start;
        let is_dot = len == 1 && v[start] == '.';
        proof {
            let piece = v@.subrange(start as int, i as int);
            if len == 1 {
                assert(is_dot <==> piece =~= seq!['.']);
            } else {
                assert(piece.len() != 1);
                assert(piece != seq!['.']);
            }
        }
        let ghost before = views(out@);
        if len > 0 && (!is_dot || first) {
            let piece = String::from_str(p.substring_char(start, i));
            proof {
                assert(views(out@.push(piece)) =~= before.push(piece@));
            }
            out.push(piece);
        }
        if i < n {
            proof {
                assert(rest.skip(i - start + 1) =~= v@.skip(i + 1));
                let kept = views(out@).subrange(before.len() as int, views(out@).len() as int);
                assert(views(out@) =~= before + kept);
                assert(before + (kept + comps_from(v@.skip(i + 1), false)) =~= views(out@) + comps_from(v@.skip(i + 1), false));
            }
            start = i + 1;
            first = false;
        } else {
            proof {
                let kept = views(out@).subrange(before.len() as int, views(out@).len() as int);
                assert(views(out@) =~= before + kept);
            }
            start = n;
            done = true;
        }
    }
    (n > 0 && v[0] == '/', out)
}

/// Whether the first `n` of `a` equal all of `b`, text by text.
fn same_prefix(a: &Vec<String>, n: usize, b: &Vec<String>) -> (r: bool)
    requires
        n <= a.len(),
    ensures
        r == (views(a@).take(n as int) == views(b@)),
{
    if n != b.len() {
        proof {
            assert(views(a@).take(n as int).len() != views(b@).len());
        }
        return false;
    }
    let mut i: usize = 0;
    while i < n
        invariant
            i <= n <= a.len(),
            n == b.len(),
            forall|j: int| 0 <= j < i ==> a@[j]@ == b@[j]@,
        decreases n - i,
    {
        if a[i] != b[i] {
            proof {
                assert(views(a@).take(n as int)[i as int] != views(b@)[i as int]);
            }
            return false;
        }
        i = i + 1;
    }
    proof {
        assert(views(a@).take(n as int) =~= views(b@));
    }
    true
}

/// Whether the parent of `p` is the directory whose key is `dir`
/// (`path_components` of it).
pub fn parent_is(p: &str, dir: &(bool, Vec<String>)) -> (r: bool)
    ensures
        r == (parent_key(p@) == Some((dir.0, views(dir.1@)))),
{
    let (abs, c) = path_components(p);
    if c.len() == 0 {
        return false;
    }
    proof {
        assert(views(c@).drop_last() =~= views(c@).take(c@.len() - 1));
    }
    abs == dir.0 && same_prefix(&c, c.len() - 1, &dir.1)
}

/// Mapping a path into the trash and back gives the path again, for a
/// non-empty root and an absolute path that starts with a single separator.
pub proof fn lemma_unmirror_mirror(root: Seq<char>, original: Seq<char>)
    requires
        root.len() > 0,
        original.len() > 0,
        original[0] == '/',
        original.len() > 1 ==> original[1] != '/',
    ensures
        is_under(root, mirror_spec(root, original)),
        unmirror_spec(root, mirror_spec(root, original)) == original,
{
    let q = original.drop_first();
    assert(drop_leading_seps(q) == q);
    assert(drop_leading_seps(original) == q);
    let m = mirror_spec(root, original);
    if root.last() == '/' {
        assert(m == root + q);
        assert(m.subrange(0, root.len() as int) =~= root);
        assert(m.subrange(root.len() as int, m.len() as int) =~= q);
    } else {
        assert(m == root + seq!['/'] + q);
        assert(m.subrange(0, root.len() as int) =~= root);
        let tail = m.subrange(root.len() as int, m.len() as int);
        assert(tail =~= seq!['/'] + q);
        assert(tail.drop_first() =~= q);
        assert(drop_leading_seps(tail) == q);
    }
    assert(seq!['/'] + q =~= original);
}

} // verus!
