use vstd::prelude::*;

use crate::path::{
    chars_of, drop_leading_seps, is_fs_root, is_under, lemma_parent_shorter, mirror, mirror_spec,
    parent, parent_spec, under_root, unmirror, unmirror_spec, PathError,
};
use crate::record::{clock_now, views, FileInfo, OpType, Timestamp};

verus! {

/// The moves of one trash or restore run that succeeded so far: `src[i]`
/// went to `dst[i]`.
#[derive(Debug)]
pub struct Batch {
    pub src: Vec<String>,
    pub dst: Vec<String>,
}

impl Batch {
    pub open spec fn wf(&self) -> bool {
        self.src.len() == self.dst.len()
    }

    /// A batch with no moves yet.
    pub fn new() -> (b: Batch)
        ensures
            b.wf(),
            b.src@.len() == 0,
            b.dst@.len() == 0,
    {
        Batch { src: Vec::new(), dst: Vec::new() }
    }

    /// Notes that `from` was moved to `to`.
    pub fn record(&mut self, from: String, to: String)
        requires
            old(self).wf(),
        ensures
            final(self).wf(),
            final(self).src@ == old(self).src@.push(from),
            final(self).dst@ == old(self).dst@.push(to),
    {
        self.src.push(from);
        self.dst.push(to);
    }

    /// The log record of the batch, moved at `moved_time`; nothing for a
    /// batch without moves, which is never logged.
    pub fn finish(self, operation: OpType, moved_time: Timestamp) -> (r: Option<FileInfo>)
        requires
            self.wf(),
        ensures
            self.src@.len() == 0 ==> r is None,
            self.src@.len() > 0 ==> r == Some(
                FileInfo { src: self.src, dst: self.dst, operation, moved_time },
            ),
            r matches Some(rec) ==> rec.wf(),
    {
        if self.src.len() == 0 {
            None
        } else {
            Some(FileInfo { src: self.src, dst: self.dst, operation, moved_time })
        }
    }

    /// The log record of the batch, moved at the instant read from the clock.
    pub fn finish_now(self, operation: OpType) -> (r: Option<FileInfo>)
        requires
            self.wf(),
        ensures
            self.src@.len() == 0 ==> r is None,
            self.src@.len() > 0 ==> (r matches Some(rec) && rec.src == self.src && rec.dst
                == self.dst && rec.operation == operation && rec.wf()
                && rec.moved_time.is_clock_reading()),
    {
        let t = clock_now();
        self.finish(operation, t)
    }
}

/// Where a restore takes a file from and where it puts it.
#[derive(Debug)]
pub struct RestoreRoute {
    /// The file's place inside the trash.
    pub trashed: String,
    /// The place it is restored to.
    pub original: String,
}

/// The two sides of each route, in order.
pub open spec fn route_pairs(v: Seq<RestoreRoute>) -> Seq<(Seq<char>, Seq<char>)> {
    v.map_values(|r: RestoreRoute| (r.trashed@, r.original@))
}

/// A restore of `path` would land on the file-system root: a path inside the
/// trash (`from_trash`) that is the trash root itself, or an original-style
/// path that is `/`.
pub open spec fn lands_on_fs_root(root: Seq<char>, path: Seq<char>, from_trash: bool) -> bool {
    if from_trash {
        drop_leading_seps(path.subrange(root.len() as int, path.len() as int)).len() == 0
    } else {
        drop_leading_seps(path).len() == 0
    }
}

/// The route that restores `path`: an original-style path is looked up at its
/// mirror in the trash root; a path inside the trash (`from_trash`) goes back
/// to where it mirrors. A path inside the trash must lie under the root, and
/// no route leads to the file-system root.
pub open spec fn route_spec(root: Seq<char>, path: Seq<char>, from_trash: bool) -> Result<
    (Seq<char>, Seq<char>),
    PathError,
> {
    if from_trash && !is_under(root, path) {
        Err(PathError::OutsideRoot)
    } else if lands_on_fs_root(root, path, from_trash) {
        Err(PathError::FilesystemRoot)
    } else if from_trash {
        Ok((path, unmirror_spec(root, path)))
    } else {
        Ok((mirror_spec(root, path), path))
    }
}

/// How the absolute path `path` is restored under the trash root `root`.
pub fn restore_route(root: &str, path: &str, from_trash: bool) -> (r: Result<
    RestoreRoute,
    PathError,
>)
    ensures
        route_spec(root@, path@, from_trash) matches Ok(rt) ==> (r matches Ok(x) && x.trashed@
            == rt.0 && x.original@ == rt.1),
        route_spec(root@, path@, from_trash) matches Err(e) ==> r == Err::<RestoreRoute, PathError>(
            e,
        ),
{
    if !from_trash {
        if is_fs_root(path) {
            return Err(PathError::FilesystemRoot);
        }
        Ok(RestoreRoute { trashed: mirror(root, path), original: String::from_str(path) })
    } else {
        match unmirror(root, path) {
            Ok(o) => {
                if chars_of(o.as_str()).len() == 1 {
                    Err(PathError::FilesystemRoot)
                } else {
                    Ok(RestoreRoute { trashed: String::from_str(path), original: o })
                }
            },
            Err(e) => Err(e),
        }
    }
}

/// The routes of a whole batch, in order, or the error of its first path
/// that has none: one such path fails the batch.
pub open spec fn routes_spec(root: Seq<char>, files: Seq<Seq<char>>, from_trash: bool) -> Result<
    Seq<(Seq<char>, Seq<char>)>,
    PathError,
>
    decreases files.len(),
{
    if files.len() == 0 {
        Ok(Seq::empty())
    } else {
        match routes_spec(root, files.drop_last(), from_trash) {
            Err(e) => Err(e),
            Ok(rs) => match route_spec(root, files.last(), from_trash) {
                Ok(x) => Ok(rs.push(x)),
                Err(e) => Err(e),
            },
        }
    }
}

proof fn lemma_routes_err_stays(
    root: Seq<char>,
    files: Seq<Seq<char>>,
    from_trash: bool,
    j: int,
    e: PathError,
)
    requires
        0 <= j <= files.len(),
        routes_spec(root, files.take(j), from_trash) == Err::<Seq<(Seq<char>, Seq<char>)>, PathError>(e),
    ensures
        routes_spec(root, files, from_trash) == Err::<Seq<(Seq<char>, Seq<char>)>, PathError>(e),
    decreases files.len() - j,
{
    if j < files.len() {
        assert(files.take(j + 1).drop_last() =~= files.take(j));
        lemma_routes_err_stays(root, files, from_trash, j + 1, e);
    } else {
        assert(files.take(j) =~= files);
    }
}

/// The routes that restore each of `files`, absolute paths, in order; the
/// first path without a route fails the whole batch, so nothing is moved
/// or logged for it.
pub fn recover_files(dir_path: &str, files: &Vec<String>, from_trash: bool) -> (r: Result<
    Vec<RestoreRoute>,
    PathError,
>)
    ensures
        routes_spec(dir_path@, views(files@), from_trash) matches Ok(rs) ==> (r matches Ok(v)
            && route_pairs(v@) == rs),
        routes_spec(dir_path@, views(files@), from_trash) matches Err(e) ==> r == Err::<
            Vec<RestoreRoute>,
            PathError,
        >(e),
{
    let ghost fs = views(files@);
    let mut out: Vec<RestoreRoute> = Vec::new();
    let mut i: usize = 0;
    proof {
        assert(fs.take(0) =~= Seq::<Seq<char>>::empty());
        assert(route_pairs(out@) =~= Seq::<(Seq<char>, Seq<char>)>::empty());
    }
    while i < files.len()
        invariant
            i <= files.len(),
            fs == views(files@),
            routes_spec(dir_path@, fs.take(i as int), from_trash) == Ok::<
                Seq<(Seq<char>, Seq<char>)>,
                PathError,
            >(route_pairs(out@)),
        decreases files.len() - i,
    {
        proof {
            assert(fs.take(i + 1).drop_last() =~= fs.take(i as int));
            assert(fs.take(i + 1).last() == files@[i as int]@);
        }
        match restore_route(dir_path, files[i].as_str(), from_trash) {
            Ok(rt) => {
                proof {
                    assert(route_pairs(out@.push(rt)) =~= route_pairs(out@).push(
                        (rt.trashed@, rt.original@),
                    ));
                }
                out.push(rt);
            },
            Err(e) => {
                proof {
                    lemma_routes_err_stays(dir_path@, fs, from_trash, i + 1, e);
                }
                return Err(e);
            },
        }
        i = i + 1;
    }
    proof {
        assert(fs.take(i as int) =~= fs);
    }
    Ok(out)
}

/// The entries of a walk of the trash, without the trash root itself.
pub open spec fn below_root_entries(root: Seq<char>, entries: Seq<Seq<char>>) -> Seq<Seq<char>>
    decreases entries.len(),
{
    if entries.len() == 0 {
        Seq::empty()
    } else {
        let prev = below_root_entries(root, entries.drop_last());
        let e = entries.last();
        if is_under(root, e) && lands_on_fs_root(root, e, true) {
            prev
        } else {
            prev.push(e)
        }
    }
}

/// The routes that restore every entry found inside the trash root. The
/// root itself is left out; any entry outside the root fails the batch.
pub fn recover_all_files(dir_path: &str, entries: &Vec<String>) -> (r: Result<
    Vec<RestoreRoute>,
    PathError,
>)
    ensures
        routes_spec(dir_path@, below_root_entries(dir_path@, views(entries@)), true) matches Ok(
            rs,
        ) ==> (r matches Ok(v) && route_pairs(v@) == rs),
        routes_spec(dir_path@, below_root_entries(dir_path@, views(entries@)), true) matches Err(
            e,
        ) ==> r == Err::<Vec<RestoreRoute>, PathError>(e),
{
    let ghost es = views(entries@);
    let mut kept: Vec<String> = Vec::new();
    let mut i: usize = 0;
    proof {
        assert(es.take(0) =~= Seq::<Seq<char>>::empty());
        assert(views(kept@) =~= Seq::<Seq<char>>::empty());
    }
    while i < entries.len()
        invariant
            i <= entries.len(),
            es == views(entries@),
            views(kept@) == below_root_entries(dir_path@, es.take(i as int)),
        decreases entries.len() - i,
    {
        proof {
            assert(es.take(i + 1).drop_last() =~= es.take(i as int));
            assert(es.take(i + 1).last() == entries@[i as int]@);
        }
        let e = &entries[i];
        let is_root = match unmirror(dir_path, e.as_str()) {
            Ok(o) => chars_of(o.as_str()).len() == 1,
            Err(_) => false,
        };
        if !is_root {
            let c = e.clone();
            proof {
                assert(views(kept@.push(c)) =~= views(kept@).push(e@));
            }
            kept.push(c);
        }
        i = i + 1;
    }
    proof {
        assert(es.take(i as int) =~= es);
    }
    recover_files(dir_path, &kept, true)
}

/// Trashing an absolute path moves it to its mirror; restoring that mirror
/// from the trash leads back to the path itself, so the restore record holds
/// the trash record's paths with the sides swapped.
pub proof fn lemma_round_trip(root: Seq<char>, original: Seq<char>)
    requires
        root.len() > 0,
        original.len() > 1,
        original[0] == '/',
        original[1] != '/',
    ensures
        route_spec(root, mirror_spec(root, original), true) == Ok::<
            (Seq<char>, Seq<char>),
            PathError,
        >((mirror_spec(root, original), original)),
{
    crate::path::lemma_unmirror_mirror(root, original);
}

/// `dir` lies inside the trash root and is not the root itself.
pub open spec fn strictly_below(root: Seq<char>, dir: Seq<char>) -> bool {
    is_under(root, dir) && dir.len() > root.len()
}

#[via_fn]
proof fn prune_spec_decreases(root: Seq<char>, p: Seq<char>) {
    lemma_parent_shorter(p);
}

/// The directories that a purge tries to remove after deleting `p`, nearest
/// first: its ancestors strictly inside the trash root.
pub open spec fn prune_spec(root: Seq<char>, p: Seq<char>) -> Seq<Seq<char>>
    decreases p.len(),
    via prune_spec_decreases
{
    match parent_spec(p) {
        Some(q) => if strictly_below(root, q) {
            seq![q] + prune_spec(root, q)
        } else {
            Seq::empty()
        },
        None => Seq::empty(),
    }
}

/// The ancestors of `path` strictly inside `root`, nearest first. A purge
/// removes them in this order while they are empty and stops at the first
/// that is not.
pub fn prune_chain(root: &str, path: &str) -> (r: Vec<String>)
    ensures
        views(r@) == prune_spec(root@, path@),
{
    let mut out: Vec<String> = Vec::new();
    let mut cur = String::from_str(path);
    let root_len = chars_of(root).len();
    loop
        invariant
            root_len == root@.len(),
            views(out@) + prune_spec(root@, cur@) == prune_spec(root@, path@),
        decreases cur@.len(),
    {
        proof {
            lemma_parent_shorter(cur@);
        }
        match parent(cur.as_str()) {
            Some(q) => {
                if under_root(root, q.as_str()) && chars_of(q.as_str()).len()
                    > root_len {
                    proof {
                        assert(views(out@.push(q)) =~= views(out@).push(q@));
                        assert(views(out@).push(q@) + prune_spec(root@, q@) =~= views(out@) + (
                        seq![q@] + prune_spec(root@, q@)));
                    }
                    out.push(q.clone());
                    cur = q;
                } else {
                    proof {
                        assert(views(out@) + prune_spec(root@, cur@) =~= views(out@));
                    }
                    return out;
                }
            },
            None => {
                proof {
                    assert(views(out@) + prune_spec(root@, cur@) =~= views(out@));
                }
                return out;
            },
        }
    }
}

/// Pruning after a purge never reaches the trash root: every directory it
/// tries lies strictly inside the root, the first is the parent of the
/// deleted path, and each next one is the parent of the one before.
pub proof fn lemma_prune_inside_root(root: Seq<char>, p: Seq<char>)
    ensures
        forall|i: int|
            0 <= i < prune_spec(root, p).len() ==> strictly_below(
                root,
                #[trigger] prune_spec(root, p)[i],
            ),
        prune_spec(root, p).len() > 0 ==> parent_spec(p) == Some(prune_spec(root, p)[0]),
        forall|i: int|
            0 <= i < prune_spec(root, p).len() - 1 ==> parent_spec(#[trigger] prune_spec(root, p)[i])
                == Some(prune_spec(root, p)[i + 1]),
    decreases p.len(),
{
    lemma_parent_shorter(p);
    if let Some(q) = parent_spec(p) {
        if strictly_below(root, q) {
            lemma_prune_inside_root(root, q);
            let c = prune_spec(root, p);
            let t = prune_spec(root, q);
            assert(c == seq![q] + t);
            assert forall|i: int| 0 <= i < c.len() implies strictly_below(root, #[trigger] c[i]) by {
                if i > 0 {
                    assert(c[i] == t[i - 1]);
                }
            }
            assert forall|i: int| 0 <= i < c.len() - 1 implies parent_spec(#[trigger] c[i]) == Some(
                c[i + 1],
            ) by {
                assert(c[i + 1] == t[i]);
                if i > 0 {
                    assert(c[i] == t[i - 1]);
                }
            }
        }
    }
}

/// What a move does after the atomic rename failed.
#[derive(Debug, Clone, Copy, PartialEq, Eq, Structural)]
pub enum Fallback {
    /// Copy the file's bytes, then delete the original.
    CopyFile,
    /// Copy the whole tree, then delete the original tree.
    CopyTree,
    /// Give up and report the rename's error.
    Fail,
}

/// The fallback after a failed rename: only a move across devices is
/// retried, by copying a plain file or a whole directory tree.
pub fn rename_fallback(cross_device: bool, is_file: bool) -> (f: Fallback)
    ensures
        !cross_device ==> f == Fallback::Fail,
        cross_device && is_file ==> f == Fallback::CopyFile,
        cross_device && !is_file ==> f == Fallback::CopyTree,
{
    if !cross_device {
        Fallback::Fail
    } else if is_file {
        Fallback::CopyFile
    } else {
        Fallback::CopyTree
    }
}

} // verus!
