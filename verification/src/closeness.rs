//! How close a file lies to another, by the components that their paths
//! share.

use vstd::prelude::*;
use crate::text::texts;

verus! {

/// How many components two paths share from place `from` on before they
/// part.
pub open spec fn shared_from(start: Seq<Seq<char>>, path: Seq<Seq<char>>, from: int) -> nat
    decreases start.len() - from,
{
    if 0 <= from < start.len() && from < path.len() && start[from] == path[from] {
        1 + shared_from(start, path, from + 1)
    } else {
        0
    }
}

/// How many leading components a path shares with the start.
pub open spec fn shared_lead(start: Seq<Seq<char>>, path: Seq<Seq<char>>) -> nat {
    shared_from(start, path, 0)
}

/// Counts the leading components that a path shares with the start.
pub fn shared_count(start: &Vec<String>, path: &Vec<String>) -> (count: usize)
    ensures
        count == shared_lead(texts(start@), texts(path@)),
        count <= start.len(),
{
    let mut i: usize = 0;
    while i < start.len() && i < path.len() && start[i] == path[i]
        invariant
            i <= start.len(),
            shared_lead(texts(start@), texts(path@)) == i + shared_from(
                texts(start@),
                texts(path@),
                i as int,
            ),
        decreases start.len() - i,
    {
        i += 1;
    }
    i
}

/// A copy of the path.
pub fn copy_path(path: &Vec<String>) -> (out: Vec<String>)
    ensures
        texts(out@) == texts(path@),
{
    let mut out: Vec<String> = Vec::new();
    let mut i: usize = 0;
    while i < path.len()
        invariant
            i <= path.len(),
            out.len() == i,
            texts(out@) == texts(path@).take(i as int),
        decreases path.len() - i,
    {
        let ghost so_far = texts(out@);
        out.push(path[i].clone());
        i += 1;
        proof {
            assert(texts(out@) =~= so_far.push(path@[i - 1]@));
            assert(texts(out@) =~= texts(path@).take(i as int));
        }
    }
    proof {
        assert(texts(path@).take(path.len() as int) =~= texts(path@));
    }
    out
}

/// The views of a sequence of paths.
pub open spec fn path_views(paths: Seq<Vec<String>>) -> Seq<Seq<Seq<char>>> {
    paths.map_values(|p: Vec<String>| texts(p@))
}

/// The paths that share exactly `wanted` leading components with the
/// start, in their order.
pub open spec fn at_distance(
    start: Seq<Seq<char>>,
    paths: Seq<Seq<Seq<char>>>,
    wanted: nat,
) -> Seq<Seq<Seq<char>>>
    decreases paths.len(),
{
    if paths.len() == 0 {
        Seq::empty()
    } else {
        let front = at_distance(start, paths.drop_last(), wanted);
        if shared_lead(start, paths.last()) == wanted {
            front.push(paths.last())
        } else {
            front
        }
    }
}

/// The paths that share at most `most` leading components with the
/// start: those that share more before those that share fewer, and those
/// that share equally many in their order.
pub open spec fn from_distance(
    start: Seq<Seq<char>>,
    paths: Seq<Seq<Seq<char>>>,
    most: int,
) -> Seq<Seq<Seq<char>>>
    decreases most + 1,
{
    if most < 0 {
        Seq::empty()
    } else {
        at_distance(start, paths, most as nat) + from_distance(start, paths, most - 1)
    }
}

/// The paths with the closest to the start first: a path that shares more
/// leading components with the start comes before one that shares fewer,
/// and paths that share equally many keep their order.
pub open spec fn closest_first(
    start: Seq<Seq<char>>,
    paths: Seq<Seq<Seq<char>>>,
) -> Seq<Seq<Seq<char>>> {
    from_distance(start, paths, start.len() as int)
}

/// Walks the paths of files from the closest to a start to the farthest.
pub struct FilePathIterator {
    pub paths: Vec<Vec<String>>,
    /// The place of the path that comes next.
    pub index: usize,
}

impl FilePathIterator {
    /// The paths in the order in which they are to be walked.
    pub fn new(start_path: Vec<String>, all_paths: Vec<Vec<String>>) -> (walk: FilePathIterator)
        ensures
            walk.index == 0,
            path_views(walk.paths@) == closest_first(texts(start_path@), path_views(all_paths@)),
    {
        let ghost start = texts(start_path@);
        let ghost all = path_views(all_paths@);
        let mut distances: Vec<usize> = Vec::new();
        let mut i: usize = 0;
        while i < all_paths.len()
            invariant
                i <= all_paths.len(),
                start == texts(start_path@),
                all == path_views(all_paths@),
                distances.len() == i,
                forall|j: int| 0 <= j < i ==> #[trigger] distances@[j] == shared_lead(start, all[j]),
            decreases all_paths.len() - i,
        {
            distances.push(shared_count(&start_path, &all_paths[i]));
            i += 1;
        }
        let mut paths: Vec<Vec<String>> = Vec::new();
        let mut level: usize = start_path.len();
        loop
            invariant
                level <= start_path.len(),
                start == texts(start_path@),
                all == path_views(all_paths@),
                distances.len() == all_paths.len(),
                forall|j: int|
                    0 <= j < all_paths.len() ==> #[trigger] distances@[j] == shared_lead(
                        start,
                        all[j],
                    ),
                closest_first(start, all) == path_views(paths@) + from_distance(
                    start,
                    all,
                    level as int,
                ),
            decreases level,
        {
            let ghost before = path_views(paths@);
            let mut k: usize = 0;
            while k < all_paths.len()
                invariant
                    k <= all_paths.len(),
                    all == path_views(all_paths@),
                    distances.len() == all_paths.len(),
                    forall|j: int|
                        0 <= j < all_paths.len() ==> #[trigger] distances@[j] == shared_lead(
                            start,
                            all[j],
                        ),
                    path_views(paths@) == before + at_distance(
                        start,
                        all.take(k as int),
                        level as nat,
                    ),
                decreases all_paths.len() - k,
            {
                proof {
                    assert(all.take(k + 1).drop_last() =~= all.take(k as int));
                    assert(all.take(k + 1).last() == all[k as int]);
                }
                if distances[k] == level {
                    let ghost so_far = path_views(paths@);
                    paths.push(copy_path(&all_paths[k]));
                    proof {
                        assert(path_views(paths@) =~= so_far.push(all[k as int]));
                    }
                }
                k += 1;
            }
            proof {
                assert(all.take(all_paths.len() as int) =~= all);
            }
            if level == 0 {
                proof {
                    assert(from_distance(start, all, -1) =~= Seq::<Seq<Seq<char>>>::empty());
                    assert(closest_first(start, all) =~= path_views(paths@));
                }
                return FilePathIterator { paths, index: 0 };
            }
            proof {
                assert(closest_first(start, all) =~= path_views(paths@) + from_distance(
                    start,
                    all,
                    level - 1,
                ));
            }
            level -= 1;
        }
    }

    /// The path that comes next, if one is left.
    pub fn next(&mut self) -> (path: Option<Vec<String>>)
        ensures
            final(self).paths == old(self).paths,
            match path {
                Some(p) => old(self).index < old(self).paths.len() && texts(p@) == texts(
                    old(self).paths@[old(self).index as int]@,
                ) && final(self).index == old(self).index + 1,
                None => old(self).index >= old(self).paths.len() && final(self).index == old(
                    self,
                ).index,
            },
    {
        if self.index < self.paths.len() {
            let path = copy_path(&self.paths[self.index]);
            self.index += 1;
            Some(path)
        } else {
            None
        }
    }
}

} // verus!
