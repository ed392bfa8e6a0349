use vstd::prelude::*;

use crate::path::{segs, RelativePath};

verus! {

/// The name of the index file, directly under a library root.
pub const DBNAME: &'static str = ".bongo.db";

/// Where the index file would stand in the `k`-th ancestor of `dir`, the
/// directory itself being the ancestor 0.
pub open spec fn candidate(dir: Seq<Seq<char>>, k: int) -> Seq<Seq<char>> {
    dir.subrange(0, dir.len() - k).push(DBNAME@)
}

/// `k` is the first position at which `present` holds.
pub open spec fn first_present(present: Seq<bool>, k: int) -> bool {
    &&& 0 <= k < present.len()
    &&& present[k]
    &&& forall|j: int| 0 <= j < k ==> !present[j]
}

/// Why an index cannot be opened or created.
#[derive(Debug, Clone)]
pub enum IndexError {
    /// No directory from the start up to the filesystem root holds an index.
    IndexNotFound,
    /// An index already governs the directory, at `existing`.
    IndexAlreadyExists { existing: Vec<String> },
}

/// What the index stores for a song: its path below the library root when
/// it was last reconciled.
#[derive(Debug, Clone)]
pub struct DbEntry {
    pub old_path: RelativePath,
}

/// The places where an index governing `dir` may stand, nearest first: in
/// `dir`, then in each ancestor up to the filesystem root.
pub fn index_candidates(dir: &Vec<String>) -> (r: Vec<Vec<String>>)
    requires
        dir@.len() < usize::MAX,
    ensures
        r@.len() == dir@.len() + 1,
        forall|k: int| 0 <= k < r@.len() ==> segs((#[trigger] r@[k])@) == candidate(segs(dir@), k),
{
    let mut out: Vec<Vec<String>> = Vec::new();
    let mut k: usize = 0;
    while k <= dir.len()
        invariant
            k <= dir@.len() + 1,
            dir@.len() < usize::MAX,
            out@.len() == k,
            forall|j: int| 0 <= j < k ==> segs((#[trigger] out@[j])@) == candidate(segs(dir@), j),
        decreases dir.len() + 1 - k,
    {
        let mut c: Vec<String> = Vec::new();
        let n = dir.len() - k;
        let mut i: usize = 0;
        while i < n
            invariant
                n <= dir@.len(),
                i <= n,
                segs(c@) == segs(dir@).subrange(0, i as int),
            decreases n - i,
        {
            let ghost prev = c@;
            c.push(dir[i].clone());
            assert(c@ == prev.push(dir@[i as int]));
            assert(segs(c@) =~= segs(prev).push(dir@[i as int]@));
            assert(segs(dir@).subrange(0, i + 1) =~= segs(dir@).subrange(0, i as int).push(
                dir@[i as int]@,
            ));
            i = i + 1;
        }
        let ghost prev = c@;
        c.push(String::from_str(DBNAME));
        assert(segs(c@) =~= candidate(segs(dir@), k as int)) by {
            assert(c@ == prev.push(c@.last()));
        }
        out.push(c);
        k = k + 1;
    }
    out
}

/// Finds the index that governs `dir`: the nearest candidate (see
/// `index_candidates`) that exists, given for each candidate whether it does.
pub fn find_db(dir: &Vec<String>, present: &Vec<bool>) -> (r: Option<Vec<String>>)
    requires
        dir@.len() < usize::MAX,
        present@.len() == dir@.len() + 1,
    ensures
        match r {
            Some(p) => exists|k: int|
                first_present(present@, k) && segs(p@) == candidate(segs(dir@), k),
            None => forall|k: int| 0 <= k < present@.len() ==> !present@[k],
        },
{
    let candidates = index_candidates(dir);
    let mut k: usize = 0;
    while k < present.len()
        invariant
            present@.len() == candidates@.len(),
            k <= present@.len(),
            forall|j: int| 0 <= j < k ==> !present@[j],
            forall|j: int|
                0 <= j < candidates@.len() ==> segs((#[trigger] candidates@[j])@) == candidate(
                    segs(dir@),
                    j,
                ),
        decreases present.len() - k,
    {
        if present[k] {
            let p = candidates[k].clone();
            assert(first_present(present@, k as int));
            return Some(p);
        }
        k = k + 1;
    }
    None
}

/// Finds the root of the library that governs `dir`: the directory of the
/// index that `find_db` finds.
pub fn locate_root(dir: &Vec<String>, present: &Vec<bool>) -> (r: Result<Vec<String>, IndexError>)
    requires
        dir@.len() < usize::MAX,
        present@.len() == dir@.len() + 1,
    ensures
        match r {
            Ok(root) => exists|k: int|
                first_present(present@, k) && segs(root@) == segs(dir@).subrange(
                    0,
                    dir@.len() - k,
                ),
            Err(e) => e is IndexNotFound && forall|k: int|
                0 <= k < present@.len() ==> !present@[k],
        },
{
    match find_db(dir, present) {
        Some(p) => {
            let mut root = p;
            let ghost full = root@;
            root.pop();
            assert(segs(root@) =~= segs(full).drop_last());
            Ok(root)
        },
        None => Err(IndexError::IndexNotFound),
    }
}

/// Which candidates still exist once `force` has removed the index file at
/// the root itself.
pub open spec fn remaining(present: Seq<bool>, force: bool) -> Seq<bool> {
    present.update(0, present[0] && !force)
}

/// What `plan_init` returns: whether an index file at the root itself is to
/// be removed first, or the index that already governs the root.
pub open spec fn init_outcome(
    root: Seq<Seq<char>>,
    force: bool,
    present: Seq<bool>,
    r: Result<bool, IndexError>,
) -> bool {
    let left = remaining(present, force);
    match r {
        Ok(remove) => remove == (force && present[0]) && forall|k: int|
            0 <= k < left.len() ==> !left[k],
        Err(IndexError::IndexAlreadyExists { existing }) => exists|k: int|
            first_present(left, k) && segs(existing@) == candidate(root, k),
        Err(IndexError::IndexNotFound) => false,
    }
}

/// Decides whether a new index may be created at `root`, given for each
/// candidate of `index_candidates(root)` whether it exists. With `force` an
/// index file at the root itself is removed first; an index in an ancestor
/// is never removed, and makes the new library a nested one, which is
/// refused.
pub fn plan_init(root: &Vec<String>, force: bool, present: &Vec<bool>) -> (r: Result<
    bool,
    IndexError,
>)
    requires
        root@.len() < usize::MAX,
        present@.len() == root@.len() + 1,
    ensures
        init_outcome(segs(root@), force, present@, r),
{
    let remove = force && present[0];
    let mut left = present.clone();
    if force {
        left.set(0, false);
    }
    assert(left@ =~= remaining(present@, force));
    match find_db(root, &left) {
        Some(existing) => Err(IndexError::IndexAlreadyExists { existing }),
        None => Ok(remove),
    }
}

/// The nesting guard: where an ancestor of `root` holds an index, creating
/// one at `root` fails with `IndexAlreadyExists`, with or without `force`;
/// with `force` and no index in an ancestor, it succeeds, removing the file
/// at the root first if there is one.
pub proof fn lemma_nesting_guard(
    root: Seq<Seq<char>>,
    force: bool,
    present: Seq<bool>,
    r: Result<bool, IndexError>,
)
    requires
        present.len() == root.len() + 1,
        init_outcome(root, force, present, r),
    ensures
        (exists|k: int| 0 < k < present.len() && present[k]) ==> r is Err,
        r is Err ==> r matches Err(IndexError::IndexAlreadyExists { .. }),
        force && (forall|k: int| 0 < k < present.len() ==> !present[k]) ==> r == Ok::<
            bool,
            IndexError,
        >(present[0]),
{
    let left = remaining(present, force);
    if exists|k: int| 0 < k < present.len() && present[k] {
        let k = choose|k: int| 0 < k < present.len() && present[k];
        assert(left[k]);
    }
    if force && (forall|k: int| 0 < k < present.len() ==> !present[k]) {
        assert forall|k: int| 0 <= k < left.len() implies !left[k] by {
            if k > 0 {
                assert(left[k] == present[k]);
            }
        }
        if r is Err {
            let existing = r->Err_0->existing;
            let k = choose|k: int| first_present(left, k) && segs(existing@) == candidate(root, k);
            assert(left[k]);
        }
    }
}

} // verus!
