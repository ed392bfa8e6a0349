use vstd::prelude::*;

use crate::identity::SongUuid;
use crate::index::DbEntry;
use crate::path::{descends, segment_ok, segs, RelativePath};
use crate::song::Song;

verus! {

/// The identities that the songs hold.
pub open spec fn song_ids(songs: Seq<Song>) -> Set<SongUuid> {
    Set::new(|id: SongUuid| exists|i: int| 0 <= i < songs.len() && songs[i].uuid == Some(id))
}

/// Song `i` is the first that holds its identity.
pub open spec fn first_holder(songs: Seq<Song>, i: int) -> bool {
    forall|j: int| 0 <= j < i ==> songs[j].uuid != songs[i].uuid
}

/// Song `i` holds an identity that the index does not know, and is the first
/// song to hold it.
pub open spec fn new_at(songs: Seq<Song>, indexed: Seq<SongUuid>, i: int) -> bool {
    &&& 0 <= i < songs.len()
    &&& songs[i].uuid matches Some(id)
    &&& !indexed.contains(id)
    &&& first_holder(songs, i)
}

/// Whether `target` can be taken relative to `root`.
pub open spec fn relative_ok(root: Seq<Seq<char>>, target: Seq<Seq<char>>) -> bool {
    &&& descends(root, target)
    &&& forall|j: int| root.len() <= j < target.len() ==> segment_ok(#[trigger] target[j])
}

/// Entry `e` records song `i`, a new identity, where it lies below `root`.
pub open spec fn records(
    root: Seq<Seq<char>>,
    songs: Seq<Song>,
    indexed: Seq<SongUuid>,
    e: (SongUuid, DbEntry),
    i: int,
) -> bool {
    &&& new_at(songs, indexed, i)
    &&& songs[i].uuid == Some(e.0)
    &&& e.1.old_path@ == segs(songs[i].path@).skip(root.len() as int)
    &&& e.1.old_path.wf()
}

/// Entry `e` records one of the first `n` songs.
pub open spec fn recorded(
    root: Seq<Seq<char>>,
    songs: Seq<Song>,
    indexed: Seq<SongUuid>,
    e: (SongUuid, DbEntry),
    n: int,
) -> bool {
    exists|i: int| 0 <= i < n && #[trigger] records(root, songs, indexed, e, i)
}

/// Some entry of `adds` is for `id`.
pub open spec fn adds_id(adds: Seq<(SongUuid, DbEntry)>, id: SongUuid) -> bool {
    exists|a: int| 0 <= a < adds.len() && (#[trigger] adds[a]).0 == id
}

/// `additions_ok` for the first `n` songs.
pub open spec fn additions_upto(
    root: Seq<Seq<char>>,
    songs: Seq<Song>,
    indexed: Seq<SongUuid>,
    adds: Seq<(SongUuid, DbEntry)>,
    n: int,
) -> bool {
    &&& forall|a: int, b: int| 0 <= a < b < adds.len() ==> adds[a].0 != adds[b].0
    &&& forall|a: int|
        0 <= a < adds.len() ==> #[trigger] recorded(root, songs, indexed, adds[a], n)
    &&& forall|i: int|
        0 <= i < n && #[trigger] new_at(songs, indexed, i) ==> adds_id(adds, songs[i].uuid->Some_0)
}

/// The entries to insert into an index that holds `indexed`: one for each
/// identity that a song holds and the index does not, recording where the
/// first song holding it lies below `root`.
pub open spec fn additions_ok(
    root: Seq<Seq<char>>,
    songs: Seq<Song>,
    indexed: Seq<SongUuid>,
    adds: Seq<(SongUuid, DbEntry)>,
) -> bool {
    additions_upto(root, songs, indexed, adds, songs.len() as int)
}

/// A song that adds no identity leaves the planned additions as they are.
proof fn lemma_upto_skip(
    root: Seq<Seq<char>>,
    songs: Seq<Song>,
    indexed: Seq<SongUuid>,
    adds: Seq<(SongUuid, DbEntry)>,
    n: int,
)
    requires
        0 <= n,
        additions_upto(root, songs, indexed, adds, n),
        !new_at(songs, indexed, n),
    ensures
        additions_upto(root, songs, indexed, adds, n + 1),
{
    assert forall|a: int| 0 <= a < adds.len() implies #[trigger] recorded(
        root,
        songs,
        indexed,
        adds[a],
        n + 1,
    ) by {
        assert(recorded(root, songs, indexed, adds[a], n));
        let i = choose|i: int| 0 <= i < n && #[trigger] records(root, songs, indexed, adds[a], i);
        assert(0 <= i < n + 1 && records(root, songs, indexed, adds[a], i));
    }
    assert forall|i: int| 0 <= i < n + 1 && #[trigger] new_at(songs, indexed, i) implies adds_id(
        adds,
        songs[i].uuid->Some_0,
    ) by {
        assert(i < n);
    }
}

/// Whether `id` is in `ids`.
pub fn contains_id(ids: &Vec<SongUuid>, id: SongUuid) -> (r: bool)
    ensures
        r == ids@.contains(id),
{
    let mut i: usize = 0;
    while i < ids.len()
        invariant
            i <= ids@.len(),
            forall|j: int| 0 <= j < i ==> ids@[j] != id,
        decreases ids.len() - i,
    {
        if ids[i] == id {
            return true;
        }
        i = i + 1;
    }
    false
}

/// Whether some song holds `id`.
pub fn held_by_some(songs: &Vec<Song>, id: SongUuid) -> (r: bool)
    ensures
        r == song_ids(songs@).contains(id),
{
    let mut i: usize = 0;
    while i < songs.len()
        invariant
            i <= songs@.len(),
            forall|j: int| 0 <= j < i ==> songs@[j].uuid != Some(id),
        decreases songs.len() - i,
    {
        if let Some(u) = songs[i].uuid {
            if u == id {
                assert(songs@[i as int].uuid == Some(id));
                return true;
            }
        }
        i = i + 1;
    }
    false
}

/// Plans the first step of a reconciliation: the entries to add to an index
/// that holds `indexed`, for the songs of a library rooted at `root`. Fails
/// when one of those songs cannot be placed relative to the root, with the
/// position of the first such song and why.
///
/// An entry is written once per identity: an identity that the index already
/// holds keeps the path recorded for it, even where its file has moved since.
pub fn plan_additions(root: &Vec<String>, songs: &Vec<Song>, indexed: &Vec<SongUuid>) -> (r:
    Result<Vec<(SongUuid, DbEntry)>, (usize, crate::path::PathError)>)
    ensures
        match r {
            Ok(adds) => additions_ok(segs(root@), songs@, indexed@, adds@),
            Err((i, _)) => new_at(songs@, indexed@, i as int) && !relative_ok(
                segs(root@),
                segs(songs@[i as int].path@),
            ) && forall|j: int|
                0 <= j < i && new_at(songs@, indexed@, j) ==> relative_ok(
                    segs(root@),
                    segs(songs@[j].path@),
                ),
        },
        r is Err <==> exists|i: int|
            new_at(songs@, indexed@, i) && !relative_ok(segs(root@), segs(songs@[i].path@)),
{
    let mut adds: Vec<(SongUuid, DbEntry)> = Vec::new();
    let mut added: Vec<SongUuid> = Vec::new();
    let mut i: usize = 0;
    while i < songs.len()
        invariant
            i <= songs@.len(),
            added@.len() == adds@.len(),
            forall|a: int| 0 <= a < adds@.len() ==> adds@[a].0 == #[trigger] added@[a],
            forall|id: SongUuid|
                added@.contains(id) <==> exists|j: int|
                    0 <= j < i && songs@[j].uuid == Some(id) && !indexed@.contains(id),
            forall|j: int|
                0 <= j < i && new_at(songs@, indexed@, j) ==> relative_ok(
                    segs(root@),
                    segs(songs@[j].path@),
                ),
            additions_upto(segs(root@), songs@, indexed@, adds@, i as int),
        decreases songs.len() - i,
    {
        let song = &songs[i];
        if let Some(id) = song.uuid {
            if !contains_id(indexed, id) && !contains_id(&added, id) {
                assert(new_at(songs@, indexed@, i as int)) by {
                    assert forall|j: int| 0 <= j < i implies songs@[j].uuid != songs@[i as int].uuid by {
                        if songs@[j].uuid == Some(id) {
                            assert(added@.contains(id));
                        }
                    }
                }
                match RelativePath::new(root, &song.path) {
                    Ok(rel) => {
                        let ghost rlen = root@.len() as int;
                        assert(relative_ok(segs(root@), segs(song.path@))) by {
                            assert forall|j: int|
                                rlen <= j < song.path@.len() implies segment_ok(
                                #[trigger] segs(song.path@)[j],
                            ) by {
                                assert(rel@[j - rlen] == segs(song.path@)[j]);
                            }
                        }
                        let ghost prev = adds@;
                        let ghost prev_added = added@;
                        adds.push((id, DbEntry { old_path: rel }));
                        added.push(id);
                        assert forall|x: SongUuid|
                            added@.contains(x) <==> exists|j: int|
                                0 <= j < i + 1 && songs@[j].uuid == Some(x) && !indexed@.contains(
                                    x,
                                ) by {
                            if added@.contains(x) && x != id {
                                let a = choose|a: int| 0 <= a < added@.len() && added@[a] == x;
                                assert(prev_added[a] == x);
                                assert(prev_added.contains(x));
                                let j = choose|j: int|
                                    0 <= j < i && songs@[j].uuid == Some(x) && !indexed@.contains(x);
                                assert(0 <= j < i + 1);
                            }
                            if x == id {
                                assert(songs@[i as int].uuid == Some(x) && !indexed@.contains(x));
                            }
                            if exists|j: int|
                                0 <= j < i && songs@[j].uuid == Some(x) && !indexed@.contains(x) {
                                assert(prev_added.contains(x));
                                let a = choose|a: int| 0 <= a < prev_added.len() && prev_added[a] == x;
                                assert(added@[a] == x);
                            }
                            if x == id {
                                assert(added@[added@.len() - 1] == x);
                            }
                        }
                        assert(additions_upto(segs(root@), songs@, indexed@, adds@, i + 1)) by {
                            assert forall|a: int, b: int|
                                0 <= a < b < adds@.len() implies adds@[a].0 != adds@[b].0 by {
                                if b == adds@.len() - 1 {
                                    assert(prev_added[a] == adds@[a].0);
                                }
                            }
                            assert forall|a: int| 0 <= a < adds@.len() implies #[trigger] recorded(
                                segs(root@),
                                songs@,
                                indexed@,
                                adds@[a],
                                i + 1,
                            ) by {
                                if a < prev.len() {
                                    assert(adds@[a] == prev[a]);
                                    assert(recorded(segs(root@), songs@, indexed@, prev[a], i as int));
                                    let j = choose|j: int|
                                        0 <= j < i && #[trigger] records(
                                            segs(root@),
                                            songs@,
                                            indexed@,
                                            prev[a],
                                            j,
                                        );
                                    assert(0 <= j < i + 1 && records(segs(root@), songs@, indexed@, adds@[a], j));
                                } else {
                                    assert(records(segs(root@), songs@, indexed@, adds@[a], i as int));
                                }
                            }
                            assert forall|j: int|
                                0 <= j < i + 1 && #[trigger] new_at(songs@, indexed@, j) implies adds_id(
                                adds@,
                                songs@[j].uuid->Some_0,
                            ) by {
                                if j < i {
                                    assert(adds_id(prev, songs@[j].uuid->Some_0));
                                    let a = choose|a: int|
                                        0 <= a < prev.len() && (#[trigger] prev[a]).0
                                            == songs@[j].uuid->Some_0;
                                    assert(adds@[a] == prev[a]);
                                } else {
                                    assert(adds@[adds@.len() - 1].0 == id);
                                }
                            }
                        }
                    },
                    Err(e) => {
                        proof {
                            if descends(segs(root@), segs(song.path@)) {
                                let j = choose|j: int|
                                    root@.len() <= j < song.path@.len() && !segment_ok(
                                        #[trigger] song.path@[j]@,
                                    );
                                assert(segs(song.path@)[j] == song.path@[j]@);
                            }
                            assert(!relative_ok(segs(root@), segs(songs@[i as int].path@)));
                        }
                        return Err((i, e));
                    },
                }
            } else {
                proof {
                    if !indexed@.contains(id) {
                        assert(added@.contains(id));
                        let j = choose|j: int|
                            0 <= j < i && songs@[j].uuid == Some(id) && !indexed@.contains(id);
                        assert(!first_holder(songs@, i as int));
                    }
                    assert(!new_at(songs@, indexed@, i as int));
                    lemma_upto_skip(segs(root@), songs@, indexed@, adds@, i as int);
                }
            }
        } else {
            proof {
                lemma_upto_skip(segs(root@), songs@, indexed@, adds@, i as int);
            }
        }
        i = i + 1;
    }
    Ok(adds)
}

/// Whether a tag has to be written back after its blank fields were
/// stripped: only when a field was removed.
pub fn tags_changed(fields_before: usize, fields_after: usize) -> (r: bool)
    ensures
        r == (fields_after < fields_before),
{
    fields_after < fields_before
}

/// No song holds `id`.
pub open spec fn stale(songs: Seq<Song>, id: SongUuid) -> bool {
    !song_ids(songs).contains(id)
}

/// Plans the second step of a reconciliation: the identities to remove from
/// an index that holds `indexed`, those that no song holds, in the order of
/// the index.
pub fn plan_prune(indexed: &Vec<SongUuid>, songs: &Vec<Song>) -> (r: Vec<SongUuid>)
    ensures
        r@ == indexed@.filter(|id: SongUuid| stale(songs@, id)),
{
    let mut out: Vec<SongUuid> = Vec::new();
    let mut i: usize = 0;
    while i < indexed.len()
        invariant
            i <= indexed@.len(),
            out@ == indexed@.subrange(0, i as int).filter(|id: SongUuid| stale(songs@, id)),
        decreases indexed.len() - i,
    {
        let ghost cur = indexed@.subrange(0, i + 1);
        assert(cur.drop_last() =~= indexed@.subrange(0, i as int));
        reveal(Seq::filter);
        let id = indexed[i];
        if !held_by_some(songs, id) {
            out.push(id);
        }
        i = i + 1;
    }
    assert(indexed@.subrange(0, i as int) =~= indexed@);
    out
}

/// Among the songs holding the identity of song `i`, there is a first.
proof fn lemma_first_holder(songs: Seq<Song>, i: int)
    requires
        0 <= i < songs.len(),
    ensures
        exists|k: int|
            0 <= k <= i && first_holder(songs, k) && songs[k].uuid == songs[i].uuid,
    decreases i,
{
    if !first_holder(songs, i) {
        let j = choose|j: int| 0 <= j < i && songs[j].uuid == songs[i].uuid;
        lemma_first_holder(songs, j);
    } else {
        assert(first_holder(songs, i));
    }
}

/// A reconciliation leaves the index holding exactly the identities of the
/// songs: additions planned against the index as it was, then removals
/// planned against the index with those additions.
pub proof fn lemma_reconcile_exact(
    root: Seq<Seq<char>>,
    songs: Seq<Song>,
    before: Seq<SongUuid>,
    adds: Seq<(SongUuid, DbEntry)>,
    between: Seq<SongUuid>,
    removed: Seq<SongUuid>,
)
    requires
        additions_ok(root, songs, before, adds),
        between.to_set() == before.to_set() + adds.map_values(|a: (SongUuid, DbEntry)| a.0).to_set(),
        removed == between.filter(|id: SongUuid| stale(songs, id)),
    ensures
        between.to_set().difference(removed.to_set()) == song_ids(songs),
{
    let pred = |id: SongUuid| stale(songs, id);
    let ids = adds.map_values(|a: (SongUuid, DbEntry)| a.0);
    between.filter_lemma(pred);
    assert forall|x: SongUuid| #[trigger] song_ids(songs).contains(x) implies between.to_set().difference(
        removed.to_set(),
    ).contains(x) by {
        let i = choose|i: int| 0 <= i < songs.len() && songs[i].uuid == Some(x);
        if !before.contains(x) {
            lemma_first_holder(songs, i);
            let k = choose|k: int|
                0 <= k <= i && first_holder(songs, k) && songs[k].uuid == songs[i].uuid;
            assert(new_at(songs, before, k));
            assert(adds_id(adds, x));
            let a = choose|a: int| 0 <= a < adds.len() && (#[trigger] adds[a]).0 == x;
            assert(ids[a] == x);
            assert(ids.to_set().contains(x));
        } else {
            assert(before.to_set().contains(x));
        }
        assert(between.to_set().contains(x));
        if removed.to_set().contains(x) {
            assert(removed.contains(x));
            let r = choose|r: int| 0 <= r < removed.len() && removed[r] == x;
            assert(pred(removed[r]));
        }
    }
    assert forall|x: SongUuid| #[trigger] between.to_set().difference(removed.to_set()).contains(
        x,
    ) implies song_ids(songs).contains(x) by {
        if !song_ids(songs).contains(x) {
            assert(between.contains(x));
            let b = choose|b: int| 0 <= b < between.len() && between[b] == x;
            between.lemma_filter_contains(pred, b);
            assert(removed.to_set().contains(x));
        }
    }
    assert(between.to_set().difference(removed.to_set()) =~= song_ids(songs));
}

/// An identity that the index held and that no song holds any longer, its
/// file being gone, is absent from the index after a reconciliation.
pub proof fn lemma_deleted_pruned(
    root: Seq<Seq<char>>,
    songs: Seq<Song>,
    before: Seq<SongUuid>,
    adds: Seq<(SongUuid, DbEntry)>,
    between: Seq<SongUuid>,
    removed: Seq<SongUuid>,
    gone: SongUuid,
)
    requires
        additions_ok(root, songs, before, adds),
        between.to_set() == before.to_set() + adds.map_values(|a: (SongUuid, DbEntry)| a.0).to_set(),
        removed == between.filter(|id: SongUuid| stale(songs, id)),
        before.contains(gone),
        stale(songs, gone),
    ensures
        between.to_set().contains(gone),
        removed.contains(gone),
        !between.to_set().difference(removed.to_set()).contains(gone),
{
    lemma_reconcile_exact(root, songs, before, adds, between, removed);
    assert(before.to_set().contains(gone));
    assert(between.to_set().contains(gone));
    assert(between.contains(gone));
    let b = choose|b: int| 0 <= b < between.len() && between[b] == gone;
    between.lemma_filter_contains(|id: SongUuid| stale(songs, id), b);
}

} // verus!
