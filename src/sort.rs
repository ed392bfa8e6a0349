use vstd::prelude::*;

use crate::path::{opt_view, same_path, segs};
use crate::scan::{ext_of, has_ext, last_dot, lemma_last_dot};
use crate::song::{canonical_layout, ext_suffix, file_name_of, Song};

verus! {

/// A file to copy from `source` to `dest`, removing `source` afterwards when
/// `remove_source` is set.
#[derive(Debug, Clone)]
pub struct FileOp {
    pub source: Vec<String>,
    pub dest: Vec<String>,
    pub remove_source: bool,
}

impl FileOp {
    pub open spec fn pair(self) -> (Seq<Seq<char>>, Seq<Seq<char>>) {
        (segs(self.source@), segs(self.dest@))
    }
}

/// Why a library cannot be sorted.
#[derive(Debug, Clone, Copy, PartialEq, Eq, Structural)]
pub enum SortError {
    /// The destination of a copy is the library root itself.
    SameDirectory,
    /// A song would be copied onto itself.
    CopyToSelf,
    /// A song's tags would put it at a path with an empty, `.` or `..`
    /// segment, or split a segment, and so possibly outside the root.
    InvalidLayout,
}

/// Where a song belongs below `root`.
pub open spec fn target_of(root: Seq<Seq<char>>, s: Song) -> Seq<Seq<char>> {
    root + s.canonical()
}

/// The moves that sorting in place performs: each song that is not where it
/// belongs goes there, in the order of the songs.
pub open spec fn moves(root: Seq<Seq<char>>, songs: Seq<Song>) -> Seq<
    (Seq<Seq<char>>, Seq<Seq<char>>),
>
    decreases songs.len(),
{
    if songs.len() == 0 {
        Seq::empty()
    } else {
        let prev = moves(root, songs.drop_last());
        let s = songs.last();
        if target_of(root, s) != segs(s.path@) {
            prev.push((segs(s.path@), target_of(root, s)))
        } else {
            prev
        }
    }
}

/// The copies that sorting out to `dest` performs: every song, in order.
pub open spec fn copies(dest: Seq<Seq<char>>, songs: Seq<Song>) -> Seq<
    (Seq<Seq<char>>, Seq<Seq<char>>),
> {
    songs.map_values(|s: Song| (segs(s.path@), target_of(dest, s)))
}

/// Whether some song would be copied onto itself.
pub open spec fn copies_onto_self(dest: Seq<Seq<char>>, songs: Seq<Song>) -> bool {
    exists|i: int| 0 <= i < songs.len() && target_of(dest, #[trigger] songs[i]) == segs(songs[i].path@)
}

/// Every song's tags give it a well-formed place.
pub open spec fn layouts_ok(songs: Seq<Song>) -> bool {
    forall|i: int| 0 <= i < songs.len() ==> (#[trigger] songs[i]).layout_ok()
}

/// Whether every song's tags give it a well-formed place.
pub fn all_layouts_ok(songs: &Vec<Song>) -> (r: bool)
    ensures
        r == layouts_ok(songs@),
{
    let mut i: usize = 0;
    while i < songs.len()
        invariant
            i <= songs@.len(),
            forall|j: int| 0 <= j < i ==> (#[trigger] songs@[j]).layout_ok(),
        decreases songs.len() - i,
    {
        if !songs[i].canonical_path().is_wf() {
            return false;
        }
        i = i + 1;
    }
    true
}

/// The moves that put each song of a library rooted at `root` where it
/// belongs, or `InvalidLayout` when some song's tags give it no well-formed
/// place.
pub fn plan_moves(root: &Vec<String>, songs: &Vec<Song>) -> (r: Result<Vec<FileOp>, SortError>)
    ensures
        match r {
            Ok(ops) => layouts_ok(songs@) && ops@.map_values(|op: FileOp| op.pair()) == moves(
                segs(root@),
                songs@,
            ) && forall|i: int| 0 <= i < ops@.len() ==> (#[trigger] ops@[i]).remove_source,
            Err(e) => e == SortError::InvalidLayout && !layouts_ok(songs@),
        },
{
    if !all_layouts_ok(songs) {
        return Err(SortError::InvalidLayout);
    }
    let mut ops: Vec<FileOp> = Vec::new();
    let mut i: usize = 0;
    while i < songs.len()
        invariant
            i <= songs@.len(),
            ops@.map_values(|op: FileOp| op.pair()) == moves(segs(root@), songs@.subrange(0, i as int)),
            forall|k: int| 0 <= k < ops@.len() ==> (#[trigger] ops@[k]).remove_source,
        decreases songs.len() - i,
    {
        let ghost pre = songs@.subrange(0, i as int);
        let ghost cur = songs@.subrange(0, i + 1);
        assert(cur.drop_last() =~= pre);
        let song = &songs[i];
        let dest = song.canonical_path().rebase(root.clone());
        if !same_path(&dest, &song.path) {
            let ghost prev = ops@;
            ops.push(FileOp { source: song.path.clone(), dest, remove_source: true });
            assert(ops@.map_values(|op: FileOp| op.pair()) =~= prev.map_values(
                |op: FileOp| op.pair(),
            ).push((segs(song.path@), target_of(segs(root@), *song))));
        }
        i = i + 1;
    }
    assert(songs@.subrange(0, i as int) =~= songs@);
    Ok(ops)
}

/// The copies that put each song where it belongs below `dest`:
/// `InvalidLayout` when some song's tags give it no well-formed place, else
/// `CopyToSelf` when one would land on itself.
pub fn plan_copies(dest: &Vec<String>, songs: &Vec<Song>) -> (r: Result<Vec<FileOp>, SortError>)
    ensures
        match r {
            Ok(ops) => layouts_ok(songs@) && !copies_onto_self(segs(dest@), songs@)
                && ops@.map_values(|op: FileOp| op.pair()) == copies(segs(dest@), songs@)
                && forall|i: int| 0 <= i < ops@.len() ==> !(#[trigger] ops@[i]).remove_source,
            Err(e) => if !layouts_ok(songs@) {
                e == SortError::InvalidLayout
            } else {
                e == SortError::CopyToSelf && copies_onto_self(segs(dest@), songs@)
            },
        },
{
    if !all_layouts_ok(songs) {
        return Err(SortError::InvalidLayout);
    }
    let mut ops: Vec<FileOp> = Vec::new();
    let mut i: usize = 0;
    while i < songs.len()
        invariant
            i <= songs@.len(),
            ops@.len() == i,
            layouts_ok(songs@),
            forall|k: int|
                0 <= k < i ==> (#[trigger] ops@[k]).pair() == (
                    segs(songs@[k].path@),
                    target_of(segs(dest@), songs@[k]),
                ) && !ops@[k].remove_source,
            forall|k: int|
                0 <= k < i ==> target_of(segs(dest@), #[trigger] songs@[k]) != segs(songs@[k].path@),
        decreases songs.len() - i,
    {
        let song = &songs[i];
        let to = song.canonical_path().rebase(dest.clone());
        if same_path(&to, &song.path) {
            assert(target_of(segs(dest@), songs@[i as int]) == segs(songs@[i as int].path@));
            return Err(SortError::CopyToSelf);
        }
        ops.push(FileOp { source: song.path.clone(), dest: to, remove_source: false });
        i = i + 1;
    }
    assert(ops@.map_values(|op: FileOp| op.pair()) =~= copies(segs(dest@), songs@));
    Ok(ops)
}

/// What sorting a library rooted at `root` does: with no destination, move
/// each song that is out of place to where it belongs; with a destination
/// other than the root, copy every song to where it belongs there. Nothing
/// is planned when some song's tags give it no well-formed place.
///
/// The index is left to a reconciliation afterwards. As an identity's entry
/// is written once, the entries of moved songs keep the paths recorded
/// before the sort.
pub fn plan_sort(root: &Vec<String>, songs: &Vec<Song>, destination: &Option<Vec<String>>) -> (r:
    Result<Vec<FileOp>, SortError>)
    ensures
        match destination {
            None => if !layouts_ok(songs@) {
                r == Err::<Vec<FileOp>, SortError>(SortError::InvalidLayout)
            } else {
                r matches Ok(ops) && ops@.map_values(|op: FileOp| op.pair()) == moves(
                    segs(root@),
                    songs@,
                ) && forall|i: int| 0 <= i < ops@.len() ==> (#[trigger] ops@[i]).remove_source
            },
            Some(d) => if segs(d@) == segs(root@) {
                r == Err::<Vec<FileOp>, SortError>(SortError::SameDirectory)
            } else if !layouts_ok(songs@) {
                r == Err::<Vec<FileOp>, SortError>(SortError::InvalidLayout)
            } else if copies_onto_self(segs(d@), songs@) {
                r == Err::<Vec<FileOp>, SortError>(SortError::CopyToSelf)
            } else {
                r matches Ok(ops) && ops@.map_values(|op: FileOp| op.pair()) == copies(
                    segs(d@),
                    songs@,
                ) && forall|i: int| 0 <= i < ops@.len() ==> !(#[trigger] ops@[i]).remove_source
            },
        },
{
    match destination {
        None => plan_moves(root, songs),
        Some(d) => {
            if same_path(d, root) {
                Err(SortError::SameDirectory)
            } else {
                plan_copies(d, songs)
            }
        },
    }
}

/// No `.` follows the one put between a text and an extension without `.`.
proof fn lemma_last_dot_append(t: Seq<char>, e: Seq<char>)
    requires
        forall|j: int| 0 <= j < e.len() ==> e[j] != '.',
    ensures
        last_dot(t + seq!['.'] + e) == t.len(),
    decreases e.len(),
{
    let n = t + seq!['.'] + e;
    if e.len() > 0 {
        assert(n.drop_last() =~= t + seq!['.'] + e.drop_last());
        lemma_last_dot_append(t, e.drop_last());
    }
}

/// The file name that a titled song gets by sorting leads back to the same
/// place: it is the title with the extension kept.
proof fn lemma_layout_stable(
    artist: Option<Seq<char>>,
    album: Option<Seq<char>>,
    title: Seq<char>,
    name: Seq<char>,
)
    requires
        has_ext(name),
        title.len() > 0,
    ensures
        canonical_layout(
            artist,
            album,
            Some(title),
            canonical_layout(artist, album, Some(title), name)[2],
        ) == canonical_layout(artist, album, Some(title), name),
{
    lemma_last_dot(name);
    let e = name.subrange(last_dot(name) + 1, name.len() as int);
    assert(ext_of(name) == Some(e));
    assert forall|j: int| 0 <= j < e.len() implies e[j] != '.' by {
        assert(e[j] == name[last_dot(name) + 1 + j]);
    }
    let n2 = title + seq!['.'] + e;
    assert(canonical_layout(artist, album, Some(title), name)[2] =~= n2);
    lemma_last_dot_append(title, e);
    assert(n2.subrange(title.len() as int + 1, n2.len() as int) =~= e);
    assert(ext_of(n2) == Some(e));
    assert(ext_suffix(n2) == ext_suffix(name));
    assert(canonical_layout(artist, album, Some(title), n2) =~= canonical_layout(
        artist,
        album,
        Some(title),
        name,
    ));
}

/// Songs that all lie where they belong need no move.
proof fn lemma_no_moves(root: Seq<Seq<char>>, songs: Seq<Song>)
    requires
        forall|i: int|
            0 <= i < songs.len() ==> target_of(root, #[trigger] songs[i]) == segs(songs[i].path@),
    ensures
        moves(root, songs).len() == 0,
    decreases songs.len(),
{
    if songs.len() > 0 {
        let pre = songs.drop_last();
        assert forall|i: int| 0 <= i < pre.len() implies target_of(root, #[trigger] pre[i]) == segs(
            pre[i].path@,
        ) by {
            assert(pre[i] == songs[i]);
        }
        lemma_no_moves(root, pre);
        assert(target_of(root, songs[songs.len() - 1]) == segs(songs.last().path@));
    }
}

/// Sorting in place is idempotent for titled songs: once each song has been
/// moved where it belongs, keeping its tags, each still belongs at the same
/// place, and sorting again moves nothing. This holds of audio files, whose
/// names have an extension, with title tags that are not empty. An untitled
/// song is named after its file, extension included, so each sort lengthens
/// its name by one more extension.
pub proof fn lemma_sort_idempotent(root: Seq<Seq<char>>, songs: Seq<Song>, sorted: Seq<Song>)
    requires
        sorted.len() == songs.len(),
        forall|i: int|
            0 <= i < songs.len() ==> {
                &&& has_ext(#[trigger] songs[i].file_name())
                &&& songs[i].title matches Some(t) && t@.len() > 0
            },
        forall|i: int|
            0 <= i < songs.len() ==> {
                &&& opt_view((#[trigger] sorted[i]).title) == opt_view(songs[i].title)
                &&& opt_view(sorted[i].artist) == opt_view(songs[i].artist)
                &&& opt_view(sorted[i].album) == opt_view(songs[i].album)
                &&& segs(sorted[i].path@) == target_of(root, songs[i])
            },
    ensures
        forall|i: int| 0 <= i < songs.len() ==> (#[trigger] sorted[i]).canonical() == songs[i].canonical(),
        layouts_ok(songs) ==> layouts_ok(sorted),
        moves(root, sorted).len() == 0,
{
    assert forall|i: int| 0 <= i < songs.len() implies (#[trigger] sorted[i]).canonical()
        == songs[i].canonical() by {
        let s = songs[i];
        let c = s.canonical();
        let t = s.title->Some_0@;
        lemma_layout_stable(opt_view(s.artist), opt_view(s.album), t, s.file_name());
        assert(file_name_of(segs(sorted[i].path@)) == c[2]);
    }
    if layouts_ok(songs) {
        assert forall|i: int| 0 <= i < sorted.len() implies (#[trigger] sorted[i]).layout_ok() by {
            assert(songs[i].layout_ok());
            assert(sorted[i].canonical() == songs[i].canonical());
        }
    }
    assert forall|i: int| 0 <= i < sorted.len() implies target_of(root, #[trigger] sorted[i])
        == segs(sorted[i].path@) by {
        assert(sorted[i].canonical() == songs[i].canonical());
    }
    lemma_no_moves(root, sorted);
}

} // verus!
