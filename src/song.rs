use vstd::prelude::*;

use crate::identity::{decision, parsed_field, read_identity, IdentityError, SongUuid};
use crate::path::{opt_view, segs, RelativePath};
use crate::path::segment_ok;
use crate::scan::{ext_of, split_file_name};

verus! {

/// The folder of songs whose tags name no artist.
pub open spec fn unknown_artist() -> Seq<char> {
    "UnknownArtist"@
}

/// The folder of songs whose tags name no album.
pub open spec fn singles() -> Seq<char> {
    "Singles"@
}

/// The text, or a default when there is none.
pub open spec fn or_else(o: Option<Seq<char>>, d: Seq<char>) -> Seq<char> {
    match o {
        Some(s) => s,
        None => d,
    }
}

/// `.` and the extension of a file name, or nothing when it has none.
pub open spec fn ext_suffix(name: Seq<char>) -> Seq<char> {
    match ext_of(name) {
        Some(e) => seq!['.'] + e,
        None => Seq::empty(),
    }
}

/// Where a song belongs below a library root: artist, album, then the title
/// with the file's own extension. The title defaults to the file's name as
/// it is, so an untitled `x.mp3` becomes `x.mp3.mp3`.
pub open spec fn canonical_layout(
    artist: Option<Seq<char>>,
    album: Option<Seq<char>>,
    title: Option<Seq<char>>,
    name: Seq<char>,
) -> Seq<Seq<char>> {
    seq![
        or_else(artist, unknown_artist()),
        or_else(album, singles()),
        or_else(title, name) + ext_suffix(name),
    ]
}

/// The last segment of a path, or nothing.
pub open spec fn file_name_of(path: Seq<Seq<char>>) -> Seq<char> {
    if path.len() > 0 {
        path.last()
    } else {
        Seq::empty()
    }
}

/// An audio file of a library: where it lies, its identity if it holds one,
/// and the tags that decide where it belongs.
#[derive(Debug, Clone)]
pub struct Song {
    pub path: Vec<String>,
    pub uuid: Option<SongUuid>,
    pub title: Option<String>,
    pub artist: Option<String>,
    pub album: Option<String>,
}

impl Song {
    /// The file's name.
    pub open spec fn file_name(&self) -> Seq<char> {
        file_name_of(segs(self.path@))
    }

    /// Where the song belongs below a library root.
    pub open spec fn canonical(&self) -> Seq<Seq<char>> {
        canonical_layout(
            opt_view(self.artist),
            opt_view(self.album),
            opt_view(self.title),
            self.file_name(),
        )
    }

    /// Whether every segment of where the song belongs may stand in a
    /// relative path: no tag makes a segment empty, `.` or `..`, or splits it.
    pub open spec fn layout_ok(&self) -> bool {
        forall|i: int| 0 <= i < 3 ==> segment_ok(#[trigger] self.canonical()[i])
    }

    /// A song from what its file holds: its path, the text of its identity
    /// field, and its title, artist and album tags. The identity is kept when
    /// the field holds one and left out when the field is absent; a field
    /// that holds no identity is an error.
    pub fn parse(
        path: Vec<String>,
        identity_field: &Option<String>,
        title: Option<String>,
        artist: Option<String>,
        album: Option<String>,
    ) -> (r: Result<Song, IdentityError>)
        ensures
            match decision(parsed_field(opt_view(*identity_field)), true) {
                Ok(uuid) => r matches Ok(s) && s.uuid == uuid && s.path@ == path@ && s.title
                    == title && s.artist == artist && s.album == album,
                Err(e) => r == Err::<Song, IdentityError>(e),
            },
    {
        match read_identity(identity_field) {
            Ok(uuid) => Ok(Song { path, uuid, title, artist, album }),
            Err(e) => Err(e),
        }
    }

    /// Where the song belongs below a library root. The path is well formed
    /// exactly when `layout_ok` holds.
    pub fn canonical_path(&self) -> (r: RelativePath)
        ensures
            r@ == self.canonical(),
            r.wf() <==> self.layout_ok(),
    {
        let name = if self.path.len() > 0 {
            self.path[self.path.len() - 1].clone()
        } else {
            String::new()
        };
        assert(name@ == self.file_name());
        let (_, ext) = split_file_name(name.as_str());
        let artist = match &self.artist {
            Some(a) => a.clone(),
            None => String::from_str("UnknownArtist"),
        };
        let album = match &self.album {
            Some(a) => a.clone(),
            None => String::from_str("Singles"),
        };
        let mut title = match &self.title {
            Some(t) => t.clone(),
            None => name.clone(),
        };
        match ext {
            Some(e) => {
                title.append(".");
                title.append(e.as_str());
                proof {
                    reveal_strlit(".");
                }
            },
            None => {},
        }
        assert(artist@ == or_else(opt_view(self.artist), unknown_artist()));
        assert(album@ == or_else(opt_view(self.album), singles()));
        assert(title@ =~= or_else(opt_view(self.title), name@) + ext_suffix(name@));
        let mut v: Vec<String> = Vec::new();
        v.push(artist);
        v.push(album);
        v.push(title);
        let r = RelativePath(v);
        assert(r@ =~= self.canonical());
        assert(r@.len() == 3);
        r
    }
}

/// A one-line description of a song: its quoted title or `Untitled Song`,
/// then ` by ` and the artist, then ` in album ` and the album, each part
/// only when the tag is there.
pub open spec fn listing(
    title: Option<Seq<char>>,
    artist: Option<Seq<char>>,
    album: Option<Seq<char>>,
) -> Seq<char> {
    let t = match title {
        Some(t) => "'"@ + t + "'"@,
        None => "Untitled Song"@,
    };
    let a = match artist {
        Some(a) => " by "@ + a,
        None => Seq::empty(),
    };
    let b = match album {
        Some(b) => " in album "@ + b,
        None => Seq::empty(),
    };
    t + a + b
}

/// Describes a song in one line from its tags.
pub fn list(song: &Song) -> (r: String)
    ensures
        r@ == listing(opt_view(song.title), opt_view(song.artist), opt_view(song.album)),
{
    let mut out = match &song.title {
        Some(t) => {
            let mut q = String::from_str("'");
            q.append(t.as_str());
            q.append("'");
            q
        },
        None => String::from_str("Untitled Song"),
    };
    match &song.artist {
        Some(a) => {
            out.append(" by ");
            out.append(a.as_str());
        },
        None => {},
    }
    match &song.album {
        Some(b) => {
            out.append(" in album ");
            out.append(b.as_str());
        },
        None => {},
    }
    assert(out@ =~= listing(opt_view(song.title), opt_view(song.artist), opt_view(song.album)));
    out
}

} // verus!
