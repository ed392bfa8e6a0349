use vstd::prelude::*;

use crate::path::{same_text, segs};

verus! {

/// How deep below the root a scan looks for files.
pub const MAX_DEPTH: usize = 5;

/// The position of the last `.` in a name, or -1.
pub open spec fn last_dot(s: Seq<char>) -> int
    decreases s.len(),
{
    if s.len() == 0 {
        -1
    } else if s.last() == '.' {
        s.len() - 1
    } else {
        last_dot(s.drop_last())
    }
}

/// Whether a file name has an extension: a `.` after its first character.
pub open spec fn has_ext(s: Seq<char>) -> bool {
    last_dot(s) > 0
}

/// A file name without its extension.
pub open spec fn stem_of(s: Seq<char>) -> Seq<char> {
    if has_ext(s) {
        s.subrange(0, last_dot(s))
    } else {
        s
    }
}

/// The extension of a file name: what follows its last `.`.
pub open spec fn ext_of(s: Seq<char>) -> Option<Seq<char>> {
    if has_ext(s) {
        Some(s.subrange(last_dot(s) + 1, s.len() as int))
    } else {
        None
    }
}

/// A hidden name starts with `.`.
pub open spec fn hidden(s: Seq<char>) -> bool {
    s.len() > 0 && s[0] == '.'
}

/// The extensions of the audio files that a library holds.
pub open spec fn music_ext(e: Seq<char>) -> bool {
    e == "mp3"@ || e == "flac"@ || e == "aac"@
}

/// Whether an entry at `rel` below the root is an audio file of the library:
/// a regular file, within the depth of a scan, under no hidden directory
/// (its own name may start with `.`), with a supported extension.
pub open spec fn music_entry(rel: Seq<Seq<char>>, is_file: bool) -> bool {
    &&& is_file
    &&& 1 <= rel.len() <= MAX_DEPTH
    &&& forall|i: int| 0 <= i < rel.len() - 1 ==> !hidden(#[trigger] rel[i])
    &&& match ext_of(rel.last()) {
        Some(e) => music_ext(e),
        None => false,
    }
}

/// Whether an entry at `rel` below the root is a playlist: a file right
/// under the root with the extension `m3u`.
pub open spec fn playlist_entry(rel: Seq<Seq<char>>, is_file: bool) -> bool {
    is_file && rel.len() == 1 && ext_of(rel[0]) == Some("m3u"@)
}

/// The last `.` of a name stands within it, and no `.` follows it.
pub proof fn lemma_last_dot(s: Seq<char>)
    ensures
        -1 <= last_dot(s) < s.len(),
        last_dot(s) >= 0 ==> s[last_dot(s)] == '.',
        forall|j: int| last_dot(s) < j < s.len() ==> s[j] != '.',
    decreases s.len(),
{
    if s.len() > 0 && s.last() != '.' {
        lemma_last_dot(s.drop_last());
        assert forall|j: int| last_dot(s) < j < s.len() implies s[j] != '.' by {
            if j < s.len() - 1 {
                assert(s.drop_last()[j] == s[j]);
            }
        }
    }
}

/// The position of the last `.` in a name.
fn find_last_dot(s: &str) -> (r: Option<usize>)
    ensures
        match r {
            Some(i) => i as int == last_dot(s@),
            None => last_dot(s@) == -1,
        },
{
    let mut i = s.unicode_len();
    assert(s@.subrange(0, i as int) =~= s@);
    while i > 0
        invariant
            i <= s@.len(),
            last_dot(s@) == last_dot(s@.subrange(0, i as int)),
        decreases i,
    {
        let ghost pre = s@.subrange(0, i as int);
        assert(pre.drop_last() =~= s@.subrange(0, i - 1));
        if s.get_char(i - 1) == '.' {
            return Some(i - 1);
        }
        i = i - 1;
    }
    None
}

/// Splits a file name into its stem and its extension.
pub fn split_file_name(name: &str) -> (r: (String, Option<String>))
    ensures
        r.0@ == stem_of(name@),
        crate::path::opt_view(r.1) == ext_of(name@),
{
    match find_last_dot(name) {
        Some(i) => {
            proof {
                lemma_last_dot(name@);
            }
            if i > 0 {
                let n = name.unicode_len();
                let stem = name.substring_char(0, i).to_owned();
                let ext = name.substring_char(i + 1, n).to_owned();
                (stem, Some(ext))
            } else {
                (name.to_owned(), None)
            }
        },
        None => (name.to_owned(), None),
    }
}

/// Whether a name is hidden.
pub fn is_hidden(name: &str) -> (r: bool)
    ensures
        r == hidden(name@),
{
    name.unicode_len() > 0 && name.get_char(0) == '.'
}

/// Whether an extension is one of an audio file.
fn is_music_ext(e: &str) -> (r: bool)
    ensures
        r == music_ext(e@),
{
    same_text(e, "mp3") || same_text(e, "flac") || same_text(e, "aac")
}

/// Whether an entry at `rel` below the root, a regular file when `is_file`,
/// is an audio file of the library.
pub fn is_music_file(rel: &Vec<String>, is_file: bool) -> (r: bool)
    ensures
        r == music_entry(segs(rel@), is_file),
{
    if !is_file || rel.len() == 0 || rel.len() > MAX_DEPTH {
        return false;
    }
    let mut i: usize = 0;
    while i < rel.len() - 1
        invariant
            1 <= rel@.len(),
            i <= rel@.len() - 1,
            forall|j: int| 0 <= j < i ==> !hidden(#[trigger] segs(rel@)[j]),
        decreases rel.len() - 1 - i,
    {
        if is_hidden(rel[i].as_str()) {
            assert(hidden(segs(rel@)[i as int]));
            return false;
        }
        i = i + 1;
    }
    let last = rel.len() - 1;
    assert(segs(rel@).last() == rel@[last as int]@);
    let (_, ext) = split_file_name(rel[last].as_str());
    match ext {
        Some(e) => is_music_ext(e.as_str()),
        None => false,
    }
}

/// Whether an entry at `rel` below the root, a regular file when `is_file`,
/// is a playlist of the library.
pub fn is_playlist(rel: &Vec<String>, is_file: bool) -> (r: bool)
    ensures
        r == playlist_entry(segs(rel@), is_file),
{
    if !is_file || rel.len() != 1 {
        return false;
    }
    let (_, ext) = split_file_name(rel[0].as_str());
    match ext {
        Some(e) => same_text(e.as_str(), "m3u"),
        None => false,
    }
}

} // verus!
