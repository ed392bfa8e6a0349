use bongo::cli::{Command, CliError};
use bongo::identity::{decide_identity, read_identity, resolve_identity, IdentityError, Resolution, SongUuid};
use bongo::index::{find_db, index_candidates, locate_root, plan_init, IndexError, DBNAME};
use bongo::path::{is_valid_segment, same_path, same_text, PathError, RelativePath};
use bongo::reconcile::{contains_id, held_by_some, plan_additions, plan_prune, tags_changed};
use bongo::scan::{is_hidden, is_music_file, is_playlist, split_file_name};
use bongo::song::Song;
use bongo::sort::{all_layouts_ok, plan_copies, plan_moves, plan_sort, SortError};

fn segs(s: &str) -> Vec<String> {
    s.split('/').filter(|x| !x.is_empty()).map(|x| x.to_string()).collect()
}

fn song(path: &str, uuid: Option<u128>, title: Option<&str>, artist: Option<&str>, album: Option<&str>) -> Song {
    Song {
        path: segs(path),
        uuid: uuid.map(SongUuid),
        title: title.map(|s| s.to_string()),
        artist: artist.map(|s| s.to_string()),
        album: album.map(|s| s.to_string()),
    }
}

const ID_TEXT: &str = "550e8400-e29b-41d4-a716-446655440000";
const ID: u128 = 0x550e8400e29b41d4a716446655440000;

#[test]
fn relative_path_below_root() {
    let r = RelativePath::new(&segs("/music"), &segs("/music/a/b.mp3")).unwrap();
    assert_eq!(r.0, vec!["a".to_string(), "b.mp3".to_string()]);
    assert_eq!(r.to_string(), "a/b.mp3");
}

#[test]
fn relative_path_not_descendant() {
    assert_eq!(
        RelativePath::new(&segs("/music"), &segs("/other/b.mp3")).unwrap_err(),
        PathError::NotDescendant
    );
    assert_eq!(
        RelativePath::new(&segs("/music/a/b"), &segs("/music/a")).unwrap_err(),
        PathError::NotDescendant
    );
}

#[test]
fn relative_path_invalid_segment() {
    let target = vec!["music".to_string(), "..".to_string(), "x.mp3".to_string()];
    assert_eq!(
        RelativePath::new(&segs("/music"), &target).unwrap_err(),
        PathError::InvalidSegment
    );
    assert!(!is_valid_segment(&"".to_string()));
    assert!(!is_valid_segment(&".".to_string()));
    assert!(!is_valid_segment(&"a/b".to_string()));
    assert!(is_valid_segment(&"...".to_string()));
    assert!(is_valid_segment(&".hidden".to_string()));
}

#[test]
fn relative_path_root_itself_is_empty() {
    let r = RelativePath::new(&segs("/music"), &segs("/music")).unwrap();
    assert!(r.0.is_empty());
    assert_eq!(r.to_string(), "");
}

#[test]
fn rebase_prefixes_root() {
    let r = RelativePath(segs("A/B/C.mp3"));
    assert_eq!(r.rebase(segs("/lib")), segs("/lib/A/B/C.mp3"));
    assert!(same_path(&r.rebase(segs("/lib")), &segs("/lib/A/B/C.mp3")));
    assert!(!same_path(&r.rebase(segs("/lib")), &segs("/lib/A/B")));
    assert!(same_text("abc", "abc"));
    assert!(!same_text("abc", "abd"));
}

#[test]
fn identity_text_is_hyphenated() {
    assert_eq!(SongUuid(ID).to_string(), ID_TEXT);
    assert_eq!(SongUuid(0).to_string(), "00000000-0000-0000-0000-000000000000");
}

#[test]
fn resolve_existing_identity() {
    match resolve_identity(&Some(ID_TEXT.to_string()), true) {
        Ok(Resolution::Existing(id)) => assert_eq!(id, SongUuid(ID)),
        other => panic!("unexpected {:?}", other),
    }
    assert_eq!(read_identity(&Some(ID_TEXT.to_string())), Ok(Some(SongUuid(ID))));
    assert_eq!(read_identity(&None), Ok(None));
}

#[test]
fn resolve_invalid_identity() {
    assert!(matches!(
        resolve_identity(&Some("not an identity".to_string()), true),
        Err(IdentityError::InvalidIdentity)
    ));
    assert_eq!(read_identity(&Some("xyz".to_string())), Err(IdentityError::InvalidIdentity));
}

#[test]
fn resolve_missing_identity() {
    assert!(matches!(resolve_identity(&None, false), Err(IdentityError::MissingIdentity)));
}

#[test]
fn resolve_twice_is_stable() {
    let (id, text) = match resolve_identity(&None, true) {
        Ok(Resolution::Assigned(id, text)) => (id, text),
        other => panic!("unexpected {:?}", other),
    };
    assert_eq!(text, id.to_string());
    for assign in [true, false] {
        match resolve_identity(&Some(text.clone()), assign) {
            Ok(Resolution::Existing(again)) => assert_eq!(again, id),
            other => panic!("unexpected {:?}", other),
        }
    }
}

#[test]
fn decide_identity_cases() {
    assert_eq!(decide_identity(Some(Some(7)), false), Ok(Some(SongUuid(7))));
    assert_eq!(decide_identity(Some(None), true), Err(IdentityError::InvalidIdentity));
    assert_eq!(decide_identity(None, true), Ok(None));
    assert_eq!(decide_identity(None, false), Err(IdentityError::MissingIdentity));
}

#[test]
fn split_names() {
    assert_eq!(split_file_name("song.mp3"), ("song".to_string(), Some("mp3".to_string())));
    assert_eq!(split_file_name("a.b.flac"), ("a.b".to_string(), Some("flac".to_string())));
    assert_eq!(split_file_name(".hidden"), (".hidden".to_string(), None));
    assert_eq!(split_file_name("plain"), ("plain".to_string(), None));
    assert_eq!(split_file_name("end."), ("end".to_string(), Some("".to_string())));
}

#[test]
fn music_files_are_filtered() {
    assert!(is_music_file(&segs("a/b.mp3"), true));
    assert!(is_music_file(&segs("b.flac"), true));
    assert!(is_music_file(&segs("1/2/3/4/b.aac"), true));
    assert!(!is_music_file(&segs("1/2/3/4/5/b.aac"), true));
    assert!(!is_music_file(&segs("a/b.mp3"), false));
    assert!(!is_music_file(&segs("a/b.MP3"), true));
    assert!(!is_music_file(&segs("a/b.ogg"), true));
    assert!(!is_music_file(&segs(".cache/b.mp3"), true));
    assert!(is_music_file(&segs("a/.b.mp3"), true));
    assert!(is_music_file(&segs(".x.mp3"), true));
    assert!(!is_music_file(&segs("a/.hidden/b.mp3"), true));
    assert!(!is_music_file(&segs(".mp3"), true));
    assert!(is_hidden(".x"));
    assert!(!is_hidden("x."));
}

#[test]
fn playlists_lie_under_the_root() {
    assert!(is_playlist(&segs("mix.m3u"), true));
    assert!(!is_playlist(&segs("a/mix.m3u"), true));
    assert!(!is_playlist(&segs("mix.mp3"), true));
    assert!(!is_playlist(&segs("mix.m3u"), false));
}

#[test]
fn canonical_path_full_tags() {
    let s = song("/lib/x/y.mp3", None, Some("C"), Some("A"), Some("B"));
    assert_eq!(s.canonical_path().to_string(), "A/B/C.mp3");
}

#[test]
fn canonical_path_missing_album() {
    let s = song("/lib/x/y.mp3", None, Some("C"), Some("A"), None);
    assert_eq!(s.canonical_path().to_string(), "A/Singles/C.mp3");
}

#[test]
fn canonical_path_missing_artist_and_album() {
    let s = song("/lib/x/track01.flac", None, None, None, None);
    assert_eq!(s.canonical_path().to_string(), "UnknownArtist/Singles/track01.flac.flac");
    let t = song("/lib/x/track01.flac", None, Some("C"), None, None);
    assert_eq!(t.canonical_path().to_string(), "UnknownArtist/Singles/C.flac");
}

#[test]
fn song_parse_reads_identity() {
    let s = Song::parse(segs("/lib/a.mp3"), &Some(ID_TEXT.to_string()), None, None, None).unwrap();
    assert_eq!(s.uuid, Some(SongUuid(ID)));
    let t = Song::parse(segs("/lib/a.mp3"), &None, Some("T".to_string()), None, None).unwrap();
    assert_eq!(t.uuid, None);
    assert_eq!(t.title, Some("T".to_string()));
    assert_eq!(
        Song::parse(segs("/lib/a.mp3"), &Some("bad".to_string()), None, None, None).unwrap_err(),
        IdentityError::InvalidIdentity
    );
}

#[test]
fn in_place_sort_moves_misplaced_songs() {
    let songs = vec![
        song("/lib/x/y.mp3", Some(1), Some("C"), Some("A"), Some("B")),
        song("/lib/A/B/D.mp3", Some(2), Some("D"), Some("A"), Some("B")),
    ];
    let ops = plan_moves(&segs("/lib"), &songs).unwrap();
    assert_eq!(ops.len(), 1);
    assert_eq!(ops[0].source, segs("/lib/x/y.mp3"));
    assert_eq!(ops[0].dest, segs("/lib/A/B/C.mp3"));
    assert!(ops[0].remove_source);
}

#[test]
fn in_place_sort_twice_moves_nothing() {
    let root = segs("/lib");
    let mut songs = vec![
        song("/lib/x/y.mp3", Some(1), Some("C"), Some("A"), Some("B")),
        song("/lib/q.flac", Some(2), Some("Q"), None, None),
        song("/lib/UnknownArtist/Singles/Z.aac", Some(3), Some("Z"), None, None),
    ];
    let ops = plan_moves(&root, &songs).unwrap();
    assert_eq!(ops.len(), 2);
    for s in songs.iter_mut() {
        s.path = s.canonical_path().rebase(root.clone());
    }
    assert!(plan_moves(&root, &songs).unwrap().is_empty());
}

#[test]
fn untitled_song_keeps_its_file_name() {
    let root = segs("/lib");
    let mut songs = vec![song("/lib/q.flac", Some(2), None, None, None)];
    let ops = plan_moves(&root, &songs).unwrap();
    assert_eq!(ops[0].dest, segs("/lib/UnknownArtist/Singles/q.flac.flac"));
    songs[0].path = ops[0].dest.clone();
    let again = plan_moves(&root, &songs).unwrap();
    assert_eq!(again[0].dest, segs("/lib/UnknownArtist/Singles/q.flac.flac.flac"));
}

#[test]
fn tags_that_leave_the_root_are_refused() {
    let songs = vec![song("/lib/x.mp3", Some(1), Some("C"), Some(".."), Some("B"))];
    assert_eq!(plan_moves(&segs("/lib"), &songs).unwrap_err(), SortError::InvalidLayout);
    assert_eq!(
        plan_sort(&segs("/lib"), &songs, &None).unwrap_err(),
        SortError::InvalidLayout
    );
    assert_eq!(
        plan_sort(&segs("/lib"), &songs, &Some(segs("/out"))).unwrap_err(),
        SortError::InvalidLayout
    );
    let split = vec![song("/lib/x.mp3", Some(1), Some("C"), Some("AC/DC"), None)];
    assert_eq!(plan_copies(&segs("/out"), &split).unwrap_err(), SortError::InvalidLayout);
    assert!(!all_layouts_ok(&split));
}

#[test]
fn empty_title_is_refused_once_sorted() {
    let root = segs("/lib");
    let mut songs = vec![song("/lib/x.mp3", Some(1), Some(""), Some("A"), Some("B"))];
    let ops = plan_moves(&root, &songs).unwrap();
    assert_eq!(ops[0].dest, segs("/lib/A/B/.mp3"));
    songs[0].path = ops[0].dest.clone();
    assert_eq!(plan_moves(&root, &songs).unwrap_err(), SortError::InvalidLayout);
}

#[test]
fn canonical_path_well_formed() {
    assert!(song("/lib/x.mp3", None, Some("C"), Some("A"), Some("B")).canonical_path().is_wf());
    assert!(!song("/lib/x.mp3", None, Some("C"), Some("."), None).canonical_path().is_wf());
}

#[test]
fn copy_out_copies_every_song() {
    let songs = vec![song("/lib/A/B/C.mp3", Some(1), Some("C"), Some("A"), Some("B"))];
    let ops = plan_copies(&segs("/out"), &songs).unwrap();
    assert_eq!(ops.len(), 1);
    assert_eq!(ops[0].dest, segs("/out/A/B/C.mp3"));
    assert!(!ops[0].remove_source);
}

#[test]
fn copy_out_to_root_is_refused() {
    let songs = vec![song("/lib/x.mp3", Some(1), None, None, None)];
    assert_eq!(
        plan_sort(&segs("/lib"), &songs, &Some(segs("/lib"))).unwrap_err(),
        SortError::SameDirectory
    );
}

#[test]
fn copy_onto_itself_is_refused() {
    let songs = vec![song("/out/A/B/C.mp3", Some(1), Some("C"), Some("A"), Some("B"))];
    assert_eq!(
        plan_sort(&segs("/lib"), &songs, &Some(segs("/out"))).unwrap_err(),
        SortError::CopyToSelf
    );
}

#[test]
fn candidates_walk_up_to_the_root() {
    let c = index_candidates(&segs("/a/b"));
    assert_eq!(c.len(), 3);
    assert_eq!(c[0], vec!["a".to_string(), "b".to_string(), DBNAME.to_string()]);
    assert_eq!(c[1], vec!["a".to_string(), DBNAME.to_string()]);
    assert_eq!(c[2], vec![DBNAME.to_string()]);
}

#[test]
fn find_db_takes_the_nearest() {
    let dir = segs("/a/b");
    assert_eq!(find_db(&dir, &vec![false, true, true]), Some(vec!["a".to_string(), DBNAME.to_string()]));
    assert_eq!(find_db(&dir, &vec![false, false, false]), None);
    assert_eq!(locate_root(&dir, &vec![true, false, false]).unwrap(), segs("/a/b"));
    assert!(matches!(locate_root(&dir, &vec![false, false, false]), Err(IndexError::IndexNotFound)));
}

#[test]
fn init_in_fresh_directory() {
    assert_eq!(plan_init(&segs("/a/b"), false, &vec![false, false, false]).unwrap(), false);
}

#[test]
fn init_under_an_ancestor_index_is_refused() {
    for force in [false, true] {
        match plan_init(&segs("/a/b"), force, &vec![false, true, false]) {
            Err(IndexError::IndexAlreadyExists { existing }) => {
                assert_eq!(existing, vec!["a".to_string(), DBNAME.to_string()])
            }
            other => panic!("unexpected {:?}", other),
        }
    }
}

#[test]
fn init_over_own_index() {
    assert!(matches!(
        plan_init(&segs("/a/b"), false, &vec![true, false, false]),
        Err(IndexError::IndexAlreadyExists { .. })
    ));
    assert_eq!(plan_init(&segs("/a/b"), true, &vec![true, false, false]).unwrap(), true);
}

#[test]
fn additions_for_three_new_songs() {
    let songs = vec![
        song("/lib/a.mp3", Some(1), None, None, None),
        song("/lib/b/c.mp3", Some(2), None, None, None),
        song("/lib/d.mp3", Some(3), None, None, None),
    ];
    let adds = plan_additions(&segs("/lib"), &songs, &vec![]).unwrap();
    assert_eq!(adds.len(), 3);
    assert_eq!(adds[1].0, SongUuid(2));
    assert_eq!(adds[1].1.old_path.to_string(), "b/c.mp3");
    let ids: Vec<SongUuid> = adds.iter().map(|a| a.0).collect();
    assert!(plan_prune(&ids, &songs).is_empty());
}

#[test]
fn additions_skip_known_and_repeated() {
    let songs = vec![
        song("/lib/a.mp3", Some(1), None, None, None),
        song("/lib/b.mp3", Some(2), None, None, None),
        song("/lib/copy.mp3", Some(2), None, None, None),
        song("/lib/none.mp3", None, None, None, None),
    ];
    let adds = plan_additions(&segs("/lib"), &songs, &vec![SongUuid(1)]).unwrap();
    assert_eq!(adds.len(), 1);
    assert_eq!(adds[0].0, SongUuid(2));
    assert_eq!(adds[0].1.old_path.to_string(), "b.mp3");
}

#[test]
fn additions_outside_root_fail() {
    let songs = vec![song("/else/a.mp3", Some(1), None, None, None)];
    assert_eq!(plan_additions(&segs("/lib"), &songs, &vec![]).unwrap_err(), (0, PathError::NotDescendant));
    let two = vec![
        song("/lib/a.mp3", Some(1), None, None, None),
        song("/else/b.mp3", Some(2), None, None, None),
    ];
    assert_eq!(plan_additions(&segs("/lib"), &two, &vec![]).unwrap_err(), (1, PathError::NotDescendant));
    assert!(plan_additions(&segs("/lib"), &songs, &vec![SongUuid(1)]).unwrap().is_empty());
}

#[test]
fn deleted_song_is_pruned() {
    let songs = vec![
        song("/lib/a.mp3", Some(1), None, None, None),
        song("/lib/c.mp3", Some(3), None, None, None),
    ];
    let indexed = vec![SongUuid(1), SongUuid(2), SongUuid(3)];
    assert!(plan_additions(&segs("/lib"), &songs, &indexed).unwrap().is_empty());
    assert_eq!(plan_prune(&indexed, &songs), vec![SongUuid(2)]);
    assert!(contains_id(&indexed, SongUuid(2)));
    assert!(!held_by_some(&songs, SongUuid(2)));
}

#[test]
fn tags_written_only_when_changed() {
    assert!(tags_changed(5, 4));
    assert!(!tags_changed(5, 5));
}

#[test]
fn sort_flags_conflict() {
    let c = Command::Sort { destination_directory: None, ignore_db: true, auto_init: true };
    assert_eq!(c.validate(), Err(CliError::IgnoreAndInit));
    let ok = Command::Sort { destination_directory: None, ignore_db: true, auto_init: false };
    assert_eq!(ok.validate(), Ok(()));
    assert_eq!(Command::Update.validate(), Ok(()));
}

#[test]
fn list_describes_song() {
    let s = song("/lib/a.mp3", None, Some("T"), Some("A"), Some("B"));
    assert_eq!(bongo::song::list(&s), "'T' by A in album B");
    let u = song("/lib/a.mp3", None, None, None, Some("B"));
    assert_eq!(bongo::song::list(&u), "Untitled Song in album B");
}

#[test]
fn identity_forms_accepted() {
    let forms = [
        "550e8400e29b41d4a716446655440000",
        "550E8400-E29B-41D4-A716-446655440000",
        "{550e8400-e29b-41d4-a716-446655440000}",
        "URN:uuid:550e8400-e29b-41d4-a716-446655440000",
    ];
    for f in forms {
        assert_eq!(read_identity(&Some(f.to_string())), Ok(Some(SongUuid(ID))), "{f}");
    }
    let bad = [
        "",
        "550e8400e29b41d4a71644665544000",
        "550e8400-e29b-41d4-a716-44665544000g",
        "550e8400+e29b-41d4-a716-446655440000",
        "[550e8400-e29b-41d4-a716-446655440000]",
        "urn:uid::550e8400-e29b-41d4-a716-446655440000",
    ];
    for f in bad {
        assert_eq!(read_identity(&Some(f.to_string())), Err(IdentityError::InvalidIdentity), "{f}");
    }
}
