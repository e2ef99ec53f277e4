use std::collections::HashMap;

use rustydj::library::{decimal_string, Cue, Library, LibraryCommand, LibraryResponse, Playlist, Track};

fn track(id: usize) -> Track {
    Track {
        id,
        path: format!("/music/{}.mp3", id),
        info: vec![
            ("Artist".to_string(), "Someone".to_string()),
            ("Name".to_string(), "A Song".to_string()),
            ("Album".to_string(), "Record".to_string()),
            ("Tonality".to_string(), "8A".to_string()),
            ("Artist".to_string(), "Shadowed".to_string()),
        ],
        bpm: 128,
        sample_rate: 44100,
        cues: vec![Cue { name: "intro".to_string(), start: 4410, type_: 0 }],
        first_beat: 12,
    }
}

fn library() -> Library {
    let mut tracks = HashMap::new();
    tracks.insert(3, track(3));
    tracks.insert(9, track(9));
    Library {
        tracks,
        root_playlist: Some(0),
        playlists: vec![
            Playlist { name: "ROOT".to_string(), sub_playlists: vec![1], track_keys: vec![], parent: None, id: 0 },
            Playlist { name: "Set".to_string(), sub_playlists: vec![], track_keys: vec![9, 3], parent: Some(0), id: 1 },
        ],
    }
}

#[test]
fn track_columns() {
    let t = track(42);
    assert_eq!(Track::get_headers(), vec!["Artist", "Title", "Album", "Bpm", "Key"]);
    assert_eq!(t.get("Artist"), "Someone");
    assert_eq!(t.get("Title"), "A Song");
    assert_eq!(t.get("Album"), "Record");
    assert_eq!(t.get("Key"), "8A");
    assert_eq!(t.get("Bpm"), "128");
    assert_eq!(t.get("Id"), "42");
    assert_eq!(t.get("Genre"), "?");
    assert_eq!(t.artist(), "Someone");
    assert_eq!(t.title(), "A Song");
    assert_eq!(t.album(), "Record");
    assert_eq!(t.key(), "8A");
    assert_eq!(t.bpm(), 128);
    assert_eq!(t.id(), 42);
    assert_eq!(t.info_value("Missing"), None);
}

#[test]
fn decimal_forms() {
    assert_eq!(decimal_string(0), "0");
    assert_eq!(decimal_string(7), "7");
    assert_eq!(decimal_string(10), "10");
    assert_eq!(decimal_string(1234567890), "1234567890");
    assert_eq!(decimal_string(u64::MAX), "18446744073709551615");
}

#[test]
fn library_lookup() {
    let lib = library();
    let t = lib.get(9);
    assert_eq!(t.id, 9);
    assert_eq!(t.path, "/music/9.mp3");
    assert_eq!(t.cues.len(), 1);
    assert_eq!(t.cues[0].start, 4410);
    assert_eq!(t.info.len(), 5);
    match lib.handle(&LibraryCommand::GetTrack(3)) {
        Some(LibraryResponse::Track(t)) => assert_eq!(t.id, 3),
        other => panic!("unexpected {:?}", other),
    }
    match lib.handle(&LibraryCommand::GetPlaylist(1)) {
        Some(LibraryResponse::Playlist(p)) => {
            assert_eq!(p.name, "Set");
            assert_eq!(p.track_keys, vec![9, 3]);
            assert_eq!(p.parent, Some(0));
        }
        other => panic!("unexpected {:?}", other),
    }
    assert!(lib.handle(&LibraryCommand::GetTrack(4)).is_none());
    assert!(lib.handle(&LibraryCommand::GetPlaylist(2)).is_none());
}
