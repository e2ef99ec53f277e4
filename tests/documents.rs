use rustydj::library::{Library, LibraryCommand, LibraryResponse};
use rustydj::numbers::{parse_decimal, parse_uint};
use rustydj::xml::{build_tree, XmlEvent};
use rustydj::rekordbox::{cue_start, parse_playlist, parse_track, seconds_to_samples, whole_number, LoadError, XmlNode};

fn node(name: &str, attrs: &[(&str, &str)], children: Vec<XmlNode>) -> XmlNode {
    XmlNode {
        name: name.to_string(),
        attrs: attrs.iter().map(|(k, v)| (k.to_string(), v.to_string())).collect(),
        children,
    }
}

fn track_node(id: &str, rate: &str, location: &str) -> XmlNode {
    node(
        "TRACK",
        &[("TrackID", id), ("Name", "Tune"), ("Artist", "Band"), ("SampleRate", rate), ("Location", location)],
        vec![
            node("TEMPO", &[("Inizio", "0.025"), ("Bpm", "128.00"), ("Metro", "4/4")], vec![]),
            node("POSITION_MARK", &[("Name", "drop"), ("Type", "0"), ("Start", "1.000"), ("Num", "0")], vec![]),
            node("POSITION_MARK", &[("Name", ""), ("Type", "4"), ("Start", "0.010"), ("Num", "-1")], vec![]),
        ],
    )
}

fn document(version: &str) -> XmlNode {
    node(
        "DJ_PLAYLISTS",
        &[("Version", version)],
        vec![
            node("PRODUCT", &[("Name", "rekordbox")], vec![]),
            node(
                "COLLECTION",
                &[("Entries", "2")],
                vec![
                    track_node("5", "44100", "file://localhost/music/a%20b.mp3"),
                    node("OTHER", &[], vec![]),
                    track_node("8", "48000", "file:///music/c.mp3"),
                ],
            ),
            node(
                "PLAYLISTS",
                &[],
                vec![node(
                    "NODE",
                    &[("Type", "0"), ("Name", "ROOT")],
                    vec![
                        node("NODE", &[("Type", "1"), ("Name", "Set")], vec![
                            node("TRACK", &[("Key", "8")], vec![]),
                            node("TRACK", &[("Key", "5")], vec![]),
                        ]),
                        node("NODE", &[("Type", "0"), ("Name", "Sub")], vec![
                            node("NODE", &[("Type", "1"), ("Name", "Inner")], vec![]),
                        ]),
                    ],
                )],
            ),
        ],
    )
}

#[test]
fn reads_tracks() {
    let t = parse_track(&track_node("5", "44100", "file:///music/a%20b.mp3")).unwrap();
    assert_eq!(t.id, 5);
    assert_eq!(t.sample_rate, 44100);
    assert_eq!(t.path, "/music/a b.mp3");
    assert_eq!(t.bpm, 128);
    assert_eq!(t.first_beat, 1102);
    assert_eq!(t.cues.len(), 2);
    assert_eq!(t.cues[0].name, "drop");
    assert_eq!(t.cues[0].start, 44100 - 2304);
    assert_eq!(t.cues[1].start, 0);
    assert_eq!(t.cues[1].type_, 4);
    assert_eq!(t.title(), "Tune");
    assert_eq!(t.info.len(), 5);
}

#[test]
fn reads_document() {
    let lib = Library::from_document(&document("1.0.0")).unwrap();
    assert_eq!(lib.tracks.len(), 2);
    assert_eq!(lib.tracks[&8].sample_rate, 48000);
    assert_eq!(lib.tracks[&5].path, "/music/a b.mp3");
    assert_eq!(lib.root_playlist, Some(0));
    let names: Vec<&str> = lib.playlists.iter().map(|p| p.name.as_str()).collect();
    assert_eq!(names, vec!["ROOT", "Set", "Sub", "Inner"]);
    assert_eq!(lib.playlists[0].sub_playlists, vec![1, 2]);
    assert_eq!(lib.playlists[1].track_keys, vec![8, 5]);
    assert_eq!(lib.playlists[2].sub_playlists, vec![3]);
    assert_eq!(lib.playlists[3].parent, Some(2));
    for (i, p) in lib.playlists.iter().enumerate() {
        assert_eq!(p.id, i);
    }
    match lib.handle(&LibraryCommand::GetPlaylist(1)) {
        Some(LibraryResponse::Playlist(p)) => assert_eq!(p.track_keys, vec![8, 5]),
        other => panic!("unexpected {:?}", other),
    }
}

#[test]
fn document_errors() {
    assert_eq!(Library::from_document(&document("2.0.0")).unwrap_err(), LoadError::WrongVersion);
    assert_eq!(Library::from_document(&node("DJ_PLAYLISTS", &[], vec![])).unwrap_err(), LoadError::WrongVersion);
    let missing = node("TRACK", &[("TrackID", "1"), ("Location", "file:///a.mp3")], vec![]);
    assert_eq!(parse_track(&missing).unwrap_err(), LoadError::MissingAttribute);
    assert_eq!(parse_track(&track_node("1", "44.1k", "file:///a.mp3")).unwrap_err(), LoadError::BadNumber);
    assert_eq!(parse_track(&track_node("1", "44100", "not a url")).unwrap_err(), LoadError::BadLocation);
    assert_eq!(parse_track(&track_node("x", "44100", "file:///a.mp3")).unwrap_err(), LoadError::BadNumber);
    let no_name = node("TRACK", &[("TrackID", "1"), ("SampleRate", "44100"), ("Location", "file:///a.mp3")], vec![
        node("POSITION_MARK", &[("Start", "1.0"), ("Type", "0")], vec![]),
    ]);
    assert_eq!(parse_track(&no_name).unwrap_err(), LoadError::MissingAttribute);
    let bad_bpm = node("TRACK", &[("TrackID", "1"), ("SampleRate", "44100"), ("Location", "file:///a.mp3")], vec![
        node("TEMPO", &[("Bpm", "fast"), ("Inizio", "0")], vec![]),
    ]);
    assert_eq!(parse_track(&bad_bpm).unwrap_err(), LoadError::BadNumber);
    let mut ctr = 0;
    let bad = node("NODE", &[("Type", "7"), ("Name", "X")], vec![]);
    assert_eq!(parse_playlist(&bad, None, &mut ctr).unwrap_err(), LoadError::BadPlaylistType);
    let mut full = usize::MAX;
    let leaf = node("NODE", &[("Type", "1"), ("Name", "X")], vec![]);
    assert_eq!(parse_playlist(&leaf, None, &mut full).unwrap_err(), LoadError::TooManyPlaylists);
    let empty = node("DJ_PLAYLISTS", &[("Version", "1.0.0")], vec![node("PLAYLISTS", &[], vec![])]);
    assert_eq!(Library::from_document(&empty).unwrap_err(), LoadError::MissingPlaylistRoot);
    let bare = node("DJ_PLAYLISTS", &[("Version", "1.0.0")], vec![]);
    let lib = Library::from_document(&bare).unwrap();
    assert!(lib.tracks.is_empty());
    assert_eq!(lib.root_playlist, None);
}

#[test]
fn playlist_numbering_continues_counter() {
    let mut ctr = 10;
    let tree = node("NODE", &[("Type", "0"), ("Name", "F")], vec![
        node("NODE", &[("Type", "1"), ("Name", "A")], vec![]),
        node("NODE", &[("Type", "1"), ("Name", "B")], vec![]),
    ]);
    let (id, list) = parse_playlist(&tree, Some(3), &mut ctr).unwrap();
    assert_eq!(id, 10);
    assert_eq!(ctr, 13);
    assert_eq!(list[0].parent, Some(3));
    assert_eq!(list[0].sub_playlists, vec![11, 12]);
    assert_eq!(list[2].parent, Some(10));
}

#[test]
fn decimal_text() {
    assert_eq!(parse_decimal("12.50"), Some((1250, 100)));
    assert_eq!(parse_decimal("7"), Some((7, 1)));
    assert_eq!(parse_decimal("1."), Some((1, 1)));
    assert_eq!(parse_decimal(".5"), None);
    assert_eq!(parse_decimal("1.2.3"), None);
    assert_eq!(parse_decimal(""), None);
    assert_eq!(parse_decimal("-1.0"), None);
    assert_eq!(parse_uint("0042"), Some(42));
    assert_eq!(parse_uint("4.2"), None);
    assert_eq!(parse_uint("9999999999999999999"), Some(9999999999999999999));
    assert_eq!(parse_uint("12345678901234567890"), None);
}

#[test]
fn sample_arithmetic() {
    assert_eq!(seconds_to_samples(25, 1000, 44100), 1102);
    assert_eq!(cue_start(1000, 1000, 44100), 41796);
    assert_eq!(cue_start(10, 1000, 44100), 0);
    assert_eq!(whole_number(12899, 100), 128);
    assert_eq!(whole_number(u64::MAX, 1), u32::MAX);
}

fn start(name: &str, attrs: &[(&str, &str)]) -> XmlEvent {
    XmlEvent::Start(name.to_string(), attrs.iter().map(|(k, v)| (k.to_string(), v.to_string())).collect())
}

#[test]
fn assembles_element_tree() {
    let events = vec![
        start("DJ_PLAYLISTS", &[("Version", "1.0.0")]),
        start("PRODUCT", &[("Name", "rekordbox")]),
        XmlEvent::End,
        start("COLLECTION", &[]),
        start("TRACK", &[("TrackID", "1")]),
        start("TEMPO", &[("Bpm", "120")]),
        XmlEvent::End,
        XmlEvent::End,
        XmlEvent::End,
        XmlEvent::End,
        start("IGNORED", &[]),
    ];
    let root = build_tree(&events).unwrap();
    assert_eq!(root.name, "DJ_PLAYLISTS");
    assert_eq!(root.attrs, vec![("Version".to_string(), "1.0.0".to_string())]);
    assert_eq!(root.children.len(), 2);
    assert_eq!(root.children[0].name, "PRODUCT");
    assert_eq!(root.children[1].children[0].name, "TRACK");
    assert_eq!(root.children[1].children[0].children[0].attrs[0].1, "120");
    assert!(build_tree(&vec![XmlEvent::End]).is_none());
    assert!(build_tree(&vec![start("A", &[]), start("B", &[]), XmlEvent::End]).is_none());
    assert!(build_tree(&vec![]).is_none());
}
