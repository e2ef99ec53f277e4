//! Track and playlist records, and the catalogue that holds them.
use vstd::prelude::*;
use std::collections::HashMap;

verus! {

broadcast use vstd::std_specs::hash::group_hash_axioms;

/// What a front-end asks of the catalogue.
#[derive(Debug)]
pub enum LibraryCommand {
    GetPlaylist(usize),
    GetTrack(usize),
}

/// The catalogue's answer to a `LibraryCommand`.
#[derive(Debug)]
pub enum LibraryResponse {
    Track(Track),
    Playlist(Playlist),
}

/// A cue marker: a named position in a track, in samples.
#[derive(Clone, Debug)]
pub struct Cue {
    pub name: String,
    pub start: usize,
    pub type_: u8,
}

/// A track record: where its audio is, its metadata and its cue markers.
/// `info` holds metadata pairs such as ("Artist", ...); the first pair
/// with a given key counts.
#[derive(Clone, Debug)]
pub struct Track {
    pub id: usize,
    pub path: String,
    pub info: Vec<(String, String)>,
    pub bpm: u32,
    pub sample_rate: u32,
    pub cues: Vec<Cue>,
    pub first_beat: usize,
}

/// A playlist: either a folder of sub-playlists or a list of track ids.
#[derive(Clone, Debug)]
pub struct Playlist {
    pub name: String,
    pub sub_playlists: Vec<usize>,
    pub track_keys: Vec<usize>,
    pub parent: Option<usize>,
    pub id: usize,
}

/// The catalogue: tracks by id, and the playlists, each at the index of its id.
#[derive(Debug)]
pub struct Library {
    pub tracks: HashMap<usize, Track>,
    pub root_playlist: Option<usize>,
    pub playlists: Vec<Playlist>,
}

/// The value of the first pair in `info` whose key is `key`.
pub open spec fn info_lookup(info: Seq<(String, String)>, key: Seq<char>) -> Option<Seq<char>>
    decreases info.len(),
{
    if info.len() == 0 {
        None
    } else if info[0].0@ == key {
        Some(info[0].1@)
    } else {
        info_lookup(info.drop_first(), key)
    }
}

pub open spec fn same_cue(a: Cue, b: Cue) -> bool {
    a.name@ == b.name@ && a.start == b.start && a.type_ == b.type_
}

pub open spec fn same_playlist(a: Playlist, b: Playlist) -> bool {
    &&& a.name@ == b.name@
    &&& a.sub_playlists@ == b.sub_playlists@
    &&& a.track_keys@ == b.track_keys@
    &&& a.parent == b.parent
    &&& a.id == b.id
}

/// Two track records that hold the same values.
pub open spec fn same_track(a: Track, b: Track) -> bool {
    &&& a.id == b.id
    &&& a.path@ == b.path@
    &&& a.info@.len() == b.info@.len()
    &&& forall|i: int| 0 <= i < a.info@.len() ==> a.info@[i].0@ == b.info@[i].0@
        && a.info@[i].1@ == b.info@[i].1@
    &&& a.bpm == b.bpm
    &&& a.sample_rate == b.sample_rate
    &&& a.cues@.len() == b.cues@.len()
    &&& forall|i: int| 0 <= i < a.cues@.len() ==> same_cue(#[trigger] a.cues@[i], b.cues@[i])
    &&& a.first_beat == b.first_beat
}

/// The metadata keys behind the column headers.
pub open spec fn header_key(header: Seq<char>) -> Seq<char> {
    if header == "Title"@ {
        "Name"@
    } else if header == "Key"@ {
        "Tonality"@
    } else {
        header
    }
}

/// The decimal digits of `n`.
pub open spec fn decimal(n: nat) -> Seq<char>
    decreases n,
{
    if n < 10 {
        seq![digit_char(n)]
    } else {
        decimal(n / 10).push(digit_char(n % 10))
    }
}

pub open spec fn digit_char(d: nat) -> char {
    if d == 0 { '0' } else if d == 1 { '1' } else if d == 2 { '2' } else if d == 3 { '3' }
    else if d == 4 { '4' } else if d == 5 { '5' } else if d == 6 { '6' } else if d == 7 { '7' }
    else if d == 8 { '8' } else { '9' }
}

fn digit(d: u64) -> (c: char)
    requires
        d < 10,
    ensures
        c == digit_char(d as nat),
{
    match d {
        0 => '0',
        1 => '1',
        2 => '2',
        3 => '3',
        4 => '4',
        5 => '5',
        6 => '6',
        7 => '7',
        8 => '8',
        _ => '9',
    }
}

/// The decimal form of `n`.
pub fn decimal_string(n: u64) -> (r: String)
    ensures
        r@ == decimal(n as nat),
{
    let mut digits: Vec<char> = Vec::new();
    let mut m: u64 = n;
    // digits holds the low digits, least significant first
    while m >= 10
        invariant
            decimal(n as nat) == decimal(m as nat) + digits@.reverse(),
        decreases m,
    {
        proof {
            assert(decimal(m as nat) == decimal((m / 10) as nat).push(digit_char((m % 10) as nat)));
            assert(digits@.push(digit_char((m % 10) as nat)).reverse()
                =~= seq![digit_char((m % 10) as nat)] + digits@.reverse());
            assert(decimal((m / 10) as nat).push(digit_char((m % 10) as nat)) + digits@.reverse()
                =~= decimal((m / 10) as nat) + (seq![digit_char((m % 10) as nat)] + digits@.reverse()));
        }
        digits.push(digit(m % 10));
        m = m / 10;
    }
    digits.push(digit(m));
    assert(decimal(n as nat) =~= digits@.reverse());
    let mut r = String::new();
    let mut i: usize = digits.len();
    while i > 0
        invariant
            i <= digits@.len(),
            r@ =~= digits@.subrange(i as int, digits@.len() as int).reverse(),
        decreases i,
    {
        i = i - 1;
        push_char(&mut r, digits[i]);
        assert(digits@.subrange(i as int, digits@.len() as int).reverse()
            =~= digits@.subrange(i + 1, digits@.len() as int).reverse().push(digits@[i as int]));
    }
    assert(digits@.subrange(0, digits@.len() as int) =~= digits@);
    r
}

/// Relies on `String::push`: it appends one character.
#[verifier::external_body]
fn push_char(s: &mut String, c: char)
    ensures
        final(s)@ == old(s)@.push(c),
{
    s.push(c)
}

/// The value of the first pair in `pairs` whose key is `key`.
pub fn lookup(pairs: &Vec<(String, String)>, key: &str) -> (r: Option<String>)
    ensures
        match r {
            Some(s) => info_lookup(pairs@, key@) == Some(s@),
            None => info_lookup(pairs@, key@) is None,
        },
{
    let mut i: usize = 0;
    assert(pairs@.subrange(0, pairs@.len() as int) =~= pairs@);
    while i < pairs.len()
        invariant
            i <= pairs@.len(),
            info_lookup(pairs@, key@) == info_lookup(pairs@.subrange(i as int, pairs@.len() as int), key@),
        decreases pairs@.len() - i,
    {
        let ghost rest = pairs@.subrange(i as int, pairs@.len() as int);
        assert(rest.drop_first() =~= pairs@.subrange(i + 1, pairs@.len() as int));
        if text_eq(&pairs[i].0, key) {
            return Some(pairs[i].1.clone());
        }
        i = i + 1;
    }
    None
}

pub(crate) fn text_eq(a: &String, b: &str) -> (r: bool)
    ensures
        r == (a@ == b@),
{
    let b_owned = b.to_string();
    proof {
        vstd::string::to_string_from_display_ensures_for_str(b, b_owned);
    }
    *a == b_owned
}

pub(crate) fn str_eq(a: &str, b: &str) -> (r: bool)
    ensures
        r == (a@ == b@),
{
    let a_owned = a.to_string();
    proof {
        vstd::string::to_string_from_display_ensures_for_str(a, a_owned);
    }
    text_eq(&a_owned, b)
}

/// Copies a cue marker.
pub fn copy_cue(c: &Cue) -> (r: Cue)
    ensures
        same_cue(r, *c),
{
    Cue { name: c.name.clone(), start: c.start, type_: c.type_ }
}

impl Track {
    /// The column headers that a track table shows.
    pub fn get_headers() -> (r: Vec<&'static str>)
        ensures
            r@.len() == 5,
            r@[0]@ == "Artist"@,
            r@[1]@ == "Title"@,
            r@[2]@ == "Album"@,
            r@[3]@ == "Bpm"@,
            r@[4]@ == "Key"@,
    {
        proof {
            reveal_strlit("Artist");
            reveal_strlit("Title");
            reveal_strlit("Album");
            reveal_strlit("Bpm");
            reveal_strlit("Key");
        }
        vec!["Artist", "Title", "Album", "Bpm", "Key"]
    }

    /// The value stored under `key` in the metadata.
    pub fn info_value(&self, key: &str) -> (r: Option<String>)
        ensures
            match r {
                Some(s) => info_lookup(self.info@, key@) == Some(s@),
                None => info_lookup(self.info@, key@) is None,
            },
    {
        lookup(&self.info, key)
    }

    /// A copy of the value under `key`; the key must be present.
    fn required_info(&self, key: &str) -> (r: String)
        requires
            info_lookup(self.info@, key@) is Some,
        ensures
            Some(r@) == info_lookup(self.info@, key@),
    {
        match self.info_value(key) {
            Some(s) => s,
            None => String::new(),
        }
    }

    pub fn id(&self) -> (r: usize)
        ensures
            r == self.id,
    {
        self.id
    }

    pub fn artist(&self) -> (r: String)
        requires
            info_lookup(self.info@, "Artist"@) is Some,
        ensures
            Some(r@) == info_lookup(self.info@, "Artist"@),
    {
        self.required_info("Artist")
    }

    pub fn title(&self) -> (r: String)
        requires
            info_lookup(self.info@, "Name"@) is Some,
        ensures
            Some(r@) == info_lookup(self.info@, "Name"@),
    {
        self.required_info("Name")
    }

    pub fn album(&self) -> (r: String)
        requires
            info_lookup(self.info@, "Album"@) is Some,
        ensures
            Some(r@) == info_lookup(self.info@, "Album"@),
    {
        self.required_info("Album")
    }

    pub fn bpm(&self) -> (r: u32)
        ensures
            r == self.bpm,
    {
        self.bpm
    }

    pub fn key(&self) -> (r: String)
        requires
            info_lookup(self.info@, "Tonality"@) is Some,
        ensures
            Some(r@) == info_lookup(self.info@, "Tonality"@),
    {
        self.required_info("Tonality")
    }

    /// The value of a column: a metadata entry, the bpm or the id in
    /// decimal, and "?" for a column that does not exist.
    pub fn get(&self, typ: &str) -> (r: String)
        requires
            typ@ == "Artist"@ || typ@ == "Title"@ || typ@ == "Album"@ || typ@ == "Key"@
                ==> info_lookup(self.info@, header_key(typ@)) is Some,
        ensures
            typ@ == "Artist"@ || typ@ == "Title"@ || typ@ == "Album"@ || typ@ == "Key"@
                ==> Some(r@) == info_lookup(self.info@, header_key(typ@)),
            typ@ == "Bpm"@ ==> r@ == decimal(self.bpm as nat),
            typ@ == "Id"@ ==> r@ == decimal(self.id as nat),
            !(typ@ == "Artist"@ || typ@ == "Title"@ || typ@ == "Album"@ || typ@ == "Key"@
                || typ@ == "Bpm"@ || typ@ == "Id"@) ==> r@ == "?"@,
    {
        proof {
            reveal_strlit("Artist");
            reveal_strlit("Title");
            reveal_strlit("Name");
            reveal_strlit("Album");
            reveal_strlit("Bpm");
            reveal_strlit("Key");
            reveal_strlit("Tonality");
            reveal_strlit("Id");
            reveal_strlit("?");
            assert("Artist"@[1] != "Album"@[1]);
            assert("Artist"@[0] != "Title"@[0] && "Artist"@[0] != "Key"@[0] && "Artist"@[0] != "Bpm"@[0]
                && "Artist"@[0] != "Id"@[0]);
            assert("Title"@[0] != "Album"@[0] && "Title"@[0] != "Key"@[0] && "Title"@[0] != "Bpm"@[0]
                && "Title"@[0] != "Id"@[0]);
            assert("Album"@[0] != "Key"@[0] && "Album"@[0] != "Bpm"@[0] && "Album"@[0] != "Id"@[0]);
            assert("Bpm"@[0] != "Key"@[0] && "Bpm"@[0] != "Id"@[0] && "Key"@[0] != "Id"@[0]);
        }
        if str_eq(typ, "Artist") {
            self.artist()
        } else if str_eq(typ, "Title") {
            self.title()
        } else if str_eq(typ, "Album") {
            self.album()
        } else if str_eq(typ, "Bpm") {
            decimal_string(self.bpm as u64)
        } else if str_eq(typ, "Key") {
            self.key()
        } else if str_eq(typ, "Id") {
            decimal_string(self.id as u64)
        } else {
            let q = "?".to_string();
            proof {
                vstd::string::to_string_from_display_ensures_for_str("?", q);
            }
            q
        }
    }

    /// Copies the track record.
    pub fn copy(&self) -> (r: Track)
        ensures
            same_track(r, *self),
    {
        let mut info: Vec<(String, String)> = Vec::new();
        let mut i: usize = 0;
        while i < self.info.len()
            invariant
                i <= self.info@.len(),
                info@.len() == i,
                forall|j: int| 0 <= j < i ==> info@[j].0@ == self.info@[j].0@
                    && info@[j].1@ == self.info@[j].1@,
            decreases self.info@.len() - i,
        {
            info.push((self.info[i].0.clone(), self.info[i].1.clone()));
            i = i + 1;
        }
        let mut cues: Vec<Cue> = Vec::new();
        let mut k: usize = 0;
        while k < self.cues.len()
            invariant
                k <= self.cues@.len(),
                cues@.len() == k,
                forall|j: int| 0 <= j < k ==> same_cue(#[trigger] cues@[j], self.cues@[j]),
            decreases self.cues@.len() - k,
        {
            cues.push(copy_cue(&self.cues[k]));
            k = k + 1;
        }
        Track {
            id: self.id,
            path: self.path.clone(),
            info,
            bpm: self.bpm,
            sample_rate: self.sample_rate,
            cues,
            first_beat: self.first_beat,
        }
    }
}

/// Copies a list of ids.
fn copy_ids(v: &Vec<usize>) -> (r: Vec<usize>)
    ensures
        r@ == v@,
{
    let mut r: Vec<usize> = Vec::new();
    let mut i: usize = 0;
    while i < v.len()
        invariant
            i <= v@.len(),
            r@ == v@.subrange(0, i as int),
        decreases v@.len() - i,
    {
        r.push(v[i]);
        i = i + 1;
        assert(r@ =~= v@.subrange(0, i as int));
    }
    assert(v@.subrange(0, v@.len() as int) =~= v@);
    r
}

impl Playlist {
    /// Copies the playlist record.
    pub fn copy(&self) -> (r: Playlist)
        ensures
            same_playlist(r, *self),
    {
        Playlist {
            name: self.name.clone(),
            sub_playlists: copy_ids(&self.sub_playlists),
            track_keys: copy_ids(&self.track_keys),
            parent: self.parent,
            id: self.id,
        }
    }
}

impl Library {
    /// The track with the given id; it must be in the catalogue.
    pub fn get(&self, id: usize) -> (r: Track)
        requires
            self.tracks@.contains_key(id),
        ensures
            same_track(r, self.tracks@[id]),
    {
        match self.tracks.get(&id) {
            Some(t) => t.copy(),
            None => Track {
                id,
                path: String::new(),
                info: Vec::new(),
                bpm: 0,
                sample_rate: 0,
                cues: Vec::new(),
                first_beat: 0,
            },
        }
    }

    /// The answer to a front-end's request, or `None` for an id that the
    /// catalogue does not hold.
    pub fn handle(&self, cmd: &LibraryCommand) -> (r: Option<LibraryResponse>)
        ensures
            match *cmd {
                LibraryCommand::GetTrack(id) => match r {
                    Some(LibraryResponse::Track(t)) => self.tracks@.contains_key(id)
                        && same_track(t, self.tracks@[id]),
                    None => !self.tracks@.contains_key(id),
                    _ => false,
                },
                LibraryCommand::GetPlaylist(id) => match r {
                    Some(LibraryResponse::Playlist(p)) => id < self.playlists@.len()
                        && same_playlist(p, self.playlists@[id as int]),
                    None => id >= self.playlists@.len(),
                    _ => false,
                },
            },
    {
        match cmd {
            LibraryCommand::GetTrack(id) => {
                if self.tracks.contains_key(id) {
                    Some(LibraryResponse::Track(self.get(*id)))
                } else {
                    None
                }
            },
            LibraryCommand::GetPlaylist(id) => {
                if *id < self.playlists.len() {
                    Some(LibraryResponse::Playlist(self.playlists[*id].copy()))
                } else {
                    None
                }
            },
        }
    }
}

} // verus!
