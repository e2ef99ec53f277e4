//! Reading the catalogue out of a rekordbox collection document.
//!
//! The document arrives as a tree of `XmlNode`s; this module turns it into
//! a `Library`.
use vstd::prelude::*;
use vstd::string::StringSliceAdditionalSpecFns;
use std::collections::HashMap;
use crate::library::{info_lookup, lookup, text_eq, str_eq, Cue, Library, Playlist, Track};
use crate::numbers::{parse_decimal, parse_uint, decimal_spec, uint_spec};
use crate::cursor::FRAME_LEN;

verus! {

broadcast use vstd::std_specs::hash::group_hash_axioms;

/// One element of the document: its name, its attributes in order, and
/// its child elements.
#[derive(Debug)]
pub struct XmlNode {
    pub name: String,
    pub attrs: Vec<(String, String)>,
    pub children: Vec<XmlNode>,
}

/// Why a document could not be read.
#[derive(Clone, Copy, Debug, PartialEq, Eq, Structural)]
pub enum LoadError {
    WrongVersion,
    MissingAttribute,
    BadNumber,
    BadLocation,
    BadPlaylistType,
    MissingPlaylistRoot,
    TooManyPlaylists,
}

/// The local file path that a track location URL names.
pub uninterp spec fn location_path(location: Seq<char>) -> Option<Seq<char>>;

/// Relies on `url::Url::parse` and `url::Url::to_file_path`: the local
/// path that the URL's path segments spell, `None` where the text is no
/// URL, where the URL has no path segments or a host other than
/// `localhost` (the scheme is not checked), or where the path is not valid
/// UTF-8.
#[verifier::external_body]
fn file_path_of(location: &str) -> (r: Option<String>)
    ensures
        match r {
            Some(p) => location_path(location@) == Some(p@),
            None => location_path(location@) is None,
        },
{
    match url::Url::parse(location) {
        Ok(u) => match u.to_file_path() {
            Ok(p) => match p.to_str() {
                Some(s) => Some(s.to_string()),
                None => None,
            },
            Err(_) => None,
        },
        Err(_) => None,
    }
}

pub open spec fn attr_of(n: XmlNode, key: Seq<char>) -> Option<Seq<char>> {
    info_lookup(n.attrs@, key)
}

/// An attribute read as an unsigned integer.
pub open spec fn attr_uint(n: XmlNode, key: Seq<char>) -> Option<int> {
    match attr_of(n, key) {
        Some(v) => uint_spec(vstd::utf8::encode_utf8(v)),
        None => None,
    }
}

/// Samples before a cue's stored start at which the cue is placed.
pub const CUE_LEAD: u64 = 2304;

/// `m / sc` seconds at `rate` samples a second, as a whole number of
/// samples, held at `usize::MAX`.
pub open spec fn samples_at(m: int, sc: int, rate: int) -> int {
    let s = (m * rate) / sc;
    if s > usize::MAX { usize::MAX as int } else { s }
}

/// A cue's sample position: its start less `CUE_LEAD` samples, held at 0.
pub open spec fn cue_samples(m: int, sc: int, rate: int) -> int {
    if m * rate >= CUE_LEAD * sc {
        let s = (m * rate - CUE_LEAD * sc) / sc;
        if s > usize::MAX { usize::MAX as int } else { s }
    } else {
        0
    }
}

/// The whole part of `m / sc`, held at `u32::MAX`.
pub open spec fn whole_part(m: int, sc: int) -> int {
    if m / sc > u32::MAX { u32::MAX as int } else { m / sc }
}

fn node_is(n: &XmlNode, name: &str) -> (r: bool)
    ensures
        r == (n.name@ == name@),
{
    text_eq(&n.name, name)
}

fn attr_text(n: &XmlNode, key: &str) -> (r: Result<String, LoadError>)
    ensures
        match r {
            Ok(v) => attr_of(*n, key@) == Some(v@),
            Err(e) => attr_of(*n, key@) is None && e == LoadError::MissingAttribute,
        },
{
    match lookup(&n.attrs, key) {
        Some(v) => Ok(v),
        None => Err(LoadError::MissingAttribute),
    }
}

fn attr_number(n: &XmlNode, key: &str, max: u64) -> (r: Result<u64, LoadError>)
    ensures
        match r {
            Ok(v) => attr_uint(*n, key@) == Some(v as int) && v <= max,
            Err(_) => attr_uint(*n, key@) is None || attr_uint(*n, key@).unwrap() > max,
        },
{
    let t = attr_text(n, key)?;
    match parse_uint(t.as_str()) {
        Some(v) => if v <= max { Ok(v) } else { Err(LoadError::BadNumber) },
        None => Err(LoadError::BadNumber),
    }
}

fn attr_decimal(n: &XmlNode, key: &str) -> (r: Result<(u64, u64), LoadError>)
    ensures
        match r {
            Ok((m, sc)) => sc >= 1 && attr_of(*n, key@) is Some
                && decimal_spec(vstd::utf8::encode_utf8(attr_of(*n, key@).unwrap())) == Some((m as int, sc as int)),
            Err(_) => attr_of(*n, key@) is None
                || decimal_spec(vstd::utf8::encode_utf8(attr_of(*n, key@).unwrap())) is None,
        },
{
    let t = attr_text(n, key)?;
    match parse_decimal(t.as_str()) {
        Some(p) => Ok(p),
        None => Err(LoadError::BadNumber),
    }
}

/// `m / sc` seconds as samples at `rate`.
pub fn seconds_to_samples(m: u64, sc: u64, rate: u32) -> (r: usize)
    requires
        sc >= 1,
    ensures
        r == samples_at(m as int, sc as int, rate as int),
{
    assert(m as int * rate as int <= u64::MAX as int * u32::MAX as int) by (nonlinear_arith)
        requires m <= u64::MAX, rate <= u32::MAX;
    let p: u128 = m as u128 * rate as u128;
    let s: u128 = p / sc as u128;
    if s > usize::MAX as u128 { usize::MAX } else { s as usize }
}

/// A cue's position in samples from its start in seconds.
pub fn cue_start(m: u64, sc: u64, rate: u32) -> (r: usize)
    requires
        sc >= 1,
    ensures
        r == cue_samples(m as int, sc as int, rate as int),
{
    assert(m as int * rate as int <= u64::MAX as int * u32::MAX as int) by (nonlinear_arith)
        requires m <= u64::MAX, rate <= u32::MAX;
    let p: u128 = m as u128 * rate as u128;
    let lead: u128 = 2304u128 * sc as u128;
    if p >= lead {
        let s: u128 = (p - lead) / sc as u128;
        if s > usize::MAX as u128 { usize::MAX } else { s as usize }
    } else {
        0
    }
}

/// The whole part of `m / sc`, held at `u32::MAX`.
pub fn whole_number(m: u64, sc: u64) -> (r: u32)
    requires
        sc >= 1,
    ensures
        r == whole_part(m as int, sc as int),
{
    let q = m / sc;
    if q > u32::MAX as u64 { u32::MAX } else { q as u32 }
}

fn copy_pairs(v: &Vec<(String, String)>) -> (r: Vec<(String, String)>)
    ensures
        r@.len() == v@.len(),
        forall|i: int| 0 <= i < v@.len() ==> #[trigger] r@[i].0@ == v@[i].0@ && r@[i].1@ == v@[i].1@,
{
    let mut r: Vec<(String, String)> = Vec::new();
    let mut i: usize = 0;
    while i < v.len()
        invariant
            i <= v@.len(),
            r@.len() == i,
            forall|j: int| 0 <= j < i ==> #[trigger] r@[j].0@ == v@[j].0@ && r@[j].1@ == v@[j].1@,
        decreases v@.len() - i,
    {
        r.push((v[i].0.clone(), v[i].1.clone()));
        i = i + 1;
    }
    r
}

/// An attribute read as a decimal `(m, scale)`.
pub open spec fn attr_decimal_of(n: XmlNode, key: Seq<char>) -> Option<(int, int)> {
    match attr_of(n, key) {
        Some(v) => decimal_spec(vstd::utf8::encode_utf8(v)),
        None => None,
    }
}

/// A cue as the track's children describe it: name, sample, type.
pub open spec fn cue_view(c: Cue) -> (Seq<char>, int, int) {
    (c.name@, c.start as int, c.type_ as int)
}

/// What the children of a `TRACK` give at sample rate `rate`: the bpm and
/// first beat of the last `TEMPO` child (0 without one), and the cues of the
/// `POSITION_MARK` children in order; `None` where one of those lacks an
/// attribute or holds a bad number. Other children are skipped.
pub open spec fn track_children(ch: Seq<XmlNode>, rate: int) -> Option<(int, int, Seq<(Seq<char>, int, int)>)>
    decreases ch.len(),
{
    if ch.len() == 0 {
        Some((0, 0, Seq::empty()))
    } else {
        match track_children(ch.drop_last(), rate) {
            None => None,
            Some((b, f, cs)) => {
                let n = ch.last();
                if n.name@ == "TEMPO"@ {
                    match (attr_decimal_of(n, "Bpm"@), attr_decimal_of(n, "Inizio"@)) {
                        (Some((bm, bs)), Some((im, is))) => Some((whole_part(bm, bs), samples_at(im, is, rate), cs)),
                        _ => None,
                    }
                } else if n.name@ == "POSITION_MARK"@ {
                    match (attr_of(n, "Name"@), attr_decimal_of(n, "Start"@), attr_uint(n, "Type"@)) {
                        (Some(nm), Some((sm, ss)), Some(ty)) => if ty <= u8::MAX {
                            Some((b, f, cs.push((nm, cue_samples(sm, ss, rate), ty))))
                        } else {
                            None
                        },
                        _ => None,
                    }
                } else {
                    Some((b, f, cs))
                }
            },
        }
    }
}

/// Once the children up to `k` fail, all of them fail.
proof fn lemma_track_children_none_extends(ch: Seq<XmlNode>, rate: int, k: int)
    requires
        0 <= k <= ch.len(),
        track_children(ch.subrange(0, k), rate) is None,
    ensures
        track_children(ch, rate) is None,
    decreases ch.len() - k,
{
    if k < ch.len() {
        assert(ch.subrange(0, k + 1).drop_last() =~= ch.subrange(0, k));
        lemma_track_children_none_extends(ch, rate, k + 1);
    } else {
        assert(ch.subrange(0, k) =~= ch);
    }
}

/// A `TRACK` element that `parse_track` reads without error.
pub open spec fn track_ok(n: XmlNode) -> bool {
    &&& attr_uint(n, "SampleRate"@) is Some
    &&& attr_uint(n, "SampleRate"@).unwrap() <= u32::MAX
    &&& attr_of(n, "Location"@) is Some
    &&& location_path(attr_of(n, "Location"@).unwrap()) is Some
    &&& track_children(n.children@, attr_uint(n, "SampleRate"@).unwrap()) is Some
    &&& attr_uint(n, "TrackID"@) is Some
    &&& attr_uint(n, "TrackID"@).unwrap() <= usize::MAX
}

/// `t` is what a `TRACK` element describes.
pub open spec fn track_matches(n: XmlNode, t: Track) -> bool {
    &&& attr_uint(n, "TrackID"@) == Some(t.id as int)
    &&& attr_uint(n, "SampleRate"@) == Some(t.sample_rate as int)
    &&& attr_of(n, "Location"@) is Some
    &&& location_path(attr_of(n, "Location"@).unwrap()) == Some(t.path@)
    &&& t.info@.len() == n.attrs@.len()
    &&& forall|i: int| 0 <= i < n.attrs@.len() ==> #[trigger] t.info@[i].0@ == n.attrs@[i].0@
        && t.info@[i].1@ == n.attrs@[i].1@
    &&& track_children(n.children@, t.sample_rate as int)
        == Some((t.bpm as int, t.first_beat as int, t.cues@.map_values(|c: Cue| cue_view(c))))
}

/// Reads a `TRACK` element: its attributes become the track's metadata,
/// its `TEMPO` child gives bpm and first beat, and each `POSITION_MARK`
/// child a cue.
pub fn parse_track(node: &XmlNode) -> (r: Result<Track, LoadError>)
    ensures
        r is Ok <==> track_ok(*node),
        r matches Ok(t) ==> track_matches(*node, t),
{
    let rate = attr_number(node, "SampleRate", u32::MAX as u64)? as u32;
    let location = attr_text(node, "Location")?;
    let path = match file_path_of(location.as_str()) {
        Some(p) => p,
        None => return Err(LoadError::BadLocation),
    };
    let mut bpm: u32 = 0;
    let mut first_beat: usize = 0;
    let mut cues: Vec<Cue> = Vec::new();
    let mut i: usize = 0;
    while i < node.children.len()
        invariant
            i <= node.children@.len(),
            attr_uint(*node, "SampleRate"@) == Some(rate as int),
            attr_of(*node, "Location"@) is Some,
            location_path(attr_of(*node, "Location"@).unwrap()) == Some(path@),
            track_children(node.children@.subrange(0, i as int), rate as int)
                == Some((bpm as int, first_beat as int, cues@.map_values(|c: Cue| cue_view(c)))),
        decreases node.children@.len() - i,
    {
        let sub = &node.children[i];
        proof {
            assert(node.children@.subrange(0, i + 1).drop_last() =~= node.children@.subrange(0, i as int));
            reveal_strlit("TEMPO");
            reveal_strlit("POSITION_MARK");
            assert("TEMPO"@[0] != "POSITION_MARK"@[0]);
        }
        if node_is(sub, "TEMPO") {
            let (bm, bs) = match attr_decimal(sub, "Bpm") {
                Ok(v) => v,
                Err(e) => {
                    proof { lemma_track_children_none_extends(node.children@, rate as int, i + 1); }
                    return Err(e);
                },
            };
            let (im, is) = match attr_decimal(sub, "Inizio") {
                Ok(v) => v,
                Err(e) => {
                    proof { lemma_track_children_none_extends(node.children@, rate as int, i + 1); }
                    return Err(e);
                },
            };
            bpm = whole_number(bm, bs);
            first_beat = seconds_to_samples(im, is, rate);
        } else if node_is(sub, "POSITION_MARK") {
            let name = match attr_text(sub, "Name") {
                Ok(v) => v,
                Err(e) => {
                    proof { lemma_track_children_none_extends(node.children@, rate as int, i + 1); }
                    return Err(e);
                },
            };
            let (sm, ss) = match attr_decimal(sub, "Start") {
                Ok(v) => v,
                Err(e) => {
                    proof { lemma_track_children_none_extends(node.children@, rate as int, i + 1); }
                    return Err(e);
                },
            };
            let type_ = match attr_number(sub, "Type", u8::MAX as u64) {
                Ok(v) => v,
                Err(e) => {
                    proof { lemma_track_children_none_extends(node.children@, rate as int, i + 1); }
                    return Err(e);
                },
            } as u8;
            let ghost before = cues@;
            cues.push(Cue { name, start: cue_start(sm, ss, rate), type_ });
            assert(cues@.map_values(|c: Cue| cue_view(c))
                =~= before.map_values(|c: Cue| cue_view(c)).push(cue_view(cues@.last())));
        }
        i = i + 1;
    }
    assert(node.children@.subrange(0, node.children@.len() as int) =~= node.children@);
    let id = attr_number(node, "TrackID", usize::MAX as u64)? as usize;
    Ok(Track { id, path, info: copy_pairs(&node.attrs), bpm, sample_rate: rate, cues, first_beat })
}

/// A playlist's values: name, sub-playlist ids, track keys, parent, id.
pub open spec fn pl_view(p: Playlist) -> (Seq<char>, Seq<usize>, Seq<usize>, Option<usize>, int) {
    (p.name@, p.sub_playlists@, p.track_keys@, p.parent, p.id as int)
}

pub open spec fn pl_views(ps: Seq<Playlist>) -> Seq<(Seq<char>, Seq<usize>, Seq<usize>, Option<usize>, int)> {
    ps.map_values(|p: Playlist| pl_view(p))
}

/// The `Key` of each track entry of a playlist element.
pub open spec fn keys_of(ch: Seq<XmlNode>) -> Option<Seq<usize>>
    decreases ch.len(),
{
    if ch.len() == 0 {
        Some(Seq::empty())
    } else {
        match keys_of(ch.drop_last()) {
            Some(ks) => match attr_uint(ch.last(), "Key"@) {
                Some(k) => if k <= usize::MAX { Some(ks.push(k as usize)) } else { None },
                None => None,
            },
            None => None,
        }
    }
}

/// The playlists under element `n`, numbered in pre-order from `first`:
/// a folder (`Type` "0") lists its children's ids, a playlist (`Type` "1")
/// its entries' keys. `None` where an element cannot be read.
pub open spec fn playlists_of(n: XmlNode, parent: Option<usize>, first: int)
    -> Option<Seq<(Seq<char>, Seq<usize>, Seq<usize>, Option<usize>, int)>>
    decreases n, 1int, 0int,
{
    match (attr_of(n, "Type"@), attr_of(n, "Name"@)) {
        (Some(ty), Some(name)) => if first < 0 || first >= usize::MAX {
            None
        } else if ty == "0"@ {
            match folder_children(n, n.children@.len() as int, first, first + 1) {
                Some((ids, list)) => Some(seq![(name, ids, Seq::<usize>::empty(), parent, first)] + list),
                None => None,
            }
        } else if ty == "1"@ {
            match keys_of(n.children@) {
                Some(ks) => Some(seq![(name, Seq::<usize>::empty(), ks, parent, first)]),
                None => None,
            }
        } else {
            None
        },
        _ => None,
    }
}

/// The first `k` children of folder `n` (id `id`), numbered from `next`:
/// their ids and their playlists.
pub open spec fn folder_children(n: XmlNode, k: int, id: int, next: int)
    -> Option<(Seq<usize>, Seq<(Seq<char>, Seq<usize>, Seq<usize>, Option<usize>, int)>)>
    decreases n, 0int, k,
{
    if k <= 0 || k > n.children@.len() {
        Some((Seq::empty(), Seq::empty()))
    } else {
        match folder_children(n, k - 1, id, next) {
            Some((ids, list)) => match playlists_of(n.children@[k - 1], Some(id as usize), next + list.len()) {
                Some(sub) => Some((ids.push((next + list.len()) as usize), list + sub)),
                None => None,
            },
            None => None,
        }
    }
}

proof fn lemma_keys_none_extends(ch: Seq<XmlNode>, k: int)
    requires
        0 <= k <= ch.len(),
        keys_of(ch.subrange(0, k)) is None,
    ensures
        keys_of(ch) is None,
    decreases ch.len() - k,
{
    if k < ch.len() {
        assert(ch.subrange(0, k + 1).drop_last() =~= ch.subrange(0, k));
        lemma_keys_none_extends(ch, k + 1);
    } else {
        assert(ch.subrange(0, k) =~= ch);
    }
}

proof fn lemma_folder_none_extends(n: XmlNode, k: int, id: int, next: int)
    requires
        0 <= k <= n.children@.len(),
        folder_children(n, k, id, next) is None,
    ensures
        folder_children(n, n.children@.len() as int, id, next) is None,
    decreases n.children@.len() - k,
{
    if k < n.children@.len() {
        lemma_folder_none_extends(n, k + 1, id, next);
    }
}

/// Reads a playlist element and everything under it, numbering the
/// playlists in pre-order from `*ctr`. A folder (`Type` "0") lists the ids
/// of its children; a playlist (`Type` "1") the `Key` of each track entry.
pub fn parse_playlist(node: &XmlNode, parent: Option<usize>, ctr: &mut usize) -> (r: Result<(usize, Vec<Playlist>), LoadError>)
    ensures
        r is Ok <==> playlists_of(*node, parent, *old(ctr) as int) is Some,
        match r {
            Ok((id, list)) => {
                &&& id == *old(ctr)
                &&& *final(ctr) == *old(ctr) + list@.len()
                &&& Some(pl_views(list@)) == playlists_of(*node, parent, *old(ctr) as int)
                &&& forall|i: int| 0 <= i < list@.len() ==> #[trigger] list@[i].id == id + i
            },
            Err(_) => true,
        },
    decreases node,
{
    proof {
        reveal_strlit("0");
        reveal_strlit("1");
        assert("0"@ != "1"@) by { assert("0"@[0] != "1"@[0]); }
    }
    let kind = attr_text(node, "Type")?;
    let name = attr_text(node, "Name")?;
    let id = *ctr;
    if id == usize::MAX {
        return Err(LoadError::TooManyPlaylists);
    }
    if str_eq(kind.as_str(), "0") {
        *ctr = id + 1;
        let mut subs: Vec<usize> = Vec::new();
        let mut rest: Vec<Playlist> = Vec::new();
        let mut i: usize = 0;
        while i < node.children.len()
            invariant
                i <= node.children@.len(),
                id < usize::MAX,
                id == *old(ctr),
                attr_of(*node, "Type"@) == Some("0"@),
                attr_of(*node, "Name"@) == Some(name@),
                *ctr == id + 1 + rest@.len(),
                folder_children(*node, i as int, id as int, id + 1) == Some((subs@, pl_views(rest@))),
                forall|j: int| 0 <= j < rest@.len() ==> #[trigger] rest@[j].id == id + 1 + j,
            decreases node.children@.len() - i,
        {
            let child = &node.children[i];
            proof {
                assert(decreases_to!(node => node.children));
                assert(decreases_to!(node.children => node.children[i as int]));
            }
            let (cid, list) = match parse_playlist(child, Some(id), ctr) {
                Ok(x) => x,
                Err(e) => {
                    proof {
                        assert(pl_views(rest@).len() == rest@.len());
                        assert(folder_children(*node, i + 1, id as int, id + 1) is None);
                        lemma_folder_none_extends(*node, i + 1, id as int, id + 1);
                    }
                    return Err(e);
                },
            };
            subs.push(cid);
            let ghost old_rest = rest@;
            let mut list = list;
            let ghost added = list@;
            rest.append(&mut list);
            assert(pl_views(rest@) =~= pl_views(old_rest) + pl_views(added));
            assert forall|j: int| 0 <= j < rest@.len() implies #[trigger] rest@[j].id == id + 1 + j by {
                if j >= old_rest.len() {
                    assert(rest@[j] == added[j - old_rest.len()]);
                }
            }
            i = i + 1;
        }
        let folder = Playlist { name, sub_playlists: subs, track_keys: Vec::new(), parent, id };
        let mut out: Vec<Playlist> = Vec::new();
        out.push(folder);
        let ghost first = out@;
        let ghost tail = rest@;
        out.append(&mut rest);
        assert(pl_views(out@) =~= pl_views(first) + pl_views(tail));
        assert(pl_views(first) =~= seq![(name@, subs@, Seq::<usize>::empty(), parent, id as int)]);
        Ok((id, out))
    } else if str_eq(kind.as_str(), "1") {
        let mut keys: Vec<usize> = Vec::new();
        let mut i: usize = 0;
        while i < node.children.len()
            invariant
                i <= node.children@.len(),
                id < usize::MAX,
                id == *old(ctr),
                attr_of(*node, "Type"@) == Some("1"@),
                attr_of(*node, "Name"@) == Some(name@),
                "0"@ != "1"@,
                keys_of(node.children@.subrange(0, i as int)) == Some(keys@),
            decreases node.children@.len() - i,
        {
            assert(node.children@.subrange(0, i + 1).drop_last() =~= node.children@.subrange(0, i as int));
            let k = match attr_number(&node.children[i], "Key", usize::MAX as u64) {
                Ok(k) => k,
                Err(e) => {
                    proof {
                        assert(node.children@.subrange(0, i + 1).last() == node.children@[i as int]);
                        assert(keys_of(node.children@.subrange(0, i + 1)) is None);
                        lemma_keys_none_extends(node.children@, i + 1);
                    }
                    return Err(e);
                },
            };
            keys.push(k as usize);
            i = i + 1;
        }
        assert(node.children@.subrange(0, node.children@.len() as int) =~= node.children@);
        *ctr = id + 1;
        let mut out: Vec<Playlist> = Vec::new();
        out.push(Playlist { name, sub_playlists: Vec::new(), track_keys: keys, parent, id });
        assert(pl_views(out@) =~= seq![(name@, Seq::<usize>::empty(), keys@, parent, id as int)]);
        Ok((id, out))
    } else {
        Err(LoadError::BadPlaylistType)
    }
}

/// The catalogue invariants that a document gives: each track is filed
/// under its own id, and each playlist sits at the index of its id.
pub open spec fn catalogue_ok(lib: Library) -> bool {
    &&& forall|k: usize| #[trigger] lib.tracks@.contains_key(k) ==> lib.tracks@[k].id == k
    &&& forall|i: int| 0 <= i < lib.playlists@.len() ==> #[trigger] lib.playlists@[i].id == i
    &&& lib.root_playlist matches Some(r) ==> r == 0 && lib.playlists@.len() > 0
}

/// The `TRACK` elements of a collection added to `m` by id, a later one
/// replacing an earlier one; other elements are skipped. `None` where a
/// track cannot be read.
pub open spec fn collection_into(m: Map<usize, XmlNode>, ch: Seq<XmlNode>) -> Option<Map<usize, XmlNode>>
    decreases ch.len(),
{
    if ch.len() == 0 {
        Some(m)
    } else {
        match collection_into(m, ch.drop_last()) {
            Some(m2) => {
                let n = ch.last();
                if n.name@ == "TRACK"@ {
                    if track_ok(n) {
                        Some(m2.insert(attr_uint(n, "TrackID"@).unwrap() as usize, n))
                    } else {
                        None
                    }
                } else {
                    Some(m2)
                }
            },
            None => None,
        }
    }
}

/// What the top-level elements of a document give: the `TRACK` elements of
/// every `COLLECTION` by id, and the playlists under the first child of the
/// last `PLAYLISTS`. Other elements are skipped.
pub open spec fn document_spec(ms: Seq<XmlNode>)
    -> Option<(Map<usize, XmlNode>, Option<Seq<(Seq<char>, Seq<usize>, Seq<usize>, Option<usize>, int)>>)>
    decreases ms.len(),
{
    if ms.len() == 0 {
        Some((Map::empty(), None))
    } else {
        match document_spec(ms.drop_last()) {
            Some((m, pls)) => {
                let n = ms.last();
                if n.name@ == "COLLECTION"@ {
                    match collection_into(m, n.children@) {
                        Some(m2) => Some((m2, pls)),
                        None => None,
                    }
                } else if n.name@ == "PLAYLISTS"@ {
                    if n.children@.len() == 0 {
                        None
                    } else {
                        match playlists_of(n.children@[0], None, 0) {
                            Some(p) => Some((m, Some(p))),
                            None => None,
                        }
                    }
                } else {
                    Some((m, pls))
                }
            },
            None => None,
        }
    }
}

/// Each track is what its element describes.
pub open spec fn tracks_described(tracks: Map<usize, Track>, m: Map<usize, XmlNode>) -> bool {
    &&& tracks.dom() == m.dom()
    &&& forall|k: usize| #[trigger] m.contains_key(k) ==> track_matches(m[k], tracks[k])
}

proof fn lemma_collection_none_extends(m: Map<usize, XmlNode>, ch: Seq<XmlNode>, k: int)
    requires
        0 <= k <= ch.len(),
        collection_into(m, ch.subrange(0, k)) is None,
    ensures
        collection_into(m, ch) is None,
    decreases ch.len() - k,
{
    if k < ch.len() {
        assert(ch.subrange(0, k + 1).drop_last() =~= ch.subrange(0, k));
        lemma_collection_none_extends(m, ch, k + 1);
    } else {
        assert(ch.subrange(0, k) =~= ch);
    }
}

proof fn lemma_document_none_extends(ms: Seq<XmlNode>, k: int)
    requires
        0 <= k <= ms.len(),
        document_spec(ms.subrange(0, k)) is None,
    ensures
        document_spec(ms) is None,
    decreases ms.len() - k,
{
    if k < ms.len() {
        assert(ms.subrange(0, k + 1).drop_last() =~= ms.subrange(0, k));
        lemma_document_none_extends(ms, k + 1);
    } else {
        assert(ms.subrange(0, k) =~= ms);
    }
}

impl Library {
    /// Reads the catalogue out of a rekordbox document (version 1.0.0):
    /// the `TRACK` elements of its `COLLECTION`, and the playlist tree under
    /// its `PLAYLISTS`.
    pub fn from_document(root: &XmlNode) -> (r: Result<Library, LoadError>)
        ensures
            attr_of(*root, "Version"@) != Some("1.0.0"@) ==> r == Err::<Library, LoadError>(LoadError::WrongVersion),
            r is Ok <==> attr_of(*root, "Version"@) == Some("1.0.0"@) && document_spec(root.children@) is Some,
            r matches Ok(lib) ==> {
                let (m, pls) = document_spec(root.children@).unwrap();
                &&& catalogue_ok(lib)
                &&& tracks_described(lib.tracks@, m)
                &&& match pls {
                    Some(p) => lib.root_playlist == Some(0usize) && pl_views(lib.playlists@) == p,
                    None => lib.root_playlist is None && lib.playlists@.len() == 0,
                }
            },
    {
        proof {
            reveal_strlit("COLLECTION");
            reveal_strlit("PLAYLISTS");
            reveal_strlit("TRACK");
            assert("COLLECTION"@[0] != "PLAYLISTS"@[0]);
        }
        match lookup(&root.attrs, "Version") {
            Some(v) => {
                if !text_eq(&v, "1.0.0") {
                    return Err(LoadError::WrongVersion);
                }
            },
            None => return Err(LoadError::WrongVersion),
        }
        let mut tracks: HashMap<usize, Track> = HashMap::new();
        let mut playlists: Vec<Playlist> = Vec::new();
        let mut root_playlist: Option<usize> = None;
        let ghost mut gm: Map<usize, XmlNode> = Map::empty();
        let ghost mut gp: Option<Seq<(Seq<char>, Seq<usize>, Seq<usize>, Option<usize>, int)>> = None;
        let mut i: usize = 0;
        assert(tracks@ =~= Map::<usize, Track>::empty());
        while i < root.children.len()
            invariant
                i <= root.children@.len(),
                attr_of(*root, "Version"@) == Some("1.0.0"@),
                "COLLECTION"@ != "PLAYLISTS"@,
                document_spec(root.children@.subrange(0, i as int)) == Some((gm, gp)),
                tracks_described(tracks@, gm),
                forall|k: usize| #[trigger] tracks@.contains_key(k) ==> tracks@[k].id == k,
                forall|j: int| 0 <= j < playlists@.len() ==> #[trigger] playlists@[j].id == j,
                match gp {
                    Some(p) => root_playlist == Some(0usize) && pl_views(playlists@) == p && playlists@.len() > 0,
                    None => root_playlist is None && playlists@.len() == 0,
                },
            decreases root.children@.len() - i,
        {
            let master = &root.children[i];
            proof {
                assert(root.children@.subrange(0, i + 1).drop_last() =~= root.children@.subrange(0, i as int));
                assert(root.children@.subrange(0, i + 1).last() == root.children@[i as int]);
            }
            if node_is(master, "COLLECTION") {
                let ghost start_map = gm;
                let mut t: usize = 0;
                assert(master.children@.subrange(0, 0) =~= Seq::<XmlNode>::empty());
                while t < master.children.len()
                    invariant
                        t <= master.children@.len(),
                        i < root.children@.len(),
                        *master == root.children@[i as int],
                        master.name@ == "COLLECTION"@,
                        attr_of(*root, "Version"@) == Some("1.0.0"@),
                        "COLLECTION"@ != "PLAYLISTS"@,
                        document_spec(root.children@.subrange(0, i as int)) == Some((start_map, gp)),
                        root.children@.subrange(0, i + 1).drop_last() =~= root.children@.subrange(0, i as int),
                        root.children@.subrange(0, i + 1).last() == root.children@[i as int],
                        forall|j: int| 0 <= j < playlists@.len() ==> #[trigger] playlists@[j].id == j,
                        match gp {
                            Some(p) => root_playlist == Some(0usize) && pl_views(playlists@) == p && playlists@.len() > 0,
                            None => root_playlist is None && playlists@.len() == 0,
                        },
                        collection_into(start_map, master.children@.subrange(0, t as int)) == Some(gm),
                        tracks_described(tracks@, gm),
                        forall|k: usize| #[trigger] tracks@.contains_key(k) ==> tracks@[k].id == k,
                    decreases master.children@.len() - t,
                {
                    let node = &master.children[t];
                    proof {
                        assert(master.children@.subrange(0, t + 1).drop_last() =~= master.children@.subrange(0, t as int));
                        assert(master.children@.subrange(0, t + 1).last() == master.children@[t as int]);
                    }
                    if node_is(node, "TRACK") {
                        let track = match parse_track(node) {
                            Ok(tr) => tr,
                            Err(e) => {
                                proof {
                                    lemma_collection_none_extends(start_map, master.children@, t + 1);
                                    lemma_document_none_extends(root.children@, i + 1);
                                }
                                return Err(e);
                            },
                        };
                        let id = track.id;
                        let ghost n = *node;
                        tracks.insert(id, track);
                        proof {
                            gm = gm.insert(id, n);
                            assert(tracks@.dom() =~= gm.dom());
                        }
                    }
                    t = t + 1;
                }
                assert(master.children@.subrange(0, master.children@.len() as int) =~= master.children@);
            } else if node_is(master, "PLAYLISTS") {
                if master.children.len() == 0 {
                    proof { lemma_document_none_extends(root.children@, i + 1); }
                    return Err(LoadError::MissingPlaylistRoot);
                }
                let mut ctr: usize = 0;
                let (id, list) = match parse_playlist(&master.children[0], None, &mut ctr) {
                    Ok(x) => x,
                    Err(e) => {
                        proof { lemma_document_none_extends(root.children@, i + 1); }
                        return Err(e);
                    },
                };
                root_playlist = Some(id);
                playlists = list;
                proof {
                    gp = Some(pl_views(playlists@));
                    assert(pl_views(playlists@).len() == playlists@.len());
                }
            }
            i = i + 1;
        }
        assert(root.children@.subrange(0, root.children@.len() as int) =~= root.children@);
        Ok(Library { tracks, root_playlist, playlists })
    }
}

} // verus!
