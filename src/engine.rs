//! The playback engine: transport state, commands, and the lock-step
//! handoff of chunks to the audio callback.
//!
//! The engine never blocks and never touches a channel. Each step returns
//! the list of `Output`s that the caller must carry out in order: a chunk to
//! hand downstream, a wait for the callback's consumed offset, or a status.
use vstd::prelude::*;
use std::collections::HashMap;
use crate::speed::{
    ONE, factor_ok, resample_ok, velocity_ok, effective_speed, effective_speed_spec,
    sustained_speed, sustained_speed_spec, scratch_bend_playing, scratch_bend_paused,
    playing_scratch_bend, paused_scratch_bend, speed_product, RESAMPLE_LIMIT, SPEED_CAP,
};
use crate::cursor::{FRAME_LEN, FRAME_SPAN, renormalize, absolute};
use crate::library::Track;

verus! {

broadcast use vstd::std_specs::hash::group_hash_axioms;

/// Most frames a track may hold.
pub const MAX_FRAMES: usize = 1073741824;

/// Sample offsets beyond this are held at it.
pub const SAMPLE_LIMIT: u64 = 70368744177664;

/// Largest magnitude of a consumed offset that the callback reports.
pub const CONSUMED_LIMIT: i64 = 2199023255552;

/// One decoded frame: two channels of equal length, at most `FRAME_LEN`.
#[derive(Debug)]
pub struct Frame {
    pub left: Vec<i32>,
    pub right: Vec<i32>,
    pub position_ms: u64,
    pub duration_ms: u64,
    pub sample_rate: u32,
}

/// A frame as the decoder hands it over, with any number of channels.
#[derive(Debug)]
pub struct RawFrame {
    pub channels: Vec<Vec<i32>>,
    pub position_ms: u64,
    pub duration_ms: u64,
    pub sample_rate: u32,
}

/// What a controller or a front-end asks of the engine. Positions are
/// fixed-point samples, factors fixed-point ratios (`ONE` is 1.0), and a
/// scratch velocity `v` stands for `v / 64`.
#[derive(Debug)]
pub enum PlayerCommand {
    GetPos,
    Seek(i64),
    SeekS(u64),
    PlayPause,
    Cue(bool),
    CueMove(bool),
    HotCue(usize, bool),
    Speed(i64),
    SpeedDiff(i64),
    Scratch(i64),
    Open(Track),
}

/// What the engine reports: track info (track, duration in ms, sample
/// rate), the position (time in ms, fixed-point sample), the user-facing
/// speed, or a message.
#[derive(Debug)]
pub enum PlayerStatus {
    TrackInfo(Option<Track>, u64, u32),
    Pos(u64, i64),
    Speed(i64),
    Print(String),
}

/// A chunk for the audio callback: a frame of the store (none: go silent),
/// the fixed-point offset to start at, and the fixed-point speed.
#[derive(Clone, Copy, Debug, PartialEq, Eq, Structural)]
pub struct Chunk {
    pub frame: Option<usize>,
    pub start: i64,
    pub speed: i64,
}

/// One thing for the caller to carry out.
#[derive(Debug)]
pub enum Output {
    /// Hand this chunk to the callback (blocking rendezvous).
    Chunk(Chunk),
    /// Receive the callback's consumed offset and drop it.
    AwaitConsumed,
    /// Send this status, best effort.
    Status(PlayerStatus),
}

/// Whether a chunk with audio is with the callback after `o`, or `None`
/// where `o` breaks the lock-step: a chunk sent while another is out, or a
/// wait while none is.
pub open spec fn flight_step(in_flight: bool, o: Output) -> Option<bool> {
    match o {
        Output::Chunk(c) => if in_flight { None } else { Some(c.frame is Some) },
        Output::AwaitConsumed => if in_flight { Some(false) } else { None },
        Output::Status(_) => Some(in_flight),
    }
}

/// `flight_step` over a list of outputs.
pub open spec fn flight_after(in_flight: bool, outs: Seq<Output>) -> Option<bool>
    decreases outs.len(),
{
    if outs.len() == 0 {
        Some(in_flight)
    } else {
        match flight_after(in_flight, outs.drop_last()) {
            Some(b) => flight_step(b, outs.last()),
            None => None,
        }
    }
}


/// No chunk with audio is among `outs`.
pub open spec fn no_audio(outs: Seq<Output>) -> bool {
    forall|i: int| 0 <= i < outs.len() ==> match #[trigger] outs[i] {
        Output::Chunk(c) => c.frame is None,
        _ => true,
    }
}

/// The number of samples in each channel of a frame.
pub open spec fn frame_len(f: Frame) -> int {
    f.left@.len() as int
}

/// A frame the engine can hold: two channels of equal length, at least one
/// sample and at most `FRAME_LEN` (an MPEG audio frame holds 384, 576 or
/// 1152 samples).
pub open spec fn frame_ok(f: Frame) -> bool {
    f.left@.len() == f.right@.len() && 0 < f.left@.len() <= FRAME_LEN
}

/// A decoded frame is kept when it has two channels of equal length that
/// fit a frame.
pub open spec fn raw_frame_ok(f: RawFrame) -> bool {
    &&& f.channels@.len() == 2
    &&& f.channels@[0]@.len() == f.channels@[1]@.len()
    &&& 0 < f.channels@[0]@.len() <= FRAME_LEN
}

/// Positions put frame `i` at `i * FRAME_SPAN`; a frame shorter than
/// `FRAME_LEN` leaves a gap at the end of its span. A position in a gap
/// moves to the start of the next frame (`forward`) or to the last sample
/// of its own frame.
pub open spec fn settle(frames: Seq<Frame>, p: int, forward: bool) -> int {
    let i = p / FRAME_SPAN as int;
    let o = p % FRAME_SPAN as int;
    if 0 <= i < frames.len() && o >= frame_len(frames[i]) * ONE {
        if forward { (i + 1) * FRAME_SPAN } else { i * FRAME_SPAN + frame_len(frames[i]) * ONE - 1 }
    } else {
        p
    }
}

/// The position lies in a frame's samples, or past the store.
pub open spec fn settled(frames: Seq<Frame>, p: int) -> bool {
    let i = p / FRAME_SPAN as int;
    0 <= i < frames.len() ==> (p % (FRAME_SPAN as int)) < frame_len(frames[i]) * ONE
}


/// A cue position in fixed point, held at `SAMPLE_LIMIT` samples.
pub open spec fn sample_pos(s: int) -> int {
    if s > SAMPLE_LIMIT { SAMPLE_LIMIT * ONE } else { s * ONE }
}

/// The fixed-point position of `secs` seconds at `rate` samples a second.
pub open spec fn time_pos(secs: int, rate: int) -> int {
    sample_pos(secs * rate)
}

pub open spec fn is_ahead(p: int, cur: int, forward: bool) -> bool {
    if forward { p > cur } else { p < cur }
}

/// `p` is a marker in the given direction and none lies closer.
pub open spec fn is_nearest(markers: Seq<i64>, cur: int, forward: bool, p: int) -> bool {
    &&& exists|i: int| 0 <= i < markers.len() && markers[i] == p
    &&& is_ahead(p, cur, forward)
    &&& forall|i: int| 0 <= i < markers.len() && is_ahead(markers[i] as int, cur, forward)
        ==> (if forward { p <= markers[i] } else { p >= markers[i] })
}

/// The marker that `CueMove` seeks to, if any.
pub open spec fn nearest_marker_spec(markers: Seq<i64>, cur: int, forward: bool) -> Option<int> {
    if exists|p: int| is_nearest(markers, cur, forward, p) {
        Some(choose|p: int| is_nearest(markers, cur, forward, p))
    } else {
        None
    }
}

pub proof fn lemma_nearest_unique(markers: Seq<i64>, cur: int, forward: bool, p: int, q: int)
    requires
        is_nearest(markers, cur, forward, p),
        is_nearest(markers, cur, forward, q),
    ensures
        p == q,
{
    let i = choose|i: int| 0 <= i < markers.len() && markers[i] == p;
    let j = choose|j: int| 0 <= j < markers.len() && markers[j] == q;
    assert(is_ahead(markers[i] as int, cur, forward));
    assert(is_ahead(markers[j] as int, cur, forward));
}

/// The marker nearest to `cur` strictly in the given direction.
pub fn nearest_marker(markers: &Vec<i64>, cur: i64, forward: bool) -> (r: Option<i64>)
    ensures
        match r {
            Some(p) => nearest_marker_spec(markers@, cur as int, forward) == Some(p as int),
            None => nearest_marker_spec(markers@, cur as int, forward) is None,
        },
{
    let mut best: Option<i64> = None;
    let mut i: usize = 0;
    while i < markers.len()
        invariant
            i <= markers@.len(),
            match best {
                Some(b) => is_nearest(markers@.subrange(0, i as int), cur as int, forward, b as int),
                None => forall|k: int| 0 <= k < i ==> !is_ahead(markers@[k] as int, cur as int, forward),
            },
        decreases markers@.len() - i,
    {
        let p = markers[i];
        let ghost prefix = markers@.subrange(0, i as int);
        let ghost next = markers@.subrange(0, i + 1);
        let closer = (forward && p > cur) || (!forward && p < cur);
        let better = match best {
            Some(b) => closer && ((forward && p < b) || (!forward && p > b)),
            None => closer,
        };
        proof {
            assert forall|k: int| 0 <= k < i implies next[k] == prefix[k] by {}
            assert(next[i as int] == p);
            match best {
                Some(b) => {
                    let w = choose|k: int| 0 <= k < prefix.len() && prefix[k] == b;
                    assert(next[w] == b);
                },
                None => {},
            }
        }
        if better {
            best = Some(p);
        }
        i = i + 1;
    }
    assert(markers@.subrange(0, markers@.len() as int) =~= markers@);
    match best {
        Some(b) => {
            proof {
                let c = choose|p: int| is_nearest(markers@, cur as int, forward, p);
                lemma_nearest_unique(markers@, cur as int, forward, b as int, c);
            }
            Some(b)
        },
        None => {
            assert(!exists|p: int| is_nearest(markers@, cur as int, forward, p)) by {
                if exists|p: int| is_nearest(markers@, cur as int, forward, p) {
                    let p = choose|p: int| is_nearest(markers@, cur as int, forward, p);
                    let k = choose|k: int| 0 <= k < markers@.len() && markers@[k] == p;
                    assert(!is_ahead(markers@[k] as int, cur as int, forward));
                }
            }
            None
        },
    }
}

proof fn lemma_flight_push(b: bool, s: Seq<Output>, o: Output)
    ensures
        flight_after(b, s.push(o)) == match flight_after(b, s) {
            Some(m) => flight_step(m, o),
            None => None,
        },
{
    assert(s.push(o).drop_last() =~= s);
}

fn emit(outs: &mut Vec<Output>, o: Output)
    ensures
        final(outs)@ == old(outs)@.push(o),
{
    outs.push(o);
}

/// Keeps a decoded frame if it has two channels of equal length that fit a
/// frame. Frames with another channel count or unequal channels are
/// dropped as malformed; empty frames and frames over `FRAME_LEN` samples
/// (which no MPEG audio layer produces: they hold 384, 576 or 1152) are
/// dropped as unsupported, since each frame takes one `FRAME_SPAN` of the
/// position scale.
pub fn accept_frame(raw: RawFrame) -> (r: Option<Frame>)
    ensures
        raw_frame_ok(raw) <==> r is Some,
        r matches Some(f) ==> frame_ok(f) && f.left@ == raw.channels@[0]@ && f.right@ == raw.channels@[1]@
            && f.position_ms == raw.position_ms && f.duration_ms == raw.duration_ms
            && f.sample_rate == raw.sample_rate,
{
    let RawFrame { channels, position_ms, duration_ms, sample_rate } = raw;
    let mut channels = channels;
    if channels.len() != 2 || channels[0].len() != channels[1].len() || channels[0].len() == 0
        || channels[0].len() > 1152 {
        return None;
    }
    let ghost both = channels@;
    let right = channels.pop().unwrap();
    let left = channels.pop().unwrap();
    assert(both[0] == left && both[1] == right);
    Some(Frame { left, right, position_ms, duration_ms, sample_rate })
}

/// A sample count as a fixed-point position, held at `SAMPLE_LIMIT`.
pub fn sample_to_pos(s: u64) -> (r: i64)
    ensures
        r == sample_pos(s as int),
        r >= 0,
{
    if s > SAMPLE_LIMIT {
        (SAMPLE_LIMIT as i64) * ONE
    } else {
        (s as i64) * ONE
    }
}

/// The time of an offset into a frame: the frame's start plus the whole
/// samples of the offset at `rate`, in ms, held at `u64::MAX`.
pub open spec fn time_in_frame(f: Frame, off: int, rate: int) -> int {
    let extra = if rate == 0 { 0 } else { (off / ONE as int) * 1000 / rate };
    if f.position_ms + extra > u64::MAX { u64::MAX as int } else { f.position_ms + extra }
}

/// The engine's transport state and its frame store.
#[derive(Debug)]
pub struct Engine {
    pub frames: Vec<Frame>,
    pub sink_rate: u32,
    /// The cursor, as an absolute fixed-point sample position.
    pub pos: i64,
    pub cur_time_ms: u64,
    pub sample_rate: u32,
    pub duration_ms: u64,
    /// A chunk with audio is with the callback.
    pub playing: bool,
    /// Sustained play, as opposed to a momentary preview.
    pub true_playing: bool,
    pub loaded: bool,
    /// The cursor was moved since the chunk with the callback was sent.
    pub jumped: bool,
    pub cue_sample: i64,
    pub hotcues: HashMap<usize, i64>,
    pub cue_markers: Vec<i64>,
    pub bend: i64,
    pub fader: i64,
    pub resample: i64,
}

/// The chunk that tells the callback to go silent.
pub open spec fn silence() -> Chunk {
    Chunk { frame: None, start: 0, speed: ONE }
}

/// The chunk for the cursor: its frame, its offset in the frame, and the
/// effective speed.
pub open spec fn chunk_at(e: Engine) -> Chunk {
    Chunk {
        frame: Some(e.frame_index() as usize),
        start: (e.pos as int % FRAME_SPAN as int) as i64,
        speed: e.speed_now() as i64,
    }
}

/// The user-facing speed of the engine, as a status.
pub open spec fn speed_status(e: Engine) -> Output {
    Output::Status(PlayerStatus::Speed(sustained_speed_spec(e.fader as int, e.bend as int) as i64))
}

/// The position report after a move of the cursor.
pub open spec fn pos_status(e: Engine) -> Output {
    Output::Status(PlayerStatus::Pos(e.cur_time_ms, e.pos))
}

/// What starting playback appends to `before`: the chunk at the cursor and
/// the speed; or, with the cursor past the store, a message and silence.
pub open spec fn start_outs(before: Seq<Output>, after: Seq<Output>, f: Engine) -> bool {
    if f.playing {
        after == before + seq![Output::Chunk(chunk_at(f)), speed_status(f)]
    } else {
        &&& after.len() == before.len() + 2
        &&& after.subrange(0, before.len() as int) == before
        &&& after[before.len() as int] is Status
        &&& after.last() == Output::Chunk(silence())
    }
}

/// What `set_play(play, ..)` from state `e` to state `f` appends to
/// `before`: starting sends the chunk at the cursor; stopping a playing deck
/// waits for the callback's offset and then sends silence.
pub open spec fn play_outs(e: Engine, f: Engine, play: bool, before: Seq<Output>, after: Seq<Output>) -> bool {
    if play && !e.loaded {
        after == before
    } else if play && !e.playing {
        start_outs(before, after, f)
    } else if !play && e.playing {
        after == before + seq![Output::AwaitConsumed, Output::Chunk(silence())]
    } else {
        after == before
    }
}

/// What `set_play(play, is_true)` does to the flags.
pub open spec fn play_flags(e: Engine, f: Engine, play: bool, is_true: bool) -> bool {
    if play && !e.loaded {
        f.playing == e.playing && f.true_playing == e.true_playing && f.loaded == e.loaded
    } else if play {
        &&& f.true_playing == (is_true || e.true_playing)
        &&& if e.playing {
            f.playing && f.loaded
        } else if f.cursor_in_store() {
            f.playing && f.loaded
        } else {
            !f.playing && !f.loaded
        }
    } else {
        !f.playing && !f.true_playing && f.loaded == e.loaded
    }
}

pub open spec fn keeps_speed(e: Engine, f: Engine) -> bool {
    f.bend == e.bend && f.fader == e.fader
}

pub open spec fn keeps_cues(e: Engine, f: Engine) -> bool {
    f.cue_sample == e.cue_sample && f.hotcues@ == e.hotcues@
}

pub open spec fn keeps_flags(e: Engine, f: Engine) -> bool {
    f.playing == e.playing && f.true_playing == e.true_playing && f.loaded == e.loaded
}

/// Nothing of the transport changed.
pub open spec fn keeps_transport(e: Engine, f: Engine) -> bool {
    f.pos == e.pos && keeps_flags(e, f) && keeps_speed(e, f) && keeps_cues(e, f)
}

/// Where a jump to `p` lands: held at zero, out of any gap.
pub open spec fn jump_target(e: Engine, p: int) -> int {
    settle(e.frames@, if p < 0 { 0 } else { p }, true)
}

pub open spec fn seek_effect(e: Engine, f: Engine, p: int, outs: Seq<Output>) -> bool {
    &&& f.pos == jump_target(e, p)
    &&& keeps_flags(e, f) && keeps_speed(e, f) && keeps_cues(e, f)
    &&& outs == seq![pos_status(f)]
}

pub open spec fn play_pause_effect(e: Engine, f: Engine, outs: Seq<Output>) -> bool {
    &&& f.pos == e.pos && keeps_speed(e, f) && keeps_cues(e, f)
    &&& play_flags(e, f, !e.true_playing, true)
    &&& play_outs(e, f, !e.true_playing, Seq::empty(), outs)
}

/// `Cue(on)`: a press away from the stored cue stores the cursor and stops;
/// a press on it plays; a release outside sustained play stops and returns
/// to the cue.
pub open spec fn cue_effect(e: Engine, f: Engine, on: bool, outs: Seq<Output>) -> bool {
    &&& keeps_speed(e, f)
    &&& f.hotcues@ == e.hotcues@
    &&& if on {
        if e.cue_sample != e.pos {
            &&& f.cue_sample == e.pos && f.pos == e.pos && play_flags(e, f, false, false)
            &&& play_outs(e, f, false, Seq::empty(), outs)
        } else {
            &&& f.cue_sample == e.cue_sample && f.pos == e.pos && play_flags(e, f, true, false)
            &&& play_outs(e, f, true, Seq::empty(), outs)
        }
    } else if !e.true_playing {
        &&& f.cue_sample == e.cue_sample && f.pos == jump_target(e, e.cue_sample as int)
        &&& play_flags(e, f, false, false)
        &&& outs.len() > 0 && outs.last() == pos_status(f)
        &&& play_outs(e, f, false, Seq::empty(), outs.drop_last())
    } else {
        keeps_transport(e, f) && outs.len() == 0
    }
}

/// `CueMove(forward)`: seek to the nearest marker in that direction and stop.
pub open spec fn cue_move_effect(e: Engine, f: Engine, forward: bool, outs: Seq<Output>) -> bool {
    match nearest_marker_spec(e.cue_markers@, e.pos as int, forward) {
        Some(p) => {
            &&& f.pos == jump_target(e, p) && play_flags(e, f, false, false)
            &&& keeps_speed(e, f) && keeps_cues(e, f)
            &&& outs.len() > 0 && outs[0] == pos_status(f)
            &&& play_outs(e, f, false, seq![outs[0]], outs)
        },
        None => keeps_transport(e, f) && outs.len() == 0,
    }
}

/// `HotCue(idx, on)`: a press on an unset slot stores the cursor and does
/// nothing else; a press on a set slot jumps there and plays; a release
/// outside sustained play stops and returns to the slot.
pub open spec fn hot_cue_effect(e: Engine, f: Engine, idx: usize, on: bool, outs: Seq<Output>) -> bool {
    &&& keeps_speed(e, f)
    &&& f.cue_sample == e.cue_sample
    &&& if e.hotcues@.contains_key(idx) {
        &&& f.hotcues@ == e.hotcues@
        &&& if on {
            &&& f.pos == jump_target(e, e.hotcues@[idx] as int) && play_flags(e, f, true, false)
            &&& outs.len() > 0 && outs[0] == pos_status(f)
            &&& play_outs(e, f, true, seq![outs[0]], outs)
        } else if !e.true_playing {
            &&& f.pos == jump_target(e, e.hotcues@[idx] as int) && play_flags(e, f, false, false)
            &&& outs.len() > 0 && outs.last() == pos_status(f)
            &&& play_outs(e, f, false, Seq::empty(), outs.drop_last())
        } else {
            f.pos == e.pos && keeps_flags(e, f) && outs.len() == 0
        }
    } else if on {
        f.hotcues@ == e.hotcues@.insert(idx, e.pos) && f.pos == e.pos && keeps_flags(e, f) && outs.len() == 0
    } else {
        keeps_transport(e, f) && outs.len() == 0
    }
}

pub open spec fn speed_effect(e: Engine, f: Engine, x: int, outs: Seq<Output>) -> bool {
    &&& f.fader == x && f.bend == e.bend && f.pos == e.pos && keeps_flags(e, f) && keeps_cues(e, f)
    &&& outs == seq![speed_status(f)]
}

/// `SpeedDiff(x)`: sets the bend; outside sustained play a bend other than
/// 1.0 previews and 1.0 stops; a stopped deck reports the new speed.
pub open spec fn speed_diff_effect(e: Engine, f: Engine, x: int, outs: Seq<Output>) -> bool {
    let core = if !f.playing { outs.drop_last() } else { outs };
    &&& f.bend == x && f.fader == e.fader && f.pos == e.pos && keeps_cues(e, f)
    &&& if e.true_playing {
        keeps_flags(e, f) && core.len() == 0
    } else {
        play_flags(e, f, x != ONE, false) && play_outs(e, f, x != ONE, Seq::empty(), core)
    }
    &&& !f.playing ==> outs.len() > 0 && outs.last() == speed_status(f)
}

/// The scratch law: in sustained play the velocity bends the speed
/// linearly; while paused it drives a momentary preview along an
/// exponential curve, and a zero velocity reports the speed and stops.
pub open spec fn scratch_effect(e: Engine, f: Engine, v: int, outs: Seq<Output>) -> bool {
    &&& f.fader == e.fader && f.pos == e.pos && keeps_cues(e, f)
    &&& if e.true_playing {
        f.bend == playing_scratch_bend(v) && keeps_flags(e, f) && outs.len() == 0
    } else if v == 0 {
        &&& f.bend == paused_scratch_bend(v) && play_flags(e, f, false, false)
        &&& outs.len() > 0 && outs[0] == speed_status(f)
        &&& play_outs(e, f, false, seq![outs[0]], outs)
    } else {
        f.bend == paused_scratch_bend(v) && play_flags(e, f, true, false)
            && play_outs(e, f, true, Seq::empty(), outs)
    }
}

/// What the callback's consumed offset does: the cursor moves to where the
/// callback stopped (unless a jump came in between), renormalized and out
/// of any gap in the direction of play, and the next chunk goes out, or
/// silence past the end of the store.
pub open spec fn consumed_effect(e: Engine, f: Engine, consumed: int, outs: Seq<Output>) -> bool {
    &&& f.same_store(&e)
    &&& keeps_speed(e, f)
    &&& keeps_cues(e, f)
    &&& f.true_playing == e.true_playing
    &&& !e.jumped && e.cursor_in_store() ==> f.pos == ({
        let a = absolute(e.frame_index(), consumed);
        if a < 0 { 0 } else { settle(e.frames@, a, e.speed_now() >= 0) }
    })
    &&& e.jumped || !e.cursor_in_store() ==> f.pos == e.pos
    &&& f.cursor_in_store() ==> f.playing && f.loaded
    &&& !f.cursor_in_store() ==> !f.playing && !f.loaded
    &&& ({
        let k = if !e.jumped && e.cursor_in_store() && f.cursor_in_store() { 1int } else { 0 };
        &&& k == 1 ==> outs[0] == pos_status(f)
        &&& start_outs(outs.subrange(0, k), outs, f)
    })
}

pub open spec fn command_ok(cmd: PlayerCommand) -> bool {
    match cmd {
        PlayerCommand::Speed(x) => factor_ok(x),
        PlayerCommand::SpeedDiff(x) => factor_ok(x),
        PlayerCommand::Scratch(v) => velocity_ok(v),
        PlayerCommand::Open(_) => false,
        _ => true,
    }
}

/// What a command does to the transport, and what it hands out.
pub open spec fn command_effect(e: Engine, f: Engine, cmd: PlayerCommand, outs: Seq<Output>) -> bool {
    match cmd {
        PlayerCommand::GetPos => keeps_transport(e, f) && outs == seq![pos_status(e)],
        PlayerCommand::Seek(p) => seek_effect(e, f, p as int, outs),
        PlayerCommand::SeekS(secs) => seek_effect(e, f, time_pos(secs as int, e.sample_rate as int), outs),
        PlayerCommand::PlayPause => play_pause_effect(e, f, outs),
        PlayerCommand::Cue(on) => cue_effect(e, f, on, outs),
        PlayerCommand::CueMove(forward) => cue_move_effect(e, f, forward, outs),
        PlayerCommand::HotCue(idx, on) => hot_cue_effect(e, f, idx, on, outs),
        PlayerCommand::Speed(x) => speed_effect(e, f, x as int, outs),
        PlayerCommand::SpeedDiff(x) => speed_diff_effect(e, f, x as int, outs),
        PlayerCommand::Scratch(v) => scratch_effect(e, f, v as int, outs),
        PlayerCommand::Open(_) => false,
    }
}

/// A settled position stays where it is.
pub proof fn lemma_settle_fixed(frames: Seq<Frame>, p: int, forward: bool)
    requires
        settled(frames, p),
    ensures
        settle(frames, p, forward) == p,
{
}

/// Settling a position leaves it in a frame's samples or past the store.
pub proof fn lemma_settle_settles(frames: Seq<Frame>, p: int, forward: bool)
    requires
        p >= 0,
        forall|i: int| 0 <= i < frames.len() ==> frame_ok(#[trigger] frames[i]),
    ensures
        settled(frames, settle(frames, p, forward)),
        settle(frames, p, forward) >= 0,
{
    let i = p / FRAME_SPAN as int;
    let o = p % FRAME_SPAN as int;
    if 0 <= i < frames.len() && o >= frame_len(frames[i]) * ONE {
        assert(frame_ok(frames[i]));
        if forward {
            let q = (i + 1) * FRAME_SPAN;
            vstd::arithmetic::div_mod::lemma_fundamental_div_mod_converse(q, FRAME_SPAN as int, i + 1, 0);
            if i + 1 < frames.len() {
                assert(frame_ok(frames[i + 1]));
            }
        } else {
            let l = frame_len(frames[i]) * ONE;
            let q = i * FRAME_SPAN + l - 1;
            assert(l <= FRAME_SPAN) by (nonlinear_arith)
                requires l == frame_len(frames[i]) * ONE, frame_len(frames[i]) <= FRAME_LEN;
            assert(l >= ONE) by (nonlinear_arith)
                requires l == frame_len(frames[i]) * ONE, frame_len(frames[i]) >= 1;
            vstd::arithmetic::div_mod::lemma_fundamental_div_mod_converse(q, FRAME_SPAN as int, i, l - 1);
            assert(q >= 0) by (nonlinear_arith) requires q == i * FRAME_SPAN + l - 1, i >= 0, l >= 1;
        }
    }
}

impl Engine {
    pub open spec fn wf(&self) -> bool {
        &&& self.frames@.len() <= MAX_FRAMES
        &&& forall|i: int| 0 <= i < self.frames@.len() ==> frame_ok(#[trigger] self.frames@[i])
        &&& self.sink_rate > 0
        &&& self.pos >= 0
        &&& settled(self.frames@, self.pos as int)
        &&& self.playing ==> self.loaded
        &&& self.cue_sample >= 0
        &&& forall|k: usize| #[trigger] self.hotcues@.contains_key(k) ==> self.hotcues@[k] >= 0
        &&& forall|i: int| 0 <= i < self.cue_markers@.len() ==> #[trigger] self.cue_markers@[i] >= 0
        &&& factor_ok(self.bend)
        &&& factor_ok(self.fader)
        &&& resample_ok(self.resample)
    }

    /// The frame that the cursor points into.
    pub open spec fn frame_index(&self) -> int {
        self.pos as int / FRAME_SPAN as int
    }

    pub open spec fn cursor_in_store(&self) -> bool {
        self.frame_index() < self.frames@.len()
    }

    pub open spec fn speed_now(&self) -> int {
        effective_speed_spec(self.resample as int, self.fader as int, self.bend as int)
    }

    /// The fields that a command leaves alone unless it says otherwise.
    pub open spec fn same_store(&self, o: &Engine) -> bool {
        &&& self.frames@ == o.frames@
        &&& self.sink_rate == o.sink_rate
        &&& self.sample_rate == o.sample_rate
        &&& self.duration_ms == o.duration_ms
        &&& self.cue_markers@ == o.cue_markers@
        &&& self.resample == o.resample
    }

    /// An engine with nothing loaded, for an audio sink at `sink_rate`.
    pub fn new(sink_rate: u32) -> (r: Engine)
        requires
            sink_rate > 0,
        ensures
            r.wf(),
            !r.playing && !r.true_playing && !r.loaded,
            r.pos == 0,
            r.cue_sample == 0,
            r.hotcues@.len() == 0,
            r.bend == ONE && r.fader == ONE && r.resample == ONE,
            r.frames@.len() == 0,
    {
        Engine {
            frames: Vec::new(),
            sink_rate,
            pos: 0,
            cur_time_ms: 0,
            sample_rate: 0,
            duration_ms: 0,
            playing: false,
            true_playing: false,
            loaded: false,
            jumped: false,
            cue_sample: 0,
            hotcues: HashMap::new(),
            cue_markers: Vec::new(),
            bend: ONE,
            fader: ONE,
            resample: ONE,
        }
    }

    /// The time of the cursor: its frame's start plus the offset in it.
    fn time_at(&self, idx: usize, off: i64) -> (r: u64)
        requires
            idx < self.frames@.len(),
            0 <= off < FRAME_SPAN,
        ensures
            r == time_in_frame(self.frames@[idx as int], off as int, self.sample_rate as int),
    {
        let f = &self.frames[idx];
        let extra: u64 = if self.sample_rate == 0 {
            0
        } else {
            ((off / ONE) as u64) * 1000 / (self.sample_rate as u64)
        };
        f.position_ms.saturating_add(extra)
    }

    /// `p` moved out of any gap between frames.
    fn settle_pos(&self, p: i64, forward: bool) -> (r: i64)
        requires
            self.wf(),
            p >= 0,
        ensures
            r == settle(self.frames@, p as int, forward),
            r >= 0,
            settled(self.frames@, r as int),
    {
        proof { lemma_settle_settles(self.frames@, p as int, forward); }
        let i = p / FRAME_SPAN;
        let o = p % FRAME_SPAN;
        if i < self.frames.len() as i64 {
            let l = self.frames[i as usize].left.len() as i64;
            if o >= l * ONE {
                if forward {
                    return (i + 1) * FRAME_SPAN;
                } else {
                    return i * FRAME_SPAN + l * ONE - 1;
                }
            }
        }
        p
    }

    /// Moves the cursor to `new_pos` (held at zero, out of any gap) and
    /// reports it.
    fn jump(&mut self, new_pos: i64, outs: &mut Vec<Output>, Ghost(start): Ghost<bool>)
        requires
            old(self).wf(),
            flight_after(start, old(outs)@) == Some(old(self).playing),
        ensures
            final(self).wf(),
            final(self).pos == jump_target(*old(self), new_pos as int),
            final(self).jumped,
            final(self).cursor_in_store() ==> final(self).cur_time_ms == time_in_frame(
                final(self).frames@[final(self).frame_index()], final(self).pos as int % FRAME_SPAN as int,
                final(self).sample_rate as int),
            final(self).same_store(old(self)),
            keeps_flags(*old(self), *final(self)),
            keeps_cues(*old(self), *final(self)),
            keeps_speed(*old(self), *final(self)),
            final(outs)@ == old(outs)@.push(pos_status(*final(self))),
            flight_after(start, final(outs)@) == Some(final(self).playing),
    {
        let p = if new_pos < 0 { 0 } else { new_pos };
        self.pos = self.settle_pos(p, true);
        self.jumped = true;
        let idx = self.pos / FRAME_SPAN;
        if (idx as usize) < self.frames.len() {
            self.cur_time_ms = self.time_at(idx as usize, self.pos % FRAME_SPAN);
        }
        proof { lemma_flight_push(start, outs@, Output::Status(PlayerStatus::Pos(self.cur_time_ms, self.pos))); }
        emit(outs, Output::Status(PlayerStatus::Pos(self.cur_time_ms, self.pos)));
    }

    /// Hands the frame under the cursor to the callback, or ends the track
    /// where the cursor has run past the store.
    fn send_chunk(&mut self, outs: &mut Vec<Output>, Ghost(start): Ghost<bool>)
        requires
            old(self).wf(),
            old(self).loaded,
            !old(self).playing,
            flight_after(start, old(outs)@) == Some(false),
        ensures
            final(self).cur_time_ms == old(self).cur_time_ms,
            final(self).wf(),
            final(self).pos == old(self).pos,
            final(self).same_store(old(self)),
            final(self).true_playing == old(self).true_playing,
            keeps_cues(*old(self), *final(self)),
            keeps_speed(*old(self), *final(self)),
            old(self).cursor_in_store() ==> final(self).playing && final(self).loaded,
            !old(self).cursor_in_store() ==> !final(self).playing && !final(self).loaded,
            start_outs(old(outs)@, final(outs)@, *final(self)),
            flight_after(start, final(outs)@) == Some(final(self).playing),
    {
        let ghost before = outs@;
        let idx = self.pos / FRAME_SPAN;
        if idx < self.frames.len() as i64 {
            let speed = effective_speed(self.resample, self.fader, self.bend);
            let c = Chunk { frame: Some(idx as usize), start: self.pos % FRAME_SPAN, speed };
            self.playing = true;
            self.jumped = false;
            proof { lemma_flight_push(start, outs@, Output::Chunk(c)); }
            emit(outs, Output::Chunk(c));
            let shown = sustained_speed(self.fader, self.bend);
            proof { lemma_flight_push(start, outs@, Output::Status(PlayerStatus::Speed(shown))); }
            emit(outs, Output::Status(PlayerStatus::Speed(shown)));
            assert(c == chunk_at(*self));
            assert(outs@ =~= before + seq![Output::Chunk(chunk_at(*self)), speed_status(*self)]);
        } else {
            self.playing = false;
            self.loaded = false;
            let msg = "Reached end".to_string();
            proof { lemma_flight_push(start, outs@, Output::Status(PlayerStatus::Print(msg))); }
            emit(outs, Output::Status(PlayerStatus::Print(msg)));
            let c = Chunk { frame: None, start: 0, speed: ONE };
            proof { lemma_flight_push(start, outs@, Output::Chunk(c)); }
            emit(outs, Output::Chunk(c));
            assert(outs@.subrange(0, before.len() as int) =~= before);
        }
    }

    /// Starts or stops the flow of chunks; `is_true` marks sustained play.
    fn set_play(&mut self, play: bool, is_true: bool, outs: &mut Vec<Output>, Ghost(start): Ghost<bool>)
        requires
            old(self).wf(),
            flight_after(start, old(outs)@) == Some(old(self).playing),
        ensures
            final(self).cur_time_ms == old(self).cur_time_ms,
            final(self).wf(),
            final(self).pos == old(self).pos,
            final(self).same_store(old(self)),
            keeps_cues(*old(self), *final(self)),
            keeps_speed(*old(self), *final(self)),
            play_flags(*old(self), *final(self), play, is_true),
            play_outs(*old(self), *final(self), play, old(outs)@, final(outs)@),
            flight_after(start, final(outs)@) == Some(final(self).playing),
    {
        if play && !self.loaded {
            return;
        }
        if play && !self.playing {
            self.send_chunk(outs, Ghost(start));
        }
        let ghost before = outs@;
        if !play && self.playing {
            proof { lemma_flight_push(start, outs@, Output::AwaitConsumed); }
            emit(outs, Output::AwaitConsumed);
            let c = Chunk { frame: None, start: 0, speed: ONE };
            proof { lemma_flight_push(start, outs@, Output::Chunk(c)); }
            emit(outs, Output::Chunk(c));
            self.playing = false;
            assert(outs@ =~= before + seq![Output::AwaitConsumed, Output::Chunk(silence())]);
        }
        if !play {
            self.true_playing = false;
        }
        if play && is_true {
            self.true_playing = true;
        }
    }
}

impl Engine {
    /// Takes the callback's consumed offset for the chunk it held: moves
    /// the cursor there unless a jump came in between (out of any gap, in
    /// the direction of play), and hands over the next chunk.
    pub fn on_consumed(&mut self, consumed: i64) -> (outs: Vec<Output>)
        requires
            old(self).wf(),
            old(self).playing,
            -CONSUMED_LIMIT <= consumed <= CONSUMED_LIMIT,
        ensures
            final(self).wf(),
            flight_after(false, outs@) == Some(final(self).playing),
            consumed_effect(*old(self), *final(self), consumed as int, outs@),
    {
        let mut outs: Vec<Output> = Vec::new();
        self.playing = false;
        let idx = self.pos / FRAME_SPAN;
        let n = self.frames.len() as i64;
        if !self.jumped && idx < n {
            let (i, o) = renormalize(idx, consumed);
            assert(idx * FRAME_SPAN <= MAX_FRAMES * FRAME_SPAN) by (nonlinear_arith)
                requires 0 <= idx <= MAX_FRAMES;
            assert(absolute(i as int, o as int) <= MAX_FRAMES * FRAME_SPAN + CONSUMED_LIMIT);
            let a = i * FRAME_SPAN + o;
            let forward = effective_speed(self.resample, self.fader, self.bend) >= 0;
            self.pos = if a < 0 { 0 } else { self.settle_pos(a, forward) };
            let ni = self.pos / FRAME_SPAN;
            if (ni as usize) < self.frames.len() {
                self.cur_time_ms = self.time_at(ni as usize, self.pos % FRAME_SPAN);
                proof { lemma_flight_push(false, outs@, Output::Status(PlayerStatus::Pos(self.cur_time_ms, self.pos))); }
                emit(&mut outs, Output::Status(PlayerStatus::Pos(self.cur_time_ms, self.pos)));
            }
        }
        let ghost pre = outs@;
        self.send_chunk(&mut outs, Ghost(false));
        assert(outs@.subrange(0, pre.len() as int) =~= pre) by {
            if self.playing {
                assert(outs@ == pre + seq![Output::Chunk(chunk_at(*self)), speed_status(*self)]);
            }
        }
        outs
    }

    fn cue(&mut self, on: bool, outs: &mut Vec<Output>, Ghost(start): Ghost<bool>)
        requires
            old(self).wf(),
            old(outs)@.len() == 0,
            start == old(self).playing,
        ensures
            final(self).wf(),
            final(self).same_store(old(self)),
            cue_effect(*old(self), *final(self), on, final(outs)@),
            flight_after(start, final(outs)@) == Some(final(self).playing),
    {
        assert(outs@ =~= Seq::<Output>::empty());
        if on {
            if self.cue_sample != self.pos {
                self.cue_sample = self.pos;
                self.set_play(false, false, outs, Ghost(start));
            } else {
                self.set_play(true, false, outs, Ghost(start));
            }
        } else if !self.true_playing {
            self.set_play(false, false, outs, Ghost(start));
            let c = self.cue_sample;
            let ghost mid = outs@;
            self.jump(c, outs, Ghost(start));
            assert(outs@.drop_last() =~= mid);
        }
    }

    fn cue_move(&mut self, forward: bool, outs: &mut Vec<Output>, Ghost(start): Ghost<bool>)
        requires
            old(self).wf(),
            old(outs)@.len() == 0,
            start == old(self).playing,
        ensures
            final(self).wf(),
            final(self).same_store(old(self)),
            cue_move_effect(*old(self), *final(self), forward, final(outs)@),
            flight_after(start, final(outs)@) == Some(final(self).playing),
    {
        assert(outs@ =~= Seq::<Output>::empty());
        match nearest_marker(&self.cue_markers, self.pos, forward) {
            Some(p) => {
                self.jump(p, outs, Ghost(start));
                let ghost j = *self;
                assert(outs@ =~= seq![pos_status(j)]);
                self.set_play(false, false, outs, Ghost(start));
                assert(outs@[0] == pos_status(j));
                assert(seq![outs@[0]] =~= seq![pos_status(j)]);
            },
            None => {},
        }
    }

    fn hot_cue(&mut self, idx: usize, on: bool, outs: &mut Vec<Output>, Ghost(start): Ghost<bool>)
        requires
            old(self).wf(),
            old(outs)@.len() == 0,
            start == old(self).playing,
        ensures
            final(self).wf(),
            final(self).same_store(old(self)),
            hot_cue_effect(*old(self), *final(self), idx, on, final(outs)@),
            flight_after(start, final(outs)@) == Some(final(self).playing),
    {
        assert(outs@ =~= Seq::<Output>::empty());
        match self.hotcues.get(&idx) {
            Some(p) => {
                let p = *p;
                if on {
                    self.jump(p, outs, Ghost(start));
                    let ghost j = *self;
                    assert(outs@ =~= seq![pos_status(j)]);
                    self.set_play(true, false, outs, Ghost(start));
                    assert(outs@[0] == pos_status(j));
                    assert(seq![outs@[0]] =~= seq![pos_status(j)]);
                } else if !self.true_playing {
                    self.set_play(false, false, outs, Ghost(start));
                    let ghost mid = outs@;
                    self.jump(p, outs, Ghost(start));
                    assert(outs@.drop_last() =~= mid);
                }
            },
            None => {
                if on {
                    let cur = self.pos;
                    self.hotcues.insert(idx, cur);
                }
            },
        }
    }

    fn scratch(&mut self, v: i64, outs: &mut Vec<Output>, Ghost(start): Ghost<bool>)
        requires
            old(self).wf(),
            velocity_ok(v),
            old(outs)@.len() == 0,
            start == old(self).playing,
        ensures
            final(self).wf(),
            final(self).same_store(old(self)),
            scratch_effect(*old(self), *final(self), v as int, final(outs)@),
            flight_after(start, final(outs)@) == Some(final(self).playing),
    {
        assert(outs@ =~= Seq::<Output>::empty());
        if self.true_playing {
            self.bend = scratch_bend_playing(v);
        } else {
            self.bend = scratch_bend_paused(v);
            if v == 0 {
                let shown = sustained_speed(self.fader, self.bend);
                proof { lemma_flight_push(start, outs@, Output::Status(PlayerStatus::Speed(shown))); }
                emit(outs, Output::Status(PlayerStatus::Speed(shown)));
                assert(outs@ =~= seq![speed_status(*self)]);
            }
            let ghost pre = outs@;
            self.set_play(v != 0, false, outs, Ghost(start));
            if v == 0 {
                assert(outs@[0] == pre[0]) by {
                    if self.playing {} else {}
                }
                assert(seq![outs@[0]] =~= pre);
            }
        }
    }

    fn speed_diff(&mut self, x: i64, outs: &mut Vec<Output>, Ghost(start): Ghost<bool>)
        requires
            old(self).wf(),
            factor_ok(x),
            old(outs)@.len() == 0,
            start == old(self).playing,
        ensures
            final(self).wf(),
            final(self).same_store(old(self)),
            speed_diff_effect(*old(self), *final(self), x as int, final(outs)@),
            flight_after(start, final(outs)@) == Some(final(self).playing),
    {
        assert(outs@ =~= Seq::<Output>::empty());
        self.bend = x;
        if !self.true_playing {
            self.set_play(x != ONE, false, outs, Ghost(start));
        }
        let ghost mid = outs@;
        if !self.playing {
            let shown = sustained_speed(self.fader, self.bend);
            proof { lemma_flight_push(start, outs@, Output::Status(PlayerStatus::Speed(shown))); }
            emit(outs, Output::Status(PlayerStatus::Speed(shown)));
            assert(outs@.drop_last() =~= mid);
        }
    }

    /// Carries out one command. `Open` goes through `open`, which takes the
    /// decoded frames along with the track.
    pub fn handle(&mut self, cmd: PlayerCommand) -> (outs: Vec<Output>)
        requires
            old(self).wf(),
            command_ok(cmd),
        ensures
            final(self).wf(),
            final(self).same_store(old(self)),
            command_effect(*old(self), *final(self), cmd, outs@),
            flight_after(old(self).playing, outs@) == Some(final(self).playing),
    {
        let mut outs: Vec<Output> = Vec::new();
        let ghost start = self.playing;
        match cmd {
            PlayerCommand::GetPos => {
                proof { lemma_flight_push(start, outs@, Output::Status(PlayerStatus::Pos(self.cur_time_ms, self.pos))); }
                emit(&mut outs, Output::Status(PlayerStatus::Pos(self.cur_time_ms, self.pos)));
                assert(outs@ =~= seq![pos_status(*self)]);
            },
            PlayerCommand::Seek(p) => {
                self.jump(p, &mut outs, Ghost(start));
                assert(outs@ =~= seq![pos_status(*self)]);
            },
            PlayerCommand::SeekS(secs) => {
                let rate = self.sample_rate as u64;
                let samples: u64 = if rate > 0 && secs > SAMPLE_LIMIT / rate {
                    assert(secs * rate > SAMPLE_LIMIT) by (nonlinear_arith)
                        requires rate > 0, secs > SAMPLE_LIMIT / rate;
                    SAMPLE_LIMIT + 1
                } else {
                    assert(secs * rate <= SAMPLE_LIMIT) by (nonlinear_arith)
                        requires rate == 0 || secs <= SAMPLE_LIMIT / rate;
                    secs * rate
                };
                let p = sample_to_pos(samples);
                self.jump(p, &mut outs, Ghost(start));
                assert(outs@ =~= seq![pos_status(*self)]);
            },
            PlayerCommand::PlayPause => {
                let play = !self.true_playing;
                self.set_play(play, true, &mut outs, Ghost(start));
            },
            PlayerCommand::Cue(on) => self.cue(on, &mut outs, Ghost(start)),
            PlayerCommand::CueMove(forward) => self.cue_move(forward, &mut outs, Ghost(start)),
            PlayerCommand::HotCue(idx, on) => self.hot_cue(idx, on, &mut outs, Ghost(start)),
            PlayerCommand::Speed(x) => {
                self.fader = x;
                let shown = sustained_speed(self.fader, self.bend);
                proof { lemma_flight_push(start, outs@, Output::Status(PlayerStatus::Speed(shown))); }
                emit(&mut outs, Output::Status(PlayerStatus::Speed(shown)));
                assert(outs@ =~= seq![speed_status(*self)]);
            },
            PlayerCommand::SpeedDiff(x) => self.speed_diff(x, &mut outs, Ghost(start)),
            PlayerCommand::Scratch(v) => self.scratch(v, &mut outs, Ghost(start)),
            PlayerCommand::Open(_) => {},
        }
        outs
    }
}

pub open spec fn frames_ok(fs: Seq<Frame>) -> bool {
    &&& 0 < fs.len() <= MAX_FRAMES
    &&& forall|i: int| 0 <= i < fs.len() ==> frame_ok(#[trigger] fs[i])
}

/// The total duration of the frames in ms, held at `u64::MAX`.
pub open spec fn total_ms(fs: Seq<Frame>) -> int
    decreases fs.len(),
{
    if fs.len() == 0 {
        0
    } else {
        let t = total_ms(fs.drop_last()) + fs.last().duration_ms;
        if t > u64::MAX { u64::MAX as int } else { t }
    }
}

/// The hot-cue table that a track seeds: slot `i` holds cue `i`.
pub open spec fn seeded_hotcues(cues: Seq<crate::library::Cue>) -> Map<usize, i64> {
    Map::new(|k: usize| k < cues.len(), |k: usize| sample_pos(cues[k as int].start as int) as i64)
}

/// Where a freshly loaded track starts: at hot cue 0 if the track has a
/// cue, else at its first beat.
pub open spec fn start_pos(track: Track) -> int {
    if track.cues@.len() > 0 {
        sample_pos(track.cues@[0].start as int)
    } else {
        sample_pos(track.first_beat as int)
    }
}

impl Engine {
    /// Loads `track`, whose audio decoded to `decoded` (`None`: it could
    /// not be read). On success the engine holds the new frames, derives
    /// the resampling factor, seeds cue markers and hot cues from the track,
    /// resets the bend to 1.0 and the stored cue to the start of the track
    /// (the fader stays where the hardware fader is), seeks to the start,
    /// reports the track, and then resumes play if the deck was in
    /// sustained play. On failure nothing changes but a message.
    pub fn open(&mut self, track: Track, decoded: Option<Vec<Frame>>) -> (outs: Vec<Output>)
        requires
            old(self).wf(),
        ensures
            final(self).wf(),
            flight_after(old(self).playing, outs@) == Some(final(self).playing),
            match decoded {
                Some(fs) if frames_ok(fs@) => {
                    &&& final(self).frames@ == fs@
                    &&& final(self).sink_rate == old(self).sink_rate
                    &&& final(self).sample_rate == fs@[0].sample_rate
                    &&& final(self).resample == fs@[0].sample_rate * ONE / old(self).sink_rate as int
                    &&& final(self).duration_ms == total_ms(fs@)
                    &&& final(self).cue_markers@.len() == track.cues@.len()
                    &&& forall|i: int| 0 <= i < track.cues@.len() ==> #[trigger] final(self).cue_markers@[i]
                        == sample_pos(track.cues@[i].start as int)
                    &&& final(self).hotcues@ == seeded_hotcues(track.cues@)
                    &&& final(self).pos == settle(fs@, start_pos(track), true)
                    &&& final(self).true_playing == (old(self).true_playing && old(self).playing)
                    &&& final(self).playing == (old(self).playing && old(self).true_playing && final(self).cursor_in_store())
                    &&& final(self).loaded == (!(old(self).playing && old(self).true_playing) || final(self).cursor_in_store())
                    &&& final(self).fader == old(self).fader
                    &&& final(self).bend == ONE
                    &&& final(self).cue_sample == 0
                    &&& ({
                        let resumed = old(self).playing && old(self).true_playing;
                        let k = if resumed { outs@.len() - 3 } else { outs@.len() - 1 };
                        &&& 0 <= k < outs@.len()
                        &&& outs@[k] matches Output::Status(PlayerStatus::TrackInfo(Some(t), d, r))
                        &&& t == track && d == total_ms(fs@) && r == fs@[0].sample_rate
                        &&& no_audio(outs@.subrange(0, k + 1))
                        &&& resumed ==> start_outs(outs@.subrange(0, k + 1), outs@, *final(self))
                    })
                },
                _ => {
                    &&& keeps_transport(*old(self), *final(self))
                    &&& final(self).same_store(old(self))
                    &&& outs@.len() == 1
                    &&& outs@[0] is Status
                },
            },
    {
        let mut outs: Vec<Output> = Vec::new();
        let ghost start = self.playing;
        let fs = match decoded {
            Some(fs) => fs,
            None => {
                let msg = track.path.clone();
                proof { lemma_flight_push(start, outs@, Output::Status(PlayerStatus::Print(msg))); }
                emit(&mut outs, Output::Status(PlayerStatus::Print(msg)));
                return outs;
            },
        };
        let mut ok = fs.len() > 0 && fs.len() <= MAX_FRAMES;
        let mut i: usize = 0;
        while i < fs.len()
            invariant
                i <= fs@.len(),
                ok == (0 < fs@.len() <= MAX_FRAMES && forall|j: int| 0 <= j < i ==> frame_ok(#[trigger] fs@[j])),
            decreases fs@.len() - i,
        {
            if fs[i].left.len() != fs[i].right.len() || fs[i].left.len() == 0 || fs[i].left.len() > 1152 {
                ok = false;
            }
            i = i + 1;
        }
        if !ok {
            let msg = track.path.clone();
            proof { lemma_flight_push(start, outs@, Output::Status(PlayerStatus::Print(msg))); }
            emit(&mut outs, Output::Status(PlayerStatus::Print(msg)));
            return outs;
        }
        let was_playing = self.playing;
        let was_true_playing = self.true_playing;
        self.set_play(false, false, &mut outs, Ghost(start));
        assert(no_audio(outs@));

        let mut total: u64 = 0;
        let mut k: usize = 0;
        while k < fs.len()
            invariant
                k <= fs@.len(),
                total == total_ms(fs@.subrange(0, k as int)),
            decreases fs@.len() - k,
        {
            assert(fs@.subrange(0, k + 1).drop_last() =~= fs@.subrange(0, k as int));
            total = total.saturating_add(fs[k].duration_ms);
            k = k + 1;
        }
        assert(fs@.subrange(0, fs@.len() as int) =~= fs@);
        let rate = fs[0].sample_rate;
        self.frames = fs;
        self.loaded = true;
        self.sample_rate = rate;
        self.duration_ms = total;
        assert((rate as int) * ONE <= RESAMPLE_LIMIT) by (nonlinear_arith)
            requires rate <= u32::MAX;
        self.resample = ((rate as i64) * ONE) / (self.sink_rate as i64);
        assert(self.resample <= RESAMPLE_LIMIT) by (nonlinear_arith)
            requires self.resample == (rate as int * ONE) / (self.sink_rate as int), self.sink_rate > 0,
                (rate as int) * ONE <= RESAMPLE_LIMIT;

        let mut markers: Vec<i64> = Vec::new();
        let mut table: HashMap<usize, i64> = HashMap::new();
        let mut c: usize = 0;
        while c < track.cues.len()
            invariant
                c <= track.cues@.len(),
                markers@.len() == c,
                forall|j: int| 0 <= j < c ==> #[trigger] markers@[j] == sample_pos(track.cues@[j].start as int),
                table@ == Map::new(|q: usize| q < c, |q: usize| sample_pos(track.cues@[q as int].start as int) as i64),
            decreases track.cues@.len() - c,
        {
            let p = sample_to_pos(track.cues[c].start as u64);
            markers.push(p);
            table.insert(c, p);
            c = c + 1;
            assert(table@ =~= Map::new(|q: usize| q < c, |q: usize| sample_pos(track.cues@[q as int].start as int) as i64));
        }
        self.cue_markers = markers;
        self.hotcues = table;
        assert(self.hotcues@ =~= seeded_hotcues(track.cues@));

        proof { lemma_settle_settles(self.frames@, self.pos as int, true); }
        self.pos = 0;
        let fb = sample_to_pos(track.first_beat as u64);
        let ghost o1 = outs@;
        self.jump(fb, &mut outs, Ghost(start));
        proof { lemma_no_audio_push(o1, outs@.last()); }
        match self.hotcues.get(&0) {
            Some(p) => {
                let p = *p;
                let ghost o2 = outs@;
                self.jump(p, &mut outs, Ghost(start));
                proof { lemma_no_audio_push(o2, outs@.last()); }
            },
            None => {},
        }
        self.bend = ONE;
        self.cue_sample = 0;
        let resume = was_playing && was_true_playing;
        let info = PlayerStatus::TrackInfo(Some(track), total, rate);
        proof { lemma_flight_push(start, outs@, Output::Status(info)); }
        let ghost o3 = outs@;
        emit(&mut outs, Output::Status(info));
        proof { lemma_no_audio_push(o3, outs@.last()); }
        let ghost before = outs@;
        self.set_play(resume, resume, &mut outs, Ghost(start));
        proof {
            if resume {
                assert(outs@.subrange(0, outs@.len() - 2) =~= before);
            } else {
                assert(outs@ == before);
            }
            assert(outs@.subrange(0, before.len() as int) =~= before);
        }
        outs
    }
}


proof fn lemma_no_audio_push(s: Seq<Output>, o: Output)
    requires
        no_audio(s),
        !(o matches Output::Chunk(c) && c.frame is Some),
    ensures
        no_audio(s.push(o)),
{
    assert forall|i: int| 0 <= i < s.push(o).len() implies match #[trigger] s.push(o)[i] {
        Output::Chunk(c) => c.frame is None,
        _ => true,
    } by {
        if i < s.len() {
            assert(s.push(o)[i] == s[i]);
        }
    }
}

/// `Speed` sets the fader and leaves the bend; `SpeedDiff` sets the bend
/// and leaves the fader; `Speed` reports the new user-facing speed.
pub proof fn lemma_speed_factors_independent(e: Engine, f: Engine, g: Engine, x: i64, y: i64, o1: Seq<Output>, o2: Seq<Output>)
    requires
        command_effect(e, f, PlayerCommand::Speed(x), o1),
        command_effect(e, g, PlayerCommand::SpeedDiff(y), o2),
    ensures
        f.fader == x && f.bend == e.bend,
        g.bend == y && g.fader == e.fader,
        o1 == seq![Output::Status(PlayerStatus::Speed(sustained_speed_spec(x as int, e.bend as int) as i64))],
{
}

/// A zero scratch velocity outside sustained play resets the bend to 1.0,
/// stops playback, reports the speed `fader * 1.0` first, and silences a
/// playing deck after taking back its chunk.
pub proof fn lemma_scratch_zero_stops(e: Engine, f: Engine, outs: Seq<Output>)
    requires
        !e.true_playing,
        command_effect(e, f, PlayerCommand::Scratch(0), outs),
    ensures
        f.bend == ONE,
        !f.playing,
        outs[0] == Output::Status(PlayerStatus::Speed(sustained_speed_spec(e.fader as int, ONE as int) as i64)),
        e.playing ==> outs == seq![outs[0], Output::AwaitConsumed, Output::Chunk(silence())],
        !e.playing ==> outs.len() == 1,
{
}

/// A cue press on the stored cue plays (when a track is loaded and the cue
/// is inside it), and pressing again before moving keeps the stored cue.
pub proof fn lemma_cue_press_idempotent(e: Engine, f: Engine, g: Engine, o1: Seq<Output>, o2: Seq<Output>)
    requires
        e.wf(),
        e.cue_sample == e.pos,
        e.loaded,
        e.cursor_in_store(),
        f.same_store(&e),
        command_effect(e, f, PlayerCommand::Cue(true), o1),
        command_effect(f, g, PlayerCommand::Cue(true), o2),
    ensures
        f.playing,
        f.cue_sample == e.cue_sample,
        g.cue_sample == e.cue_sample,
        g.pos == e.pos,
{
}

/// The first press of an unset hot cue stores the cursor and hands out
/// nothing; the next press jumps to exactly that position and reports it.
pub proof fn lemma_hot_cue_capture(e: Engine, f: Engine, g: Engine, idx: usize, o1: Seq<Output>, o2: Seq<Output>)
    requires
        e.wf(),
        f.same_store(&e),
        !e.hotcues@.contains_key(idx),
        command_effect(e, f, PlayerCommand::HotCue(idx, true), o1),
        command_effect(f, g, PlayerCommand::HotCue(idx, true), o2),
    ensures
        f.pos == e.pos,
        f.hotcues@ == e.hotcues@.insert(idx, e.pos),
        o1.len() == 0,
        g.pos == e.pos,
        g.hotcues@ == f.hotcues@,
        o2[0] == pos_status(g),
{
    lemma_settle_fixed(e.frames@, e.pos as int, true);
}


/// Every chunk with audio that the engine hands out after a consumed
/// offset plays at resample * fader * bend (the exact fixed-point product
/// within the speed cap), and the status that follows it reports
/// fader * bend, without the resampling.
pub proof fn lemma_consumed_chunk_speed(e: Engine, f: Engine, consumed: int, outs: Seq<Output>)
    requires
        e.wf(),
        f.wf(),
        consumed_effect(e, f, consumed, outs),
        f.playing,
        -SPEED_CAP <= speed_product(f.resample as int, f.fader as int, f.bend as int) <= SPEED_CAP,
    ensures
        outs[outs.len() - 2] matches Output::Chunk(c)
            && c.frame is Some
            && c.speed == speed_product(e.resample as int, e.fader as int, e.bend as int),
        outs.last() == Output::Status(PlayerStatus::Speed(sustained_speed_spec(e.fader as int, e.bend as int) as i64)),
{
    let k = if !e.jumped && e.cursor_in_store() && f.cursor_in_store() { 1int } else { 0 };
    let pre = outs.subrange(0, k);
    assert(outs == pre + seq![Output::Chunk(chunk_at(f)), speed_status(f)]);
    assert(outs[outs.len() - 2] == Output::Chunk(chunk_at(f)));
    crate::speed::lemma_effective_speed_is_product(f.resample, f.fader, f.bend);
}

/// With the cursor in the store, the callback's consumed offset keeps the
/// absolute position: a frame index and offset that ran outside the frame
/// come back as the same sample, where that sample lies in a frame.
pub proof fn lemma_consumed_keeps_position(e: Engine, f: Engine, consumed: int, outs: Seq<Output>)
    requires
        consumed_effect(e, f, consumed, outs),
        !e.jumped,
        e.cursor_in_store(),
        absolute(e.frame_index(), consumed) >= 0,
        settled(e.frames@, absolute(e.frame_index(), consumed)),
    ensures
        f.pos == absolute(e.frame_index(), consumed),
        0 <= (f.pos as int) % (FRAME_SPAN as int) < FRAME_SPAN,
        absolute(f.frame_index(), (f.pos as int) % (FRAME_SPAN as int)) == absolute(e.frame_index(), consumed),
{
    lemma_settle_fixed(e.frames@, absolute(e.frame_index(), consumed), e.speed_now() >= 0);
    vstd::arithmetic::div_mod::lemma_fundamental_div_mod(f.pos as int, FRAME_SPAN as int);
}

/// Pressing cue away from the stored cue stores the cursor and stops;
/// pressing again without moving plays from there and keeps the cue, and
/// so does every further press.
pub proof fn lemma_cue_press_twice(e: Engine, f: Engine, g: Engine, o1: Seq<Output>, o2: Seq<Output>)
    requires
        e.wf(),
        e.loaded,
        e.cue_sample != e.pos,
        e.cursor_in_store(),
        f.same_store(&e),
        command_effect(e, f, PlayerCommand::Cue(true), o1),
        g.same_store(&f),
        command_effect(f, g, PlayerCommand::Cue(true), o2),
    ensures
        f.cue_sample == e.pos && !f.playing && f.pos == e.pos,
        g.cue_sample == e.pos && g.playing && g.pos == e.pos,
{
}

/// A press on a set hot cue whose position lies in a frame's samples jumps
/// to exactly that position, reports it, keeps the table, and plays when a
/// track is loaded.
pub proof fn lemma_hot_cue_jump(e: Engine, f: Engine, idx: usize, outs: Seq<Output>)
    requires
        e.wf(),
        e.hotcues@.contains_key(idx),
        settled(e.frames@, e.hotcues@[idx] as int),
        (e.hotcues@[idx] as int) / (FRAME_SPAN as int) < e.frames@.len(),
        f.same_store(&e),
        command_effect(e, f, PlayerCommand::HotCue(idx, true), outs),
    ensures
        f.pos == e.hotcues@[idx],
        outs[0] == Output::Status(PlayerStatus::Pos(f.cur_time_ms, e.hotcues@[idx])),
        f.hotcues@ == e.hotcues@,
        f.playing == e.loaded,
{
    lemma_settle_fixed(e.frames@, e.hotcues@[idx] as int, true);
}

/// Scratching full reverse on a paused deck previews at -(4^10)/10, and a
/// zero velocity then reports the speed fader * 1.0, takes back the chunk,
/// sends silence and stops.
pub proof fn lemma_scratch_preview_then_release(e: Engine, f: Engine, g: Engine, o1: Seq<Output>, o2: Seq<Output>)
    requires
        e.wf(),
        e.loaded,
        !e.true_playing,
        !e.playing,
        e.cursor_in_store(),
        command_effect(e, f, PlayerCommand::Scratch(-64i64), o1),
        f.same_store(&e),
        command_effect(f, g, PlayerCommand::Scratch(0), o2),
    ensures
        f.playing && !f.true_playing,
        f.bend == paused_scratch_bend(-64),
        !g.playing && g.bend == ONE,
        o2 == seq![
            Output::Status(PlayerStatus::Speed(sustained_speed_spec(e.fader as int, ONE as int) as i64)),
            Output::AwaitConsumed,
            Output::Chunk(silence()),
        ],
{
    assert(f.cursor_in_store());
}


pub open spec fn is_audio(o: Output) -> bool {
    o matches Output::Chunk(c) && c.frame is Some
}

/// No wait for the callback's offset lies strictly between `i` and `j`.
pub open spec fn no_wait_between(outs: Seq<Output>, i: int, j: int) -> bool {
    forall|k: int| i < k < j ==> !(#[trigger] outs[k] is AwaitConsumed)
}

proof fn lemma_audio_stays_in_flight(b: bool, s: Seq<Output>, i: int)
    requires
        flight_after(b, s) is Some,
        0 <= i < s.len(),
        is_audio(s[i]),
        no_wait_between(s, i, s.len() as int),
    ensures
        flight_after(b, s) == Some(true),
    decreases s.len(),
{
    let t = s.drop_last();
    if i < t.len() {
        assert(flight_after(b, t) is Some);
        assert(no_wait_between(t, i, t.len() as int)) by {
            assert forall|k: int| i < k < t.len() implies !(#[trigger] t[k] is AwaitConsumed) by {
                assert(t[k] == s[k]);
            }
        }
        assert(t[i] == s[i]);
        lemma_audio_stays_in_flight(b, t, i);
        assert(!(s[s.len() - 1] is AwaitConsumed));
    }
}

/// Lock-step: along any outputs that keep the handoff (as every engine
/// step's do), no chunk with audio follows another unless the wait for the
/// callback's consumed offset of the first lies between them.
pub proof fn lemma_lock_step(b: bool, outs: Seq<Output>, i: int, j: int)
    requires
        flight_after(b, outs) is Some,
        0 <= i < j < outs.len(),
        is_audio(outs[i]),
        is_audio(outs[j]),
    ensures
        !no_wait_between(outs, i, j),
{
    if no_wait_between(outs, i, j) {
        let s = outs.subrange(0, j);
        lemma_flight_prefix(b, outs, j);
        assert(no_wait_between(s, i, j)) by {
            assert forall|k: int| i < k < j implies !(#[trigger] s[k] is AwaitConsumed) by {
                assert(s[k] == outs[k]);
            }
        }
        assert(s[i] == outs[i]);
        lemma_audio_stays_in_flight(b, s, i);
        lemma_flight_prefix(b, outs, j + 1);
        assert(outs.subrange(0, j + 1).drop_last() =~= s);
        assert(outs.subrange(0, j + 1).last() == outs[j]);
    }
}

/// A prefix of outputs that keep the handoff keeps it too.
proof fn lemma_flight_prefix(b: bool, outs: Seq<Output>, n: int)
    requires
        flight_after(b, outs) is Some,
        0 <= n <= outs.len(),
    ensures
        flight_after(b, outs.subrange(0, n)) is Some,
    decreases outs.len() - n,
{
    if n < outs.len() {
        lemma_flight_prefix(b, outs, n + 1);
        assert(outs.subrange(0, n + 1).drop_last() =~= outs.subrange(0, n));
    } else {
        assert(outs.subrange(0, n) =~= outs);
    }
}

} // verus!
