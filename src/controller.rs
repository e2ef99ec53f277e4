//! Control surfaces: which controller an input port is, and what each of
//! its raw events asks of the engine or the front-end.
use vstd::prelude::*;
use crate::engine::PlayerCommand;
use crate::speed::ONE;

verus! {

/// A known controller and its local state.
#[derive(Debug)]
pub enum Controller {
    /// Denon DN-SC2000: a shift flag and the pitch-range divisor.
    DNSC2000 { shift: bool, pitch_range_div: u32 },
    /// Akai LPK25 keypad.
    LPK25,
}

/// What a controller event asks of a front-end.
#[derive(Debug)]
pub enum UiAction {
    Enter,
    Back,
    Scroll(i32),
    /// The bend bounds of the new pitch range, in fixed point.
    PitchRange(i64, i64),
}

/// The outcome of one controller event.
#[derive(Debug)]
pub enum MidiAction {
    Player(PlayerCommand),
    Ui(UiAction),
    /// A pressed note that nothing is mapped to.
    Unmapped(u8),
    /// A control change that nothing is mapped to: control and value.
    UnknownControl(u8, u8),
    /// An event of a kind this controller does not know.
    Unrecognized,
    Nothing,
}

/// Speed of the fast-search buttons (4.0).
pub const SKIP_SPEED: i64 = 262144;

/// Bit width of the pitch-range divisor: it runs through 1, 2, ... 32.
pub const PITCH_RANGES: u32 = 6;

/// The divisor a fresh DN-SC2000 starts with.
pub const INITIAL_RANGE_DIV: u32 = 16;

pub open spec fn dnsc2000_tag() -> Seq<u8> {
    seq![68u8, 78u8, 45u8, 83u8, 67u8, 50u8, 48u8, 48u8, 48u8]
}

pub open spec fn lpk25_tag() -> Seq<u8> {
    seq![76u8, 80u8, 75u8, 50u8, 53u8]
}

/// `needle` occurs in `hay` at `k`.
pub open spec fn occurs_at(hay: Seq<u8>, needle: Seq<u8>, k: int) -> bool {
    0 <= k && k + needle.len() <= hay.len() && hay.subrange(k, k + needle.len()) == needle
}

pub open spec fn contains_bytes(hay: Seq<u8>, needle: Seq<u8>) -> bool {
    exists|k: int| occurs_at(hay, needle, k)
}

/// Some alias holds `needle` (aliases compared by their UTF-8 bytes).
pub open spec fn some_alias_has(aliases: Seq<String>, needle: Seq<u8>) -> bool {
    exists|i: int| 0 <= i < aliases.len() && contains_bytes(#[trigger] vstd::utf8::encode_utf8(aliases[i]@), needle)
}

pub open spec fn range_div_ok(d: u32) -> bool {
    d == 1 || d == 2 || d == 4 || d == 8 || d == 16 || d == 32
}

/// The divisor after one press of the pitch-range button: doubled, and
/// back to 1 once it reaches bit `PITCH_RANGES`.
pub open spec fn next_range_div(d: u32) -> u32 {
    if d == 32 { 1 } else { (2 * d) as u32 }
}

pub open spec fn pitch_range_bounds(d: u32) -> UiAction {
    UiAction::PitchRange((ONE - ONE as int / (2 * d as int)) as i64, (ONE + ONE as int / (d as int)) as i64)
}

/// Division rounded up.
pub open spec fn div_up(a: int, b: int) -> int {
    (a + b - 1) / b
}

/// The fader speed of pitch-wheel position `enc` (centred at 0x4000) at
/// range divisor `d`: down to 1 - 0.5/d below the centre, up to 1 + 1/d at
/// 0x7F7F above it. The fixed-point result is rounded away from 1.0, so
/// that 1.0 stands for the centre alone.
pub open spec fn pitch_wheel_speed(enc: int, d: int) -> int {
    if enc < 0x4000 {
        ONE - div_up(2 * (0x4000 - enc), d)
    } else {
        ONE + div_up(ONE * (enc - 0x4000), 0x3F7F * d)
    }
}

/// The scratch velocity (in 64ths) of a jog-wheel value: the wheel never
/// sends 0x40, so values are moved one step toward the centre.
pub open spec fn jog_velocity(value: int) -> int {
    if value < 0x40 { value + 1 - 0x40 } else { value - 1 - 0x40 }
}

impl Controller {
    pub open spec fn wf(&self) -> bool {
        match *self {
            Controller::DNSC2000 { shift, pitch_range_div } => range_div_ok(pitch_range_div),
            Controller::LPK25 => true,
        }
    }
}

/// The LPK25's keys.
pub open spec fn lpk25_note(note: u8, on: bool) -> MidiAction {
    if note == 0x30 { MidiAction::Player(PlayerCommand::HotCue(0, on)) }
    else if note == 0x32 { MidiAction::Player(PlayerCommand::HotCue(1, on)) }
    else if note == 0x34 { MidiAction::Player(PlayerCommand::HotCue(2, on)) }
    else if note == 0x35 { MidiAction::Player(PlayerCommand::HotCue(3, on)) }
    else if note == 0x37 { MidiAction::Player(PlayerCommand::HotCue(4, on)) }
    else if note == 0x39 { MidiAction::Player(PlayerCommand::HotCue(5, on)) }
    else if note == 0x3B { MidiAction::Player(PlayerCommand::HotCue(6, on)) }
    else if note == 0x3D { MidiAction::Player(PlayerCommand::HotCue(7, on)) }
    else if note == 0x3E { MidiAction::Ui(UiAction::Enter) }
    else if note == 0x3F { MidiAction::Player(PlayerCommand::PlayPause) }
    else if on { MidiAction::Unmapped(note) }
    else { MidiAction::Nothing }
}

/// The DN-SC2000's buttons that act on press and release alike.
pub open spec fn dnsc_held_note(note: u8, on: bool) -> Option<MidiAction> {
    if note == 0x0C { Some(MidiAction::Player(PlayerCommand::SpeedDiff(if on { SKIP_SPEED } else { ONE }))) }
    else if note == 0x0D { Some(MidiAction::Player(PlayerCommand::SpeedDiff(if on { (-SKIP_SPEED) as i64 } else { ONE }))) }
    else if note == 0x17 { Some(MidiAction::Player(PlayerCommand::HotCue(0, on))) }
    else if note == 0x18 { Some(MidiAction::Player(PlayerCommand::HotCue(1, on))) }
    else if note == 0x19 { Some(MidiAction::Player(PlayerCommand::HotCue(2, on))) }
    else if note == 0x20 { Some(MidiAction::Player(PlayerCommand::HotCue(3, on))) }
    else if note == 0x21 { Some(MidiAction::Player(PlayerCommand::HotCue(4, on))) }
    else if note == 0x22 { Some(MidiAction::Player(PlayerCommand::HotCue(5, on))) }
    else if note == 0x23 { Some(MidiAction::Player(PlayerCommand::HotCue(6, on))) }
    else if note == 0x24 { Some(MidiAction::Player(PlayerCommand::HotCue(7, on))) }
    else if note == 0x42 { Some(MidiAction::Player(PlayerCommand::Cue(on))) }
    else if note == 0x60 { Some(MidiAction::Nothing) }
    else { None }
}

/// The DN-SC2000's buttons that act on press only (other than the
/// pitch-range button).
pub open spec fn dnsc_pressed_note(note: u8) -> MidiAction {
    if note == 0x10 { MidiAction::Player(PlayerCommand::CueMove(true)) }
    else if note == 0x11 { MidiAction::Player(PlayerCommand::CueMove(false)) }
    else if note == 0x43 { MidiAction::Player(PlayerCommand::PlayPause) }
    else if note == 0x28 { MidiAction::Ui(UiAction::Enter) }
    else if note == 0x30 { MidiAction::Ui(UiAction::Back) }
    else { MidiAction::Unmapped(note) }
}

/// What one event does on the DN-SC2000: the new shift flag and divisor,
/// and the action.
pub open spec fn dnsc_event(shift: bool, div: u32, ev: Seq<u8>) -> (bool, u32, MidiAction) {
    let op = ev[0] / 16;
    if (op == 9 || op == 8) && ev.len() >= 2 {
        let note = ev[1];
        let on = op == 9;
        match dnsc_held_note(note, on) {
            Some(a) => (if note == 0x60 { on } else { shift }, div, a),
            None => if !on {
                (shift, div, MidiAction::Nothing)
            } else if note == 0x6B {
                (shift, next_range_div(div), MidiAction::Ui(pitch_range_bounds(next_range_div(div))))
            } else {
                (shift, div, dnsc_pressed_note(note))
            },
        }
    } else if op == 0xB && ev.len() >= 3 {
        let control = ev[1];
        let value = ev[2];
        if control == 0x51 {
            if value < 0x80 {
                (shift, div, MidiAction::Player(PlayerCommand::Scratch(jog_velocity(value as int) as i64)))
            } else {
                (shift, div, MidiAction::Nothing)
            }
        } else if control == 0x54 {
            (shift, div, MidiAction::Ui(UiAction::Scroll(if value % 2 == 1 { -1i32 } else { 1i32 })))
        } else {
            (shift, div, MidiAction::UnknownControl(control, value))
        }
    } else if op == 0xE && ev.len() == 3 {
        let enc = ev[2] * 256 + ev[1];
        (shift, div, MidiAction::Player(PlayerCommand::Speed(pitch_wheel_speed(enc, div as int) as i64)))
    } else {
        (shift, div, MidiAction::Nothing)
    }
}

/// What one event does on the LPK25.
pub open spec fn lpk25_event(ev: Seq<u8>) -> MidiAction {
    let op = ev[0] / 16;
    if (op == 9 || op == 8) && ev.len() >= 2 {
        lpk25_note(ev[1], op == 9)
    } else {
        MidiAction::Unrecognized
    }
}

fn tag_bytes(dnsc: bool) -> (r: Vec<u8>)
    ensures
        r@ == if dnsc { dnsc2000_tag() } else { lpk25_tag() },
{
    if dnsc {
        let r: Vec<u8> = vec![68u8, 78, 45, 83, 67, 50, 48, 48, 48];
        assert(r@ =~= dnsc2000_tag());
        r
    } else {
        let r: Vec<u8> = vec![76u8, 80, 75, 50, 53];
        assert(r@ =~= lpk25_tag());
        r
    }
}

/// Whether `needle` occurs in `hay`.
pub fn find_bytes(hay: &[u8], needle: &Vec<u8>) -> (r: bool)
    ensures
        r == contains_bytes(hay@, needle@),
{
    if needle.len() > hay.len() {
        assert forall|k: int| !occurs_at(hay@, needle@, k) by {}
        return false;
    }
    if needle.len() == 0 {
        assert(hay@.subrange(0, 0) =~= needle@);
        assert(occurs_at(hay@, needle@, 0));
        return true;
    }
    let mut k: usize = 0;
    let n: usize = hay.len();
    let last: usize = n - needle.len();
    while k <= last
        invariant
            0 < needle@.len() <= hay@.len(),
            n == hay@.len(),
            last == hay@.len() - needle@.len(),
            k <= last + 1,
            forall|j: int| 0 <= j < k ==> !occurs_at(hay@, needle@, j),
        decreases hay@.len() - k,
    {
        let mut m: usize = 0;
        let mut same = true;
        while m < needle.len()
            invariant
                k + needle@.len() <= hay@.len(),
                k <= last,
                0 < needle@.len(),
                n == hay@.len(),
                last == hay@.len() - needle@.len(),
                m <= needle@.len(),
                same == (forall|t: int| 0 <= t < m ==> hay@[k + t] == needle@[t]),
            decreases needle@.len() - m,
        {
            if hay[k + m] != needle[m] {
                same = false;
            }
            m = m + 1;
        }
        if same {
            assert(hay@.subrange(k as int, k + needle@.len()) =~= needle@);
            assert(occurs_at(hay@, needle@, k as int));
            return true;
        }
        assert(!occurs_at(hay@, needle@, k as int)) by {
            if occurs_at(hay@, needle@, k as int) {
                let t = choose|t: int| 0 <= t < needle@.len() && hay@[k + t] != needle@[t];
                assert(hay@.subrange(k as int, k + needle@.len())[t] == hay@[k + t]);
            }
        }
        k = k + 1;
    }
    assert forall|j: int| !occurs_at(hay@, needle@, j) by {
        if occurs_at(hay@, needle@, j) {
            assert(j < k);
        }
    }
    false
}

fn any_alias_has(aliases: &Vec<String>, needle: &Vec<u8>) -> (r: bool)
    ensures
        r == some_alias_has(aliases@, needle@),
{
    let mut i: usize = 0;
    while i < aliases.len()
        invariant
            i <= aliases@.len(),
            forall|j: int| 0 <= j < i ==> !contains_bytes(#[trigger] vstd::utf8::encode_utf8(aliases@[j]@), needle@),
        decreases aliases@.len() - i,
    {
        let s: &str = aliases[i].as_str();
        if find_bytes(s.as_bytes(), needle) {
            return true;
        }
        i = i + 1;
    }
    false
}

impl Controller {
    /// The controller whose aliases name a known model, if any.
    pub fn new(aliases: Vec<String>) -> (r: Option<Controller>)
        ensures
            some_alias_has(aliases@, dnsc2000_tag()) ==> r == Some(
                Controller::DNSC2000 { shift: false, pitch_range_div: INITIAL_RANGE_DIV },
            ),
            !some_alias_has(aliases@, dnsc2000_tag()) && some_alias_has(aliases@, lpk25_tag())
                ==> r == Some(Controller::LPK25),
            !some_alias_has(aliases@, dnsc2000_tag()) && !some_alias_has(aliases@, lpk25_tag())
                ==> r is None,
            r matches Some(c) ==> c.wf(),
    {
        let dn = tag_bytes(true);
        if any_alias_has(&aliases, &dn) {
            return Some(Controller::DNSC2000 { shift: false, pitch_range_div: INITIAL_RANGE_DIV });
        }
        let lpk = tag_bytes(false);
        if any_alias_has(&aliases, &lpk) {
            return Some(Controller::LPK25);
        }
        None
    }
}

fn lpk25_note_exec(note: u8, on: bool) -> (r: MidiAction)
    ensures
        r == lpk25_note(note, on),
{
    if note == 0x30 { MidiAction::Player(PlayerCommand::HotCue(0, on)) }
    else if note == 0x32 { MidiAction::Player(PlayerCommand::HotCue(1, on)) }
    else if note == 0x34 { MidiAction::Player(PlayerCommand::HotCue(2, on)) }
    else if note == 0x35 { MidiAction::Player(PlayerCommand::HotCue(3, on)) }
    else if note == 0x37 { MidiAction::Player(PlayerCommand::HotCue(4, on)) }
    else if note == 0x39 { MidiAction::Player(PlayerCommand::HotCue(5, on)) }
    else if note == 0x3B { MidiAction::Player(PlayerCommand::HotCue(6, on)) }
    else if note == 0x3D { MidiAction::Player(PlayerCommand::HotCue(7, on)) }
    else if note == 0x3E { MidiAction::Ui(UiAction::Enter) }
    else if note == 0x3F { MidiAction::Player(PlayerCommand::PlayPause) }
    else if on { MidiAction::Unmapped(note) }
    else { MidiAction::Nothing }
}

fn dnsc_held_note_exec(note: u8, on: bool) -> (r: Option<MidiAction>)
    ensures
        r == dnsc_held_note(note, on),
{
    if note == 0x0C { Some(MidiAction::Player(PlayerCommand::SpeedDiff(if on { SKIP_SPEED } else { ONE }))) }
    else if note == 0x0D { Some(MidiAction::Player(PlayerCommand::SpeedDiff(if on { -SKIP_SPEED } else { ONE }))) }
    else if note == 0x17 { Some(MidiAction::Player(PlayerCommand::HotCue(0, on))) }
    else if note == 0x18 { Some(MidiAction::Player(PlayerCommand::HotCue(1, on))) }
    else if note == 0x19 { Some(MidiAction::Player(PlayerCommand::HotCue(2, on))) }
    else if note == 0x20 { Some(MidiAction::Player(PlayerCommand::HotCue(3, on))) }
    else if note == 0x21 { Some(MidiAction::Player(PlayerCommand::HotCue(4, on))) }
    else if note == 0x22 { Some(MidiAction::Player(PlayerCommand::HotCue(5, on))) }
    else if note == 0x23 { Some(MidiAction::Player(PlayerCommand::HotCue(6, on))) }
    else if note == 0x24 { Some(MidiAction::Player(PlayerCommand::HotCue(7, on))) }
    else if note == 0x42 { Some(MidiAction::Player(PlayerCommand::Cue(on))) }
    else if note == 0x60 { Some(MidiAction::Nothing) }
    else { None }
}

fn dnsc_pressed_note_exec(note: u8) -> (r: MidiAction)
    ensures
        r == dnsc_pressed_note(note),
{
    if note == 0x10 { MidiAction::Player(PlayerCommand::CueMove(true)) }
    else if note == 0x11 { MidiAction::Player(PlayerCommand::CueMove(false)) }
    else if note == 0x43 { MidiAction::Player(PlayerCommand::PlayPause) }
    else if note == 0x28 { MidiAction::Ui(UiAction::Enter) }
    else if note == 0x30 { MidiAction::Ui(UiAction::Back) }
    else { MidiAction::Unmapped(note) }
}

/// The divisor after one press of the pitch-range button.
pub fn cycle_range_div(d: u32) -> (r: u32)
    requires
        range_div_ok(d),
    ensures
        r == next_range_div(d),
        range_div_ok(r),
{
    let n = d * 2;
    if n == 64 { 1 } else { n }
}

/// The bend bounds that a pitch range allows.
pub fn range_bounds(d: u32) -> (r: UiAction)
    requires
        range_div_ok(d),
    ensures
        r == pitch_range_bounds(d),
{
    UiAction::PitchRange(ONE - ONE / (2 * d as i64), ONE + ONE / (d as i64))
}

/// The fader speed of a pitch-wheel position.
pub fn wheel_speed(enc: u32, d: u32) -> (r: i64)
    requires
        enc <= 0xFFFF,
        range_div_ok(d),
    ensures
        r == pitch_wheel_speed(enc as int, d as int),
        crate::speed::factor_ok(r),
        r == ONE <==> enc == 0x4000,
        r < ONE <==> enc < 0x4000,
        // 0x8000 is ONE / 2: at least 1 - 0.5 / d
        ONE - 0x8000int / (d as int) <= r,
        enc <= 0x7F7F ==> r <= ONE + ONE as int / (d as int),
{
    assert(0x8000int % (d as int) == 0 && ONE as int % (d as int) == 0);
    if enc < 0x4000 {
        let a: i64 = 2 * (0x4000 - enc) as i64;
        let q: i64 = (a + d as i64 - 1) / (d as i64);
        assert(1 <= q <= 0x8000int / (d as int)) by (nonlinear_arith)
            requires q == (a + d - 1) / (d as int), 2 <= a <= 0x8000, d >= 1, 0x8000int % (d as int) == 0;
        ONE - q
    } else {
        assert(ONE * (enc - 0x4000) <= ONE * 0xBFFF) by (nonlinear_arith)
            requires enc <= 0xFFFF, enc >= 0x4000;
        let a: i64 = ONE * (enc - 0x4000) as i64;
        let b: i64 = 0x3F7F * d as i64;
        let q: i64 = (a + b - 1) / b;
        assert(q <= ONE * 0xBFFF / 0x3F7F + 1) by (nonlinear_arith)
            requires q == (a + b - 1) / (b as int), b == 0x3F7F * d, d >= 1, 0 <= a <= ONE * 0xBFFF;
        assert(enc == 0x4000 <==> q == 0) by (nonlinear_arith)
            requires q == (a + b - 1) / (b as int), b >= 0x3F7F, a == ONE * (enc - 0x4000), enc >= 0x4000;
        assert(enc <= 0x7F7F ==> q <= ONE as int / (d as int)) by (nonlinear_arith)
            requires q == (a + b - 1) / (b as int), b == 0x3F7F * d, d >= 1, a == ONE * (enc - 0x4000), enc >= 0x4000,
                ONE as int % (d as int) == 0;
        ONE + q
    }
}

impl Controller {
    /// What one raw event (status byte, then data bytes) asks for. A
    /// DN-SC2000 also keeps its shift flag and cycles its pitch range.
    pub fn handle_midi(&mut self, bytes: &[u8]) -> (r: MidiAction)
        requires
            old(self).wf(),
            bytes@.len() >= 1,
        ensures
            final(self).wf(),
            r matches MidiAction::Player(c) ==> crate::engine::command_ok(c),
            match *old(self) {
                Controller::LPK25 => *final(self) == Controller::LPK25 && r == lpk25_event(bytes@),
                Controller::DNSC2000 { shift, pitch_range_div } => {
                    let (s2, d2, a) = dnsc_event(shift, pitch_range_div, bytes@);
                    *final(self) == (Controller::DNSC2000 { shift: s2, pitch_range_div: d2 }) && r == a
                },
            },
    {
        let op = bytes[0] / 16;
        match *self {
            Controller::LPK25 => {
                if (op == 9 || op == 8) && bytes.len() >= 2 {
                    lpk25_note_exec(bytes[1], op == 9)
                } else {
                    MidiAction::Unrecognized
                }
            },
            Controller::DNSC2000 { shift, pitch_range_div } => {
                let div = pitch_range_div;
                if (op == 9 || op == 8) && bytes.len() >= 2 {
                    let note = bytes[1];
                    let on = op == 9;
                    match dnsc_held_note_exec(note, on) {
                        Some(a) => {
                            if note == 0x60 {
                                *self = Controller::DNSC2000 { shift: on, pitch_range_div: div };
                            }
                            a
                        },
                        None => {
                            if !on {
                                MidiAction::Nothing
                            } else if note == 0x6B {
                                let nd = cycle_range_div(div);
                                *self = Controller::DNSC2000 { shift, pitch_range_div: nd };
                                MidiAction::Ui(range_bounds(nd))
                            } else {
                                dnsc_pressed_note_exec(note)
                            }
                        },
                    }
                } else if op == 0xB && bytes.len() >= 3 {
                    let control = bytes[1];
                    let value = bytes[2];
                    if control == 0x51 {
                        if value < 0x80 {
                            let v: i64 = if value < 0x40 { value as i64 + 1 - 0x40 } else { value as i64 - 1 - 0x40 };
                            MidiAction::Player(PlayerCommand::Scratch(v))
                        } else {
                            MidiAction::Nothing
                        }
                    } else if control == 0x54 {
                        MidiAction::Ui(UiAction::Scroll(if value % 2 == 1 { -1 } else { 1 }))
                    } else {
                        MidiAction::UnknownControl(control, value)
                    }
                } else if op == 0xE && bytes.len() == 3 {
                    let enc: u32 = bytes[2] as u32 * 256 + bytes[1] as u32;
                    MidiAction::Player(PlayerCommand::Speed(wheel_speed(enc, div)))
                } else {
                    MidiAction::Nothing
                }
            },
        }
    }
}

/// The pitch-range button cycles through six divisors: six presses bring
/// any divisor back.
pub proof fn lemma_pitch_range_cycle(d: u32)
    requires
        range_div_ok(d),
    ensures
        next_range_div(next_range_div(next_range_div(next_range_div(next_range_div(next_range_div(d))))))
            == d,
{
}

/// The pitch wheel keeps its centre: 1.0 comes from the centre alone,
/// lower positions slow down to 1 - 0.5/d at most, and higher positions up
/// to 0x7F7F speed up to 1 + 1/d at most.
pub proof fn lemma_pitch_wheel_centre(enc: int, d: u32)
    requires
        0 <= enc <= 0xFFFF,
        range_div_ok(d),
    ensures
        pitch_wheel_speed(enc, d as int) == ONE <==> enc == 0x4000,
        pitch_wheel_speed(enc, d as int) < ONE <==> enc < 0x4000,
        ONE - 0x8000int / (d as int) <= pitch_wheel_speed(enc, d as int),
        enc <= 0x7F7F ==> pitch_wheel_speed(enc, d as int) <= ONE + ONE as int / (d as int),
{
    assert(0x8000int % (d as int) == 0 && ONE as int % (d as int) == 0);
    if enc < 0x4000 {
        let a = 2 * (0x4000 - enc);
        let q = div_up(a, d as int);
        assert(1 <= q <= 0x8000int / (d as int)) by (nonlinear_arith)
            requires q == (a + d - 1) / (d as int), 2 <= a <= 0x8000, d >= 1, 0x8000int % (d as int) == 0;
    } else {
        let a = ONE * (enc - 0x4000);
        let b = 0x3F7F * d as int;
        let q = div_up(a, b);
        assert(enc == 0x4000 <==> q == 0) by (nonlinear_arith)
            requires q == (a + b - 1) / b, b >= 0x3F7F, a == ONE * (enc - 0x4000), enc >= 0x4000;
        assert(q >= 0) by (nonlinear_arith)
            requires q == (a + b - 1) / b, b >= 0x3F7F, a >= 0;
        assert(enc <= 0x7F7F ==> q <= ONE as int / (d as int)) by (nonlinear_arith)
            requires q == (a + b - 1) / b, b == 0x3F7F * d, d >= 1, a == ONE * (enc - 0x4000), enc >= 0x4000,
                ONE as int % (d as int) == 0;
    }
}

} // verus!
