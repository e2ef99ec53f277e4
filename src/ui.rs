//! The vocabulary between the engine, the catalogue and the front-ends.
use vstd::prelude::*;
use crate::engine::{PlayerCommand, PlayerStatus};
use crate::library::{LibraryCommand, LibraryResponse};

verus! {

/// The front-ends.
#[derive(Clone, Copy, Debug, PartialEq, Eq, Structural)]
pub enum UIType {
    Simple,
    Tui,
    WS,
}

/// What reaches a front-end: controller events, engine status and
/// catalogue answers.
#[derive(Debug)]
pub enum UICommand {
    Enter,
    Back,
    Scroll(i32),
    Quit,
    /// Bend bounds of the pitch range, in fixed point.
    PitchRange(i64, i64),
    Print(String),
    ForwardStatus(PlayerStatus),
    ForwardLibrary(LibraryResponse),
}

/// What a remote front-end sends back.
#[derive(Debug)]
pub enum UIBackCommand {
    ForwardLibraryCommand(LibraryCommand),
    ForwardPlayerCommand(PlayerCommand),
    SetupMIDI(String),
    MIDI(String, [u8; 3]),
}

fn str_is(a: &str, b: &str) -> (r: bool)
    ensures
        r == (a@ == b@),
{
    let a_owned = a.to_string();
    let b_owned = b.to_string();
    proof {
        vstd::string::to_string_from_display_ensures_for_str(a, a_owned);
        vstd::string::to_string_from_display_ensures_for_str(b, b_owned);
    }
    a_owned == b_owned
}

impl UIType {
    /// The front-end that a command-line word names.
    pub fn from_arg(s: &str) -> (r: Option<UIType>)
        ensures
            s@ == "ws"@ ==> r == Some(UIType::WS),
            s@ == "tui"@ ==> r == Some(UIType::Tui),
            s@ == "simple"@ ==> r == Some(UIType::Simple),
            s@ != "ws"@ && s@ != "tui"@ && s@ != "simple"@ ==> r is None,
    {
        proof {
            reveal_strlit("ws");
            reveal_strlit("tui");
            reveal_strlit("simple");
            assert("ws"@[0] != "tui"@[0] && "ws"@[0] != "simple"@[0] && "tui"@[0] != "simple"@[0]);
        }
        if str_is(s, "ws") {
            Some(UIType::WS)
        } else if str_is(s, "tui") {
            Some(UIType::Tui)
        } else if str_is(s, "simple") {
            Some(UIType::Simple)
        } else {
            None
        }
    }
}

/// The selection after scrolling `step` entries from `index` in a list of
/// `len`, wrapping around at both ends.
pub fn scroll_index(len: usize, index: usize, step: i32) -> (r: usize)
    requires
        len > 0,
        index < len,
        len <= i32::MAX,
    ensures
        r < len,
        r as int == (index + step as int) % (len as int),
{
    let l = len as u64;
    let up: u64 = if step >= 0 {
        (step as u64) % l
    } else {
        let a = ((0 - step as i64) as u64) % l;
        (l - a) % l
    };
    let r = (index as u64 + up) % l;
    proof {
        let x = index + step as int;
        let n = len as int;
        if step >= 0 {
            vstd::arithmetic::div_mod::lemma_add_mod_noop_right(index as int, step as int, n);
        } else {
            let a = (-step as int) % n;
            vstd::arithmetic::div_mod::lemma_add_mod_noop_right(index as int, n - a, n);
            vstd::arithmetic::div_mod::lemma_fundamental_div_mod(-step as int, n);
            let q = (-step as int) / n;
            assert(index + n - a == n * (q + 1) + x) by (nonlinear_arith)
                requires -step == n * q + a, x == index + step;
            vstd::arithmetic::div_mod::lemma_mod_multiples_vanish(q + 1, x, n);
        }
    }
    r as usize
}

} // verus!
