use rustydj::controller::{cycle_range_div, wheel_speed, Controller, MidiAction, UiAction};
use rustydj::engine::PlayerCommand;
use rustydj::speed::ONE;
use rustydj::ui::{scroll_index, UIType};

fn dnsc() -> Controller {
    Controller::new(vec!["system:midi_capture_1".to_string(), "DN-SC2000 MIDI 1".to_string()]).unwrap()
}

fn range_div(c: &Controller) -> u32 {
    match c {
        Controller::DNSC2000 { pitch_range_div, .. } => *pitch_range_div,
        Controller::LPK25 => panic!("not a DN-SC2000"),
    }
}

#[test]
fn controller_chosen_by_alias() {
    assert!(matches!(dnsc(), Controller::DNSC2000 { shift: false, pitch_range_div: 16 }));
    assert!(matches!(Controller::new(vec!["LPK25 MIDI".to_string()]), Some(Controller::LPK25)));
    assert!(matches!(
        Controller::new(vec!["LPK25".to_string(), "x DN-SC2000".to_string()]),
        Some(Controller::DNSC2000 { .. })
    ));
    assert!(Controller::new(vec!["Keystation".to_string()]).is_none());
    assert!(Controller::new(vec![]).is_none());
    assert!(Controller::new(vec!["DN-SC200".to_string()]).is_none());
}

#[test]
fn pitch_range_cycle_wraps_after_six() {
    let mut c = dnsc();
    let start = range_div(&c);
    let mut seen = Vec::new();
    for _ in 0..6 {
        let a = c.handle_midi(&[0x90, 0x6B, 0x7F]);
        assert!(matches!(a, MidiAction::Ui(UiAction::PitchRange(_, _))));
        seen.push(range_div(&c));
    }
    assert_eq!(seen, vec![32, 1, 2, 4, 8, 16]);
    assert_eq!(range_div(&c), start);
    // a seventh press moves on to the next range
    c.handle_midi(&[0x90, 0x6B, 0x7F]);
    assert_eq!(range_div(&c), 32);
    assert_eq!(cycle_range_div(32), 1);
}

#[test]
fn pitch_range_reports_bounds() {
    let mut c = dnsc();
    match c.handle_midi(&[0x90, 0x6B, 0x7F]) {
        MidiAction::Ui(UiAction::PitchRange(lo, hi)) => {
            assert_eq!(lo, ONE - ONE / 64);
            assert_eq!(hi, ONE + ONE / 32);
        }
        other => panic!("unexpected {:?}", other),
    }
    // release of the button does nothing
    assert!(matches!(c.handle_midi(&[0x80, 0x6B, 0x00]), MidiAction::Nothing));
    assert_eq!(range_div(&c), 32);
}

#[test]
fn pitch_wheel_maps_to_speed() {
    let mut c = dnsc();
    assert!(matches!(c.handle_midi(&[0xE0, 0x00, 0x40]), MidiAction::Player(PlayerCommand::Speed(s)) if s == ONE));
    // full down at divisor 16 is 1 - 0.5 / 16
    assert!(matches!(c.handle_midi(&[0xE0, 0x00, 0x00]), MidiAction::Player(PlayerCommand::Speed(63488))));
    // full up at divisor 16 is 1 + 1 / 16
    assert!(matches!(c.handle_midi(&[0xE0, 0x7F, 0x7F]), MidiAction::Player(PlayerCommand::Speed(s)) if s == ONE + ONE / 16));
    assert_eq!(wheel_speed(0x2000, 1), ONE - ONE / 4);
    // rounded away from 1.0: only the centre gives exactly 1.0
    assert!(wheel_speed(0x4001, 32) > ONE);
    assert!(wheel_speed(0x3FFF, 32) < ONE);
    assert_eq!(wheel_speed(0x4000, 32), ONE);
    assert_eq!(wheel_speed(0x7F7F, 32), ONE + ONE / 32);
    assert!(matches!(c.handle_midi(&[0xE0, 0x00]), MidiAction::Nothing));
}

#[test]
fn jog_wheel_maps_to_scratch() {
    let mut c = dnsc();
    assert!(matches!(c.handle_midi(&[0xB0, 0x51, 0x3F]), MidiAction::Player(PlayerCommand::Scratch(0))));
    assert!(matches!(c.handle_midi(&[0xB0, 0x51, 0x41]), MidiAction::Player(PlayerCommand::Scratch(0))));
    assert!(matches!(c.handle_midi(&[0xB0, 0x51, 0x00]), MidiAction::Player(PlayerCommand::Scratch(-63))));
    assert!(matches!(c.handle_midi(&[0xB0, 0x51, 0x7F]), MidiAction::Player(PlayerCommand::Scratch(62))));
    assert!(matches!(c.handle_midi(&[0xB0, 0x54, 0x01]), MidiAction::Ui(UiAction::Scroll(-1))));
    assert!(matches!(c.handle_midi(&[0xB0, 0x54, 0x02]), MidiAction::Ui(UiAction::Scroll(1))));
    assert!(matches!(c.handle_midi(&[0xB0, 0x10, 0x02]), MidiAction::UnknownControl(0x10, 0x02)));
}

#[test]
fn dnsc_buttons() {
    let mut c = dnsc();
    assert!(matches!(c.handle_midi(&[0x90, 0x17, 0x7F]), MidiAction::Player(PlayerCommand::HotCue(0, true))));
    assert!(matches!(c.handle_midi(&[0x80, 0x24, 0x00]), MidiAction::Player(PlayerCommand::HotCue(7, false))));
    assert!(matches!(c.handle_midi(&[0x90, 0x42, 0x7F]), MidiAction::Player(PlayerCommand::Cue(true))));
    assert!(matches!(c.handle_midi(&[0x90, 0x0C, 0x7F]), MidiAction::Player(PlayerCommand::SpeedDiff(s)) if s == 4 * ONE));
    assert!(matches!(c.handle_midi(&[0x90, 0x0D, 0x7F]), MidiAction::Player(PlayerCommand::SpeedDiff(s)) if s == -4 * ONE));
    assert!(matches!(c.handle_midi(&[0x80, 0x0D, 0x00]), MidiAction::Player(PlayerCommand::SpeedDiff(s)) if s == ONE));
    assert!(matches!(c.handle_midi(&[0x90, 0x10, 0x7F]), MidiAction::Player(PlayerCommand::CueMove(true))));
    assert!(matches!(c.handle_midi(&[0x90, 0x11, 0x7F]), MidiAction::Player(PlayerCommand::CueMove(false))));
    assert!(matches!(c.handle_midi(&[0x90, 0x43, 0x7F]), MidiAction::Player(PlayerCommand::PlayPause)));
    assert!(matches!(c.handle_midi(&[0x80, 0x43, 0x00]), MidiAction::Nothing));
    assert!(matches!(c.handle_midi(&[0x90, 0x28, 0x7F]), MidiAction::Ui(UiAction::Enter)));
    assert!(matches!(c.handle_midi(&[0x90, 0x30, 0x7F]), MidiAction::Ui(UiAction::Back)));
    assert!(matches!(c.handle_midi(&[0x90, 0x55, 0x7F]), MidiAction::Unmapped(0x55)));
    assert!(matches!(c.handle_midi(&[0x90, 0x60, 0x7F]), MidiAction::Nothing));
    assert!(matches!(c, Controller::DNSC2000 { shift: true, .. }));
    c.handle_midi(&[0x80, 0x60, 0x00]);
    assert!(matches!(c, Controller::DNSC2000 { shift: false, .. }));
    assert!(matches!(c.handle_midi(&[0xF0, 0x01, 0x02]), MidiAction::Nothing));
}

#[test]
fn lpk25_keys() {
    let mut c = Controller::LPK25;
    assert!(matches!(c.handle_midi(&[0x90, 0x30, 0x40]), MidiAction::Player(PlayerCommand::HotCue(0, true))));
    assert!(matches!(c.handle_midi(&[0x80, 0x3D, 0x00]), MidiAction::Player(PlayerCommand::HotCue(7, false))));
    assert!(matches!(c.handle_midi(&[0x90, 0x3F, 0x40]), MidiAction::Player(PlayerCommand::PlayPause)));
    assert!(matches!(c.handle_midi(&[0x80, 0x3F, 0x00]), MidiAction::Player(PlayerCommand::PlayPause)));
    assert!(matches!(c.handle_midi(&[0x90, 0x3E, 0x40]), MidiAction::Ui(UiAction::Enter)));
    assert!(matches!(c.handle_midi(&[0x90, 0x31, 0x40]), MidiAction::Unmapped(0x31)));
    assert!(matches!(c.handle_midi(&[0x80, 0x31, 0x00]), MidiAction::Nothing));
    assert!(matches!(c.handle_midi(&[0xB0, 0x01, 0x00]), MidiAction::Unrecognized));
}

#[test]
fn ui_type_from_argument() {
    assert_eq!(UIType::from_arg("ws"), Some(UIType::WS));
    assert_eq!(UIType::from_arg("tui"), Some(UIType::Tui));
    assert_eq!(UIType::from_arg("simple"), Some(UIType::Simple));
    assert_eq!(UIType::from_arg("gui"), None);
}

#[test]
fn scroll_wraps() {
    assert_eq!(scroll_index(5, 0, -1), 4);
    assert_eq!(scroll_index(5, 4, 1), 0);
    assert_eq!(scroll_index(5, 2, 1), 3);
    assert_eq!(scroll_index(5, 2, -12), 0);
    assert_eq!(scroll_index(3, 1, 7), 2);
}
