use chip8::frame::{frame_sleep_micros, timers_due, CYCLES_PER_FRAME, FRAME_DURATION_MICROS, TARGET_FPS};
use chip8::input::{update_keys, HostKey};
use chip8::sound::{beep_update, BeepAction};

#[test]
fn keypad_mapping_sets_bits() {
    let mut keys: u16 = 0xFFFF;
    let quit = update_keys(&[HostKey::Key1, HostKey::V, HostKey::Other], &mut keys);
    assert_eq!(keys, 0x8002);
    // X is keypad key 0.
    update_keys(&[HostKey::X], &mut keys);
    assert_eq!(keys, 0x0001);
    assert!(!quit);
}

#[test]
fn keypad_rows() {
    let rows = [
        (HostKey::Key1, 0x1), (HostKey::Key2, 0x2), (HostKey::Key3, 0x3), (HostKey::Key4, 0xC),
        (HostKey::Q, 0x4), (HostKey::W, 0x5), (HostKey::E, 0x6), (HostKey::R, 0xD),
        (HostKey::A, 0x7), (HostKey::S, 0x8), (HostKey::D, 0x9), (HostKey::F, 0xE),
        (HostKey::Z, 0xA), (HostKey::X, 0x0), (HostKey::C, 0xB), (HostKey::V, 0xF),
    ];
    for (key, bit) in rows {
        let mut keys: u16 = 0;
        update_keys(&[key], &mut keys);
        assert_eq!(keys, 1u16 << bit);
    }
}

#[test]
fn no_keys_clears_keypad() {
    let mut keys: u16 = 0x1234;
    assert!(!update_keys(&[], &mut keys));
    assert_eq!(keys, 0);
}

#[test]
fn escape_or_delete_quits() {
    let mut keys: u16 = 0;
    assert!(update_keys(&[HostKey::Escape], &mut keys));
    assert!(update_keys(&[HostKey::Q, HostKey::Delete], &mut keys));
    assert_eq!(keys, 1 << 4);
    assert!(!update_keys(&[HostKey::Other, HostKey::Key4], &mut keys));
    assert_eq!(keys, 1 << 0xC);
}

#[test]
fn beeper_follows_sound_timer() {
    let mut playing = false;
    assert_eq!(beep_update(&mut playing, 0), BeepAction::Keep);
    assert!(!playing);
    assert_eq!(beep_update(&mut playing, 5), BeepAction::Start);
    assert!(playing);
    assert_eq!(beep_update(&mut playing, 4), BeepAction::Keep);
    assert!(playing);
    assert_eq!(beep_update(&mut playing, 0), BeepAction::Stop);
    assert!(!playing);
}

#[test]
fn frame_pacing() {
    assert_eq!(CYCLES_PER_FRAME, 10);
    assert_eq!(TARGET_FPS, 60);
    assert_eq!(FRAME_DURATION_MICROS, 16666);
    assert!(!timers_due(16666));
    assert!(timers_due(16667));
    assert!(timers_due(1_000_000));
    assert_eq!(frame_sleep_micros(1000), Some(15666));
    assert_eq!(frame_sleep_micros(0), Some(16666));
    assert_eq!(frame_sleep_micros(16665), Some(1));
    assert_eq!(frame_sleep_micros(16666), None);
    assert_eq!(frame_sleep_micros(u128::MAX), None);
}
