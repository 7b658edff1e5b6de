use livesplit_hotkeys::chord::{Chord, Hotkey, KeyState};

fn chord(keys: Vec<u32>, trigger: u32) -> Chord {
    Chord::new(keys, trigger).expect("trigger must be a member")
}

#[test]
fn chord_requires_trigger_membership() {
    assert!(Chord::new(vec![1, 2], 3).is_none());
    assert!(Chord::new(vec![], 1).is_none());
    assert!(Chord::new(vec![1, 2], 2).is_some());
}

#[test]
fn edge_triggered_activation() {
    // Chord {30, 48} with trigger 48.
    let mut ks = KeyState::new(vec![(Hotkey::SplitKey, chord(vec![30, 48], 48))]);
    // Pressing the non-trigger key alone fires nothing.
    assert_eq!(ks.handle_key(30, true), vec![]);
    // Pressing the trigger while the rest is held activates once.
    assert_eq!(ks.handle_key(48, true), vec![(Hotkey::SplitKey, true)]);
    // An unrelated key while the chord stays held does not re-activate.
    assert_eq!(ks.handle_key(99, true), vec![]);
    // Releasing a chord member deactivates.
    assert_eq!(ks.handle_key(30, false), vec![(Hotkey::SplitKey, false)]);
    // Re-pressing the non-trigger key does not re-activate: the edge is on
    // the trigger.
    assert_eq!(ks.handle_key(30, true), vec![]);
}

#[test]
fn trigger_press_while_active_does_not_refire() {
    let mut ks = KeyState::new(vec![(Hotkey::ResetKey, chord(vec![30, 48], 48))]);
    assert_eq!(ks.handle_key(30, true), vec![]);
    assert_eq!(ks.handle_key(48, true), vec![(Hotkey::ResetKey, true)]);
    // A second trigger press while the binding is active fires nothing.
    assert_eq!(ks.handle_key(48, true), vec![]);
}

#[test]
fn single_key_chord_degenerates_to_plain_binding() {
    let mut ks = KeyState::new(vec![(Hotkey::UndoKey, chord(vec![57], 57))]);
    assert_eq!(ks.handle_key(57, true), vec![(Hotkey::UndoKey, true)]);
    assert_eq!(ks.handle_key(57, false), vec![(Hotkey::UndoKey, false)]);
    assert_eq!(ks.handle_key(57, true), vec![(Hotkey::UndoKey, true)]);
}

#[test]
fn alternative_chords_activate_binding_once() {
    let mut ks = KeyState::new(vec![
        (Hotkey::SkipKey, chord(vec![1, 2], 2)),
        (Hotkey::SkipKey, chord(vec![1, 3], 3)),
    ]);
    assert_eq!(ks.handle_key(1, true), vec![]);
    assert_eq!(ks.handle_key(2, true), vec![(Hotkey::SkipKey, true)]);
    // The second alternative becoming satisfied must not fire the binding
    // again: activation is tracked per binding.
    assert_eq!(ks.handle_key(3, true), vec![]);
    // Releasing a key of the satisfied chord deactivates the binding once.
    assert_eq!(ks.handle_key(2, false), vec![(Hotkey::SkipKey, false)]);
}

#[test]
fn unknown_key_is_a_noop() {
    let mut ks = KeyState::new(vec![
        (Hotkey::SplitKey, chord(vec![30, 48], 48)),
        (Hotkey::PauseKey, chord(vec![25], 25)),
    ]);
    assert_eq!(ks.handle_key(77, true), vec![]);
    assert_eq!(ks.handle_key(77, false), vec![]);
    // The unknown key did not disturb the machine: the chord still works.
    assert_eq!(ks.handle_key(30, true), vec![]);
    assert_eq!(ks.handle_key(48, true), vec![(Hotkey::SplitKey, true)]);
}

#[test]
fn two_bindings_fire_in_configuration_order() {
    let mut ks = KeyState::new(vec![
        (Hotkey::SplitKey, chord(vec![10], 10)),
        (Hotkey::ResetKey, chord(vec![10, 11], 10)),
    ]);
    assert_eq!(ks.handle_key(11, true), vec![]);
    assert_eq!(
        ks.handle_key(10, true),
        vec![(Hotkey::SplitKey, true), (Hotkey::ResetKey, true)]
    );
    assert_eq!(
        ks.handle_key(10, false),
        vec![(Hotkey::SplitKey, false), (Hotkey::ResetKey, false)]
    );
}
