use livesplit_hotkeys::chord::{Chord, Hotkey};
use livesplit_hotkeys::dispatch::{command_text, Command};
use livesplit_hotkeys::listener::HotkeyListener;

fn chord(keys: Vec<u32>, trigger: u32) -> Chord {
    Chord::new(keys, trigger).expect("trigger must be a member")
}

fn flags(entries: &[(&str, bool)]) -> Vec<(String, bool)> {
    entries.iter().map(|(n, b)| (n.to_string(), *b)).collect()
}

#[test]
fn split_press_emits_one_command() {
    let bindings = vec![(Hotkey::SplitKey, chord(vec![57], 57))];
    let mut l = HotkeyListener::new(bindings, &flags(&[]), &None);
    assert_eq!(l.process_event(57, true), vec![Command::StartOrSplit]);
    // A repeated identical transition is deduplicated before any chord logic.
    assert_eq!(l.process_event(57, true), vec![]);
    // The release edge carries no protocol meaning.
    assert_eq!(l.process_event(57, false), vec![]);
    // A fresh press fires again.
    assert_eq!(l.process_event(57, true), vec![Command::StartOrSplit]);
}

#[test]
fn pause_alternates_over_the_pipeline() {
    let bindings = vec![(Hotkey::PauseKey, chord(vec![25], 25))];
    let mut l = HotkeyListener::new(bindings, &flags(&[]), &None);
    let mut sent: Vec<String> = Vec::new();
    for _ in 0..3 {
        for c in l.process_event(25, true) {
            sent.push(command_text(&c));
        }
        assert_eq!(l.process_event(25, false), vec![]);
    }
    assert_eq!(sent, vec!["pause\r\n", "resume\r\n", "pause\r\n"]);
}

#[test]
fn comparison_cycle_starts_at_personal_best_by_default() {
    // Enabled list: Best Segments, Best Split Times, Personal Best; with no
    // last-used comparison recorded, the cycle starts at Personal Best.
    let bindings = vec![
        (Hotkey::SwitchComparisonNext, chord(vec![2], 2)),
        (Hotkey::SwitchComparisonPrevious, chord(vec![3], 3)),
    ];
    let cfg = flags(&[("Best Segments", true), ("Best Split Times", true)]);
    let mut l = HotkeyListener::new(bindings, &cfg, &None);
    // Advancing wraps from the appended Personal Best back to the head.
    assert_eq!(l.process_event(2, true), vec![Command::SetComparison(0)]);
    assert_eq!(l.process_event(2, false), vec![]);
    assert_eq!(l.process_event(2, true), vec![Command::SetComparison(1)]);
}

#[test]
fn comparison_cycle_seeds_from_last_used() {
    let bindings = vec![(Hotkey::SwitchComparisonNext, chord(vec![2], 2))];
    let cfg = flags(&[("Best Segments", true), ("Best Split Times", true)]);
    let last = Some("Best Segments".to_string());
    let mut l = HotkeyListener::new(bindings, &cfg, &last);
    assert_eq!(l.process_event(2, true), vec![Command::SetComparison(1)]);
}

#[test]
fn unknown_key_produces_no_commands() {
    let bindings = vec![(Hotkey::SplitKey, chord(vec![57], 57))];
    let mut l = HotkeyListener::new(bindings, &flags(&[]), &None);
    assert_eq!(l.process_event(99, true), vec![]);
    assert_eq!(l.process_event(99, false), vec![]);
}

#[test]
fn commands_keep_activation_order() {
    let bindings = vec![
        (Hotkey::SplitKey, chord(vec![10], 10)),
        (Hotkey::ResetKey, chord(vec![10, 11], 10)),
    ];
    let mut l = HotkeyListener::new(bindings, &flags(&[]), &None);
    assert_eq!(l.process_event(11, true), vec![]);
    assert_eq!(
        l.process_event(10, true),
        vec![Command::StartOrSplit, Command::Reset]
    );
}
