use livesplit_hotkeys::chord::Hotkey;
use livesplit_hotkeys::dispatch::{
    command_text, comparison_name, enabled_comparisons, initial_comparison_index, Command,
    Dispatcher,
};

fn flags(entries: &[(&str, bool)]) -> Vec<(String, bool)> {
    entries.iter().map(|(n, b)| (n.to_string(), *b)).collect()
}

#[test]
fn fixed_command_texts() {
    assert_eq!(command_text(&Command::StartOrSplit), "startorsplit\r\n");
    assert_eq!(command_text(&Command::Reset), "reset\r\n");
    assert_eq!(command_text(&Command::SkipSplit), "skipsplit\r\n");
    assert_eq!(command_text(&Command::Unsplit), "unsplit\r\n");
    assert_eq!(command_text(&Command::Pause), "pause\r\n");
    assert_eq!(command_text(&Command::Resume), "resume\r\n");
}

#[test]
fn set_comparison_texts() {
    assert_eq!(
        command_text(&Command::SetComparison(0)),
        "setcomparison Best Segments\r\n"
    );
    assert_eq!(
        command_text(&Command::SetComparison(5)),
        "setcomparison Balanced PB\r\n"
    );
    assert_eq!(
        command_text(&Command::SetComparison(7)),
        "setcomparison Personal Best\r\n"
    );
}

#[test]
fn catalog_names() {
    assert_eq!(comparison_name(0), "Best Segments");
    assert_eq!(comparison_name(1), "Best Split Times");
    assert_eq!(comparison_name(2), "Average Segments");
    assert_eq!(comparison_name(3), "Median Segments");
    assert_eq!(comparison_name(4), "Worst Segments");
    assert_eq!(comparison_name(5), "Balanced PB");
    assert_eq!(comparison_name(6), "Latest Run");
    assert_eq!(comparison_name(7), "Personal Best");
}

#[test]
fn fixed_hotkeys_map_to_fixed_commands() {
    let mut d = Dispatcher::new(vec![7], 0);
    assert_eq!(d.dispatch(Hotkey::SplitKey), Some(Command::StartOrSplit));
    assert_eq!(d.dispatch(Hotkey::ResetKey), Some(Command::Reset));
    assert_eq!(d.dispatch(Hotkey::SkipKey), Some(Command::SkipSplit));
    assert_eq!(d.dispatch(Hotkey::UndoKey), Some(Command::Unsplit));
}

#[test]
fn unrecognized_binding_emits_nothing() {
    let mut d = Dispatcher::new(vec![7], 0);
    assert_eq!(d.dispatch(Hotkey::ToggleGlobalHotkeys), None);
}

#[test]
fn pause_toggles() {
    let mut d = Dispatcher::new(vec![7], 0);
    assert_eq!(d.dispatch(Hotkey::PauseKey), Some(Command::Pause));
    assert_eq!(d.dispatch(Hotkey::PauseKey), Some(Command::Resume));
    assert_eq!(d.dispatch(Hotkey::PauseKey), Some(Command::Pause));
}

#[test]
fn pause_toggles_regardless_of_interleaving() {
    let mut d = Dispatcher::new(vec![1, 2, 7], 0);
    assert_eq!(d.dispatch(Hotkey::PauseKey), Some(Command::Pause));
    d.dispatch(Hotkey::SplitKey);
    d.dispatch(Hotkey::SwitchComparisonNext);
    d.dispatch(Hotkey::ToggleGlobalHotkeys);
    assert_eq!(d.dispatch(Hotkey::PauseKey), Some(Command::Resume));
    d.dispatch(Hotkey::ResetKey);
    assert_eq!(d.dispatch(Hotkey::PauseKey), Some(Command::Pause));
}

#[test]
fn comparison_cycling_wraps() {
    // Enabled list of three entries, starting at position 0: three advances
    // visit positions 1, 2, 0 in order.
    let mut d = Dispatcher::new(vec![1, 2, 0], 0);
    assert_eq!(
        d.dispatch(Hotkey::SwitchComparisonNext),
        Some(Command::SetComparison(2))
    );
    assert_eq!(
        d.dispatch(Hotkey::SwitchComparisonNext),
        Some(Command::SetComparison(0))
    );
    assert_eq!(
        d.dispatch(Hotkey::SwitchComparisonNext),
        Some(Command::SetComparison(1))
    );
    // One retreat from position 0 wraps to the last position.
    let mut d = Dispatcher::new(vec![1, 2, 0], 0);
    assert_eq!(
        d.dispatch(Hotkey::SwitchComparisonPrevious),
        Some(Command::SetComparison(0))
    );
}

#[test]
fn enabled_comparisons_appends_personal_best() {
    assert_eq!(enabled_comparisons(&flags(&[])), vec![7]);
    assert_eq!(
        enabled_comparisons(&flags(&[("Best Segments", true), ("Latest Run", true)])),
        vec![0, 6, 7]
    );
    assert_eq!(
        enabled_comparisons(&flags(&[("Latest Run", false)])),
        vec![7]
    );
}

#[test]
fn enabled_personal_best_flag_duplicates_entry() {
    // "Personal Best" is appended unconditionally, even when also enabled by
    // flag.
    assert_eq!(
        enabled_comparisons(&flags(&[("Personal Best", true)])),
        vec![7, 7]
    );
}

#[test]
fn enabled_flag_last_entry_wins() {
    assert_eq!(
        enabled_comparisons(&flags(&[("Best Segments", true), ("Best Segments", false)])),
        vec![7]
    );
    assert_eq!(
        enabled_comparisons(&flags(&[("Best Segments", false), ("Best Segments", true)])),
        vec![0, 7]
    );
}

#[test]
fn unknown_comparison_name_is_ignored() {
    assert_eq!(enabled_comparisons(&flags(&[("No Such Mode", true)])), vec![7]);
}

#[test]
fn initial_index_finds_last_used() {
    let enabled = vec![0usize, 1, 7];
    assert_eq!(initial_comparison_index(&enabled, &"Best Split Times".to_string()), 1);
    assert_eq!(initial_comparison_index(&enabled, &"Personal Best".to_string()), 2);
}

#[test]
fn initial_index_defaults_to_zero() {
    let enabled = vec![0usize, 1, 7];
    assert_eq!(initial_comparison_index(&enabled, &"Median Segments".to_string()), 0);
    assert_eq!(initial_comparison_index(&enabled, &"not a comparison".to_string()), 0);
}
