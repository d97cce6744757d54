use ashen_chronicle::ui::{
    bottom_panel_height, choice_listing, choice_panel_lines, choice_step, choice_window, clear_log, control_hint,
    diagnostic, ends_wait, footer_height, is_compact_area, is_ctrl_char, journal_lines, location_lines, narrate,
    pause, prompt_panel_lines, prompt_step, set_dashboard, set_location_scene, split_lines, status_lines, tail_lines,
    trim_log, typed_answer, typed_choice, ChoiceStep, Dashboard, Key, PromptStep, UiState, WaitRequest, MAX_LOG_LINES,
};

fn strings(items: &[&str]) -> Vec<String> {
    items.iter().map(|s| s.to_string()).collect()
}

#[test]
fn lines_are_split_at_line_breaks() {
    assert_eq!(split_lines("a\nb"), strings(&["a", "b"]));
    assert_eq!(split_lines(""), strings(&[""]));
    assert_eq!(split_lines("end\n"), strings(&["end", ""]));
}

#[test]
fn journal_keeps_the_newest_lines() {
    let mut ui = UiState::new();
    for i in 0..50 {
        assert!(ashen_chronicle::ui::line(&mut ui, &format!("entry {i}")));
    }
    assert_eq!(ui.log.len(), MAX_LOG_LINES);
    assert_eq!(ui.log[0], "entry 2");
    assert_eq!(ui.log[47], "entry 49");
}

#[test]
fn journal_never_grows_past_its_limit() {
    let mut log: Vec<String> = (0..60).map(|i| i.to_string()).collect();
    trim_log(&mut log);
    assert_eq!(log.len(), 48);
    assert_eq!(log[0], "12");
    let mut short = strings(&["a"]);
    trim_log(&mut short);
    assert_eq!(short, strings(&["a"]));
}

#[test]
fn echo_only_until_the_screen_is_up() {
    let mut ui = UiState::new();
    assert!(ashen_chronicle::ui::line(&mut ui, "first"));
    set_dashboard(&mut ui, Dashboard::default());
    assert!(ui.initialized);
    assert!(!ashen_chronicle::ui::line(&mut ui, "second"));
    assert_eq!(ui.log, strings(&["first", "second"]));
}

#[test]
fn diagnostics_are_marked() {
    let mut ui = UiState::new();
    diagnostic(&mut ui, "content missing");
    assert_eq!(ui.log, strings(&["[diagnostic] content missing"]));
    clear_log(&mut ui);
    assert!(ui.log.is_empty());
}

#[test]
fn scene_replaces_the_old_one() {
    let mut ui = UiState::new();
    set_location_scene(&mut ui, strings(&["old"]));
    set_location_scene(&mut ui, strings(&["/\\", "||"]));
    assert_eq!(ui.location_scene, strings(&["/\\", "||"]));
}

#[test]
fn pause_waits_for_a_key_or_a_line() {
    let mut ui = UiState::new();
    assert_eq!(pause(&ui), WaitRequest::ReadLine("Press any key to continue...".to_string()));
    ui.initialized = true;
    assert_eq!(pause(&ui), WaitRequest::ReadKey("Press any key to continue...".to_string()));
    let (echo, wait) = narrate(&mut ui, "The bell rings.");
    assert!(!echo);
    assert_eq!(wait, WaitRequest::ReadKey("Press any key to continue...".to_string()));
    assert_eq!(ui.log, strings(&["The bell rings."]));
}

#[test]
fn control_characters_do_not_end_a_wait() {
    assert!(!ends_wait(Key::Char('\u{1b}')));
    assert!(ends_wait(Key::Char('x')));
    assert!(ends_wait(Key::Enter));
}

#[test]
fn status_panel_lines() {
    let mut d = Dashboard::default();
    assert!(status_lines(&d).is_empty());
    d.world_name = "Cinder".to_string();
    d.hp_line = "HP 10/10".to_string();
    d.danger_line = Some("Danger: high".to_string());
    assert_eq!(status_lines(&d), strings(&["World: Cinder", "HP 10/10", "Danger: high"]));
}

#[test]
fn location_panel_lines() {
    let mut d = Dashboard::default();
    d.location_name = Some("Old Shrine".to_string());
    d.threat_line = Some("A threat stirs.".to_string());
    let scene = strings(&["  /\\", " /  \\"]);
    assert_eq!(location_lines(&d, &scene), strings(&["Old Shrine", "  /\\", " /  \\", "A threat stirs."]));
}

#[test]
fn tail_keeps_the_last_lines() {
    let all = strings(&["a", "b", "c", "d"]);
    assert_eq!(tail_lines(&all, 2), strings(&["c", "d"]));
    assert_eq!(tail_lines(&all, 9), all);
    assert!(tail_lines(&all, 0).is_empty());
}

#[test]
fn control_characters_are_ignored_but_tab_is_kept() {
    assert!(is_ctrl_char('\u{7}'));
    assert!(is_ctrl_char('\u{85}'));
    assert!(!is_ctrl_char('\t'));
    assert!(!is_ctrl_char('a'));
}

#[test]
fn compact_layout_for_small_or_tall_terminals() {
    assert!(is_compact_area(100, 50));
    assert!(is_compact_area(200, 30));
    assert!(is_compact_area(150, 80));
    assert!(!is_compact_area(160, 40));
}

#[test]
fn bottom_panel_heights() {
    assert_eq!(bottom_panel_height(40, false, 1), 6);
    assert_eq!(bottom_panel_height(40, false, 5), 9);
    assert_eq!(bottom_panel_height(40, false, 30), 13);
    assert_eq!(bottom_panel_height(40, true, 30), 16);
    assert_eq!(bottom_panel_height(10, true, 30), 7);
    assert_eq!(footer_height(40, false, 0), 3);
    assert_eq!(footer_height(40, false, 5), 9);
}

#[test]
fn hints_and_journal_panel() {
    let mut d = Dashboard::default();
    assert_eq!(control_hint(&d), "Use arrows, Enter, and Esc.");
    d.action_hint = Some("Choose a road.".to_string());
    assert_eq!(control_hint(&d), "Choose a road.");
    assert_eq!(journal_lines(&[], 10), strings(&["No journal yet."]));
    let log = strings(&["a", "b", "c", "d"]);
    assert_eq!(journal_lines(&log, 4), strings(&["c", "d"]));
    assert_eq!(journal_lines(&log, 1), strings(&["d"]));
}

#[test]
fn arrows_move_and_wrap() {
    assert_eq!(choice_step(0, 3, false, Key::Up), ChoiceStep::Move(2));
    assert_eq!(choice_step(0, 3, true, Key::Up), ChoiceStep::Move(3));
    assert_eq!(choice_step(2, 3, false, Key::Down), ChoiceStep::Move(0));
    assert_eq!(choice_step(2, 3, true, Key::Char('j')), ChoiceStep::Move(3));
    assert_eq!(choice_step(3, 3, true, Key::Down), ChoiceStep::Move(0));
    assert_eq!(choice_step(1, 3, false, Key::Char('k')), ChoiceStep::Move(0));
    assert_eq!(choice_step(1, 3, true, Key::End), ChoiceStep::Move(3));
    assert_eq!(choice_step(1, 3, false, Key::Home), ChoiceStep::Move(0));
}

#[test]
fn enter_digits_and_escape_choose() {
    assert_eq!(choice_step(1, 3, false, Key::Enter), ChoiceStep::Done(Some(1)));
    assert_eq!(choice_step(3, 3, true, Key::Enter), ChoiceStep::Done(None));
    assert_eq!(choice_step(0, 3, true, Key::Esc), ChoiceStep::Done(None));
    assert_eq!(choice_step(0, 3, false, Key::Esc), ChoiceStep::Ignore);
    assert_eq!(choice_step(0, 3, false, Key::Char('3')), ChoiceStep::Done(Some(2)));
    assert_eq!(choice_step(0, 3, false, Key::Char('4')), ChoiceStep::Ignore);
    assert_eq!(choice_step(0, 3, true, Key::Char('0')), ChoiceStep::Done(None));
    assert_eq!(choice_step(0, 3, false, Key::Char('0')), ChoiceStep::Ignore);
    assert_eq!(choice_step(0, 3, false, Key::Char('x')), ChoiceStep::Ignore);
}

#[test]
fn long_lists_scroll_around_the_highlight() {
    // A 40-row terminal 100 wide is compact: 42% of 40 is 16 rows, 10 of them for options.
    assert_eq!(choice_window(100, 40, 0, 30, false), (0, 10));
    assert_eq!(choice_window(100, 40, 15, 30, false), (10, 20));
    assert_eq!(choice_window(100, 40, 29, 30, false), (20, 30));
    assert_eq!(choice_window(100, 40, 30, 30, true), (22, 31));
    assert_eq!(choice_window(100, 40, 1, 3, false), (0, 3));
}

#[test]
fn list_panel_marks_the_highlight() {
    let options = strings(&["North", "South"]);
    let lines = choice_panel_lines("Where to?", &options, Some("Back"), 1, 0, 3);
    assert_eq!(
        lines,
        strings(&[
            "Where to?",
            "",
            "Use \u{2191} \u{2193} or j/k, Enter to confirm, Esc to go back.",
            "",
            "  1. North",
            "\u{25b6} 2. South",
            "  0. Back",
        ])
    );
    let scrolled = choice_panel_lines("Where to?", &options, None, 1, 1, 2);
    assert_eq!(scrolled[4], "\u{22ef} more above \u{22ef}");
    assert_eq!(scrolled[5], "\u{25b6} 2. South");
}

#[test]
fn list_panel_notes_rows_below() {
    let options = strings(&["a", "b", "c"]);
    let lines = choice_panel_lines("T", &options, None, 0, 0, 2);
    assert_eq!(lines.last().unwrap(), "\u{22ef} more below \u{22ef}");
}

#[test]
fn plain_listing_numbers_the_options() {
    let options = strings(&["New Game", "Quit"]);
    assert_eq!(choice_listing("Begin", &options, None), "Begin\n  1. New Game\n  2. Quit");
    assert_eq!(choice_listing("Saved lives", &strings(&["a.json"]), Some("Back")), "Saved lives\n  1. a.json\n  0. Back");
}

#[test]
fn typed_numbers_choose_options() {
    assert_eq!(typed_choice(" 2 \n", 3, false), Some(Some(1)));
    assert_eq!(typed_choice("+1", 3, false), Some(Some(0)));
    assert_eq!(typed_choice("0", 3, true), Some(None));
    assert_eq!(typed_choice("0", 3, false), None);
    assert_eq!(typed_choice("4", 3, false), None);
    assert_eq!(typed_choice("two", 3, false), None);
    assert_eq!(typed_choice("", 3, true), None);
    assert_eq!(typed_choice("99999999999999999999999", 3, true), None);
    assert_eq!(typed_answer("  Mara \n"), "Mara");
}

#[test]
fn prompt_editing() {
    let mut buffer = String::new();
    assert_eq!(prompt_step(&mut buffer, Key::Char('A')), PromptStep::Editing);
    assert_eq!(prompt_step(&mut buffer, Key::Char('\u{7}')), PromptStep::Editing);
    assert_eq!(prompt_step(&mut buffer, Key::Tab), PromptStep::Editing);
    assert_eq!(buffer, "A\t");
    assert_eq!(prompt_step(&mut buffer, Key::Backspace), PromptStep::Editing);
    assert_eq!(prompt_step(&mut buffer, Key::Char('s')), PromptStep::Editing);
    assert_eq!(prompt_step(&mut buffer, Key::Char(' ')), PromptStep::Editing);
    assert_eq!(buffer, "As ");
    assert_eq!(prompt_step(&mut buffer, Key::Delete), PromptStep::Editing);
    assert_eq!(prompt_step(&mut buffer, Key::Enter), PromptStep::Done("As".to_string()));
    assert_eq!(prompt_step(&mut buffer, Key::Esc), PromptStep::Done(String::new()));
    let mut empty = String::new();
    assert_eq!(prompt_step(&mut empty, Key::Backspace), PromptStep::Editing);
    assert_eq!(empty, "");
}

#[test]
fn prompt_panel_shows_the_answer_so_far() {
    assert_eq!(
        prompt_panel_lines("Character name: ", "Ma"),
        strings(&["Character name: ", "", "> Ma", "Enter to confirm, Esc to cancel."])
    );
}
