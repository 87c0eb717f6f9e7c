use dolbaeb_simulator::ui::{
    GameState, LineColor, MenuKeys, TerminalAction, UiManager, MAX_LOG_HISTORY,
};

fn keys() -> MenuKeys {
    MenuKeys { menu_up: false, menu_down: false, menu_del: false, menu_ent: false, pause_pressed: false }
}

fn enter() -> MenuKeys {
    MenuKeys { menu_ent: true, ..keys() }
}

fn run(ui: &mut UiManager, line: &str) -> TerminalAction {
    let typed: Vec<char> = line.chars().collect();
    ui.update(keys(), &typed);
    ui.update(enter(), &vec![])
}

fn last_line(ui: &UiManager) -> (String, LineColor) {
    let l = ui.history.back().unwrap();
    (l.text.clone(), l.color)
}

#[test]
fn starts_in_the_terminal() {
    let ui = UiManager::new();
    assert_eq!(ui.game_state, GameState::Terminal);
    assert_eq!(ui.previous_state, GameState::Terminal);
    assert!(ui.fullscreen);
    assert!(!ui.restart_requested);
    assert!(ui.history.is_empty());
    assert_eq!(ui.pause_selected_idx, 0);
}

#[test]
fn start_command_begins_play() {
    let mut ui = UiManager::new();
    let a = run(&mut ui, "  start  ");
    assert!(matches!(a, TerminalAction::Nothing));
    assert_eq!(ui.game_state, GameState::Playing);
    assert_eq!(ui.previous_state, GameState::Terminal);
    assert_eq!(ui.history.len(), 2);
    assert_eq!(ui.history[0].text, "user@zinux:~$ start");
    assert_eq!(ui.history[0].color, LineColor::Green);
    assert_eq!(last_line(&ui), ("Game started.".to_string(), LineColor::Green));
    assert_eq!(ui.cmd_history, vec!["start".to_string()]);
    assert_eq!(ui.input_buffer, "");
    assert_eq!(ui.pending_restarts(), 1);
    assert_eq!(ui.previous_state, GameState::Playing);
    assert_eq!(ui.pending_restarts(), 0);
}

#[test]
fn commands_ignore_case() {
    let mut ui = UiManager::new();
    run(&mut ui, "RESUME");
    assert_eq!(ui.game_state, GameState::Playing);
}

#[test]
fn command_names_are_lowercased_the_unicode_way() {
    let mut ui = UiManager::new();
    run(&mut ui, "SeT-FullSCREEN");
    assert!(!ui.fullscreen);
    run(&mut ui, "ÄБ x");
    assert_eq!(last_line(&ui), ("Unknown command: 'äб'".to_string(), LineColor::Red));
    assert_eq!(ui.cmd_history.last().unwrap(), "ÄБ x");
}

#[test]
fn pause_and_restart_commands() {
    let mut ui = UiManager::new();
    run(&mut ui, "pause");
    assert_eq!(ui.game_state, GameState::Pause);
    assert_eq!(last_line(&ui).0, "Game paused.");
    let mut ui = UiManager::new();
    run(&mut ui, "restart");
    assert_eq!(ui.game_state, GameState::Playing);
    assert!(ui.restart_requested);
    assert_eq!(last_line(&ui).0, "Restarting level...");
    assert_eq!(ui.pending_restarts(), 2);
    assert!(!ui.restart_requested);
}

#[test]
fn unknown_command_is_reported_in_red() {
    let mut ui = UiManager::new();
    run(&mut ui, "Dance now");
    assert_eq!(ui.game_state, GameState::Terminal);
    assert_eq!(last_line(&ui), ("Unknown command: 'dance'".to_string(), LineColor::Red));
}

#[test]
fn help_lists_the_commands() {
    let mut ui = UiManager::new();
    run(&mut ui, "help");
    assert_eq!(
        last_line(&ui),
        (
            "Commands: start, pause, resume, restart, status, set-volume <0-100>, set-fullscreen, clear, boot, exit"
                .to_string(),
            LineColor::LightGray
        )
    );
}

#[test]
fn clear_empties_the_log() {
    let mut ui = UiManager::new();
    run(&mut ui, "help");
    run(&mut ui, "clear");
    assert!(ui.history.is_empty());
    assert_eq!(ui.cmd_history.len(), 2);
}

#[test]
fn exit_and_quit_ask_to_leave() {
    let mut ui = UiManager::new();
    assert!(matches!(run(&mut ui, "exit"), TerminalAction::Exit));
    assert!(matches!(run(&mut ui, "QUIT"), TerminalAction::Exit));
}

#[test]
fn set_volume_hands_over_its_argument() {
    let mut ui = UiManager::new();
    match run(&mut ui, "set-volume   42  extra") {
        TerminalAction::SetVolume(Some(a)) => assert_eq!(a, "42"),
        _ => panic!("expected a volume request"),
    }
    assert!(matches!(run(&mut ui, "set-volume"), TerminalAction::SetVolume(None)));
}

#[test]
fn set_fullscreen_toggles() {
    let mut ui = UiManager::new();
    assert!(matches!(run(&mut ui, "set-fullscreen"), TerminalAction::SetFullscreen(false)));
    assert!(!ui.fullscreen);
    assert_eq!(last_line(&ui).0, "Fullscreen: false");
    assert!(matches!(run(&mut ui, "set-fullscreen"), TerminalAction::SetFullscreen(true)));
    assert_eq!(last_line(&ui).0, "Fullscreen: true");
}

#[test]
fn typing_filters_characters_and_backspace_deletes() {
    let mut ui = UiManager::new();
    ui.update(keys(), &vec!['a', '`', 'b', '~', '\n', 'c', 'ü']);
    assert_eq!(ui.input_buffer, "abcü");
    ui.update(MenuKeys { menu_del: true, ..keys() }, &vec![]);
    assert_eq!(ui.input_buffer, "abc");
    let mut empty = UiManager::new();
    empty.update(MenuKeys { menu_del: true, ..keys() }, &vec![]);
    assert_eq!(empty.input_buffer, "");
}

#[test]
fn blank_lines_run_nothing() {
    let mut ui = UiManager::new();
    assert!(matches!(run(&mut ui, "   \t "), TerminalAction::Nothing));
    assert!(ui.history.is_empty());
    assert!(ui.cmd_history.is_empty());
}

#[test]
fn history_navigation() {
    let mut ui = UiManager::new();
    run(&mut ui, "one");
    run(&mut ui, "two");
    let up = MenuKeys { menu_up: true, ..keys() };
    let down = MenuKeys { menu_down: true, ..keys() };
    ui.update(up, &vec![]);
    assert_eq!(ui.input_buffer, "two");
    assert_eq!(ui.cmd_history_idx, Some(1));
    ui.update(up, &vec![]);
    assert_eq!(ui.input_buffer, "one");
    ui.update(up, &vec![]);
    assert_eq!(ui.input_buffer, "one");
    assert_eq!(ui.cmd_history_idx, Some(0));
    ui.update(down, &vec![]);
    assert_eq!(ui.input_buffer, "two");
    ui.update(down, &vec![]);
    assert_eq!(ui.input_buffer, "");
    assert_eq!(ui.cmd_history_idx, None);
    ui.update(down, &vec![]);
    assert_eq!(ui.input_buffer, "");
}

#[test]
fn escape_toggles_pause_while_playing() {
    let mut ui = UiManager::new();
    run(&mut ui, "start");
    let esc = MenuKeys { pause_pressed: true, ..keys() };
    ui.update(esc, &vec![]);
    assert_eq!(ui.game_state, GameState::Pause);
    ui.update(esc, &vec![]);
    assert_eq!(ui.game_state, GameState::Playing);
    let mut t = UiManager::new();
    t.update(esc, &vec![]);
    assert_eq!(t.game_state, GameState::Terminal);
}

#[test]
fn pause_menu_selection_wraps_and_acts() {
    let mut ui = UiManager::new();
    run(&mut ui, "pause");
    let up = MenuKeys { menu_up: true, ..keys() };
    let down = MenuKeys { menu_down: true, ..keys() };
    ui.update(up, &vec![]);
    assert_eq!(ui.pause_selected_idx, 2);
    ui.update(down, &vec![]);
    assert_eq!(ui.pause_selected_idx, 0);
    ui.update(down, &vec![]);
    assert_eq!(ui.pause_selected_idx, 1);
    ui.update(enter(), &vec![]);
    assert_eq!(ui.game_state, GameState::Playing);
    assert!(ui.restart_requested);
    let mut ui = UiManager::new();
    run(&mut ui, "pause");
    ui.update(up, &vec![]);
    ui.update(enter(), &vec![]);
    assert_eq!(ui.game_state, GameState::Terminal);
    let mut ui = UiManager::new();
    run(&mut ui, "pause");
    ui.update(enter(), &vec![]);
    assert_eq!(ui.game_state, GameState::Playing);
    assert!(!ui.restart_requested);
}

#[test]
fn log_keeps_the_newest_lines() {
    let mut ui = UiManager::new();
    for i in 0..(MAX_LOG_HISTORY + 5) {
        ui.log(format!("line {i}"), LineColor::LightGray);
    }
    assert_eq!(ui.history.len(), MAX_LOG_HISTORY);
    assert_eq!(ui.history[0].text, "line 5");
    assert_eq!(ui.history.back().unwrap().text, format!("line {}", MAX_LOG_HISTORY + 4));
}

#[test]
fn boot_lines_appear_one_by_one() {
    let mut ui = UiManager::new();
    let boot = vec!["first".to_string(), "second".to_string()];
    assert!(ui.boot_pending(boot.len()));
    ui.advance_boot(&boot);
    ui.advance_boot(&boot);
    assert!(!ui.boot_pending(boot.len()));
    assert_eq!(ui.history.len(), 2);
    assert_eq!(last_line(&ui), ("second".to_string(), LineColor::LightGray));
    ui.run_boot_sequence();
    assert!(ui.history.is_empty());
    assert!(ui.boot_pending(boot.len()));
}

#[test]
fn change_state_remembers_the_previous_one() {
    let mut ui = UiManager::new();
    ui.change_state(GameState::Pause);
    assert_eq!(ui.previous_state, GameState::Terminal);
    assert_eq!(ui.game_state, GameState::Pause);
}

#[test]
fn boot_command_starts_the_boot_lines_over() {
    let mut ui = UiManager::new();
    let boot = vec!["first".to_string(), "second".to_string()];
    ui.advance_boot(&boot);
    ui.advance_boot(&boot);
    let a = run(&mut ui, "BOOT");
    assert!(matches!(a, TerminalAction::Nothing));
    assert!(ui.history.is_empty());
    assert_eq!(ui.boot_logs_idx, 0);
    assert!(ui.boot_pending(boot.len()));
    assert_eq!(ui.cmd_history, vec!["BOOT".to_string()]);
    assert_eq!(ui.game_state, GameState::Terminal);
}

#[test]
fn status_command_reports_the_game_state() {
    let mut ui = UiManager::new();
    let a = run(&mut ui, " status ");
    assert!(matches!(a, TerminalAction::Nothing));
    assert_eq!(last_line(&ui), ("Status: terminal".to_string(), LineColor::Green));
    assert_eq!(ui.history.len(), 2);
    assert_eq!(ui.game_state, GameState::Terminal);
}
