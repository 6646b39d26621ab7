use nanolike::config::{default_keybindings, Action, Config, KeyBindings};
use nanolike::keys::{Key, KeyInput};
use nanolike::workspace::{App, Command, Fault, Motion, Pending, Reply, Request};

fn key(code: Key) -> KeyInput {
    KeyInput { code, ctrl: false, alt: false, shift: false, release: false }
}

fn ctrl(c: char) -> KeyInput {
    KeyInput { code: Key::Char(c), ctrl: true, alt: false, shift: false, release: false }
}

fn alt(c: char) -> KeyInput {
    KeyInput { code: Key::Char(c), ctrl: false, alt: true, shift: false, release: false }
}

fn shifted(code: Key) -> KeyInput {
    KeyInput { code, ctrl: false, alt: false, shift: true, release: false }
}

fn new_app() -> App {
    App::start(Vec::new(), Config::default(), KeyBindings::new(default_keybindings()), 80, 24)
}

fn app_with(text: &str) -> App {
    let mut app = App::start(
        vec![("notes.txt".to_string(), Some(Ok(text.as_bytes().to_vec())))],
        Config::default(),
        KeyBindings::new(default_keybindings()),
        80,
        24,
    );
    app.editors[0].status_msg.clear();
    app
}

fn type_text(app: &mut App, text: &str) {
    for c in text.chars() {
        assert!(matches!(app.handle_key(&key(Key::Char(c))), Request::Nothing));
    }
}

fn answer(app: &mut App, text: &str) -> Request {
    app.resume(Reply::Input(Some(text.to_string())))
}

#[test]
fn start_without_files_has_one_empty_buffer() {
    let app = new_app();
    assert_eq!(app.editors.len(), 1);
    assert_eq!(app.editors[0].lines, vec![String::new()]);
    assert_eq!(app.active_tab, 0);
    assert!(app.running);
    assert!(matches!(app.pending, Pending::Idle));
}

#[test]
fn start_with_missing_file_is_a_new_file() {
    let app = App::start(
        vec![("new.txt".to_string(), None)],
        Config::default(),
        KeyBindings::new(default_keybindings()),
        80,
        24,
    );
    assert_eq!(app.editors[0].filename.as_deref(), Some("new.txt"));
    assert_eq!(app.editors[0].status_msg, "New file: new.txt");
}

#[test]
fn start_with_file_reads_its_lines() {
    let app = App::start(
        vec![("a.txt".to_string(), Some(Ok(b"one\ntwo\n".to_vec())))],
        Config::default(),
        KeyBindings::new(default_keybindings()),
        80,
        24,
    );
    assert_eq!(app.editors[0].lines, vec!["one".to_string(), "two".to_string()]);
    assert_eq!(app.editors[0].status_msg, "Read 2 lines [UTF-8]");
}

#[test]
fn typing_inserts_chars() {
    let mut app = new_app();
    type_text(&mut app, "hi!");
    assert_eq!(app.editors[0].lines, vec!["hi!".to_string()]);
    assert_eq!(app.editors[0].cursor_col, 3);
    assert!(app.editors[0].modified);
}

#[test]
fn release_events_are_ignored() {
    let mut app = new_app();
    let mut ev = key(Key::Char('x'));
    ev.release = true;
    assert!(matches!(app.decide(&ev), Command::Ignore));
    app.handle_key(&ev);
    assert_eq!(app.editors[0].lines, vec![String::new()]);
}

#[test]
fn decide_navigation_keys_first() {
    let app = new_app();
    assert!(matches!(app.decide(&key(Key::Up)), Command::Move(Motion::Up, false)));
    assert!(matches!(app.decide(&shifted(Key::Right)), Command::Move(Motion::Right, true)));
    let mut ev = key(Key::Left);
    ev.ctrl = true;
    assert!(matches!(app.decide(&ev), Command::Move(Motion::PrevWord, false)));
    let mut ev = key(Key::End);
    ev.ctrl = true;
    assert!(matches!(app.decide(&ev), Command::Move(Motion::FileBottom, false)));
    assert!(matches!(app.decide(&key(Key::Enter)), Command::Newline));
    assert!(matches!(app.decide(&key(Key::Tab)), Command::Indent));
}

#[test]
fn decide_bound_actions_and_typing() {
    let app = new_app();
    assert!(matches!(app.decide(&ctrl('s')), Command::Run(Action::Save)));
    assert!(matches!(app.decide(&alt('n')), Command::Run(Action::ToggleLineNumbers)));
    assert!(matches!(app.decide(&key(Key::F(3))), Command::Run(Action::SearchNext)));
    assert!(matches!(app.decide(&key(Key::Char('q'))), Command::Type('q')));
    assert!(matches!(app.decide(&ctrl('e')), Command::Ignore));
    let save_as = KeyInput { code: Key::Char('S'), ctrl: true, alt: false, shift: true, release: false };
    assert!(matches!(app.decide(&save_as), Command::Run(Action::SaveAs)));
    let mut ev = key(Key::Left);
    ev.alt = true;
    assert!(matches!(app.decide(&ev), Command::Run(Action::PrevWord)));
}

#[test]
fn tab_key_inserts_spaces_or_tab() {
    let mut app = new_app();
    app.handle_key(&key(Key::Tab));
    assert_eq!(app.editors[0].lines[0], "    ");
    app.config.use_spaces = false;
    app.handle_key(&key(Key::Tab));
    assert_eq!(app.editors[0].lines[0], "    \t");
}

#[test]
fn enter_auto_indents() {
    let mut app = app_with("    code");
    app.handle_key(&key(Key::End));
    app.handle_key(&key(Key::Enter));
    assert_eq!(app.editors[0].lines, vec!["    code".to_string(), "    ".to_string()]);
    assert_eq!(app.editors[0].cursor_row, 1);
    assert_eq!(app.editors[0].cursor_col, 4);
}

#[test]
fn shift_arrows_select_and_escape_clears() {
    let mut app = app_with("hello");
    app.handle_key(&shifted(Key::Right));
    app.handle_key(&shifted(Key::Right));
    assert_eq!(app.editors[0].selection_anchor, Some((0, 0)));
    assert_eq!(app.editors[0].cursor_col, 2);
    app.handle_key(&key(Key::Esc));
    assert_eq!(app.editors[0].selection_anchor, None);
}

#[test]
fn typing_replaces_selection() {
    let mut app = app_with("hello");
    app.handle_key(&shifted(Key::Right));
    app.handle_key(&shifted(Key::Right));
    type_text(&mut app, "J");
    assert_eq!(app.editors[0].lines, vec!["Jllo".to_string()]);
    assert_eq!(app.editors[0].selection_anchor, None);
}

#[test]
fn plain_arrow_drops_selection() {
    let mut app = app_with("hello");
    app.handle_key(&shifted(Key::Right));
    app.handle_key(&key(Key::Right));
    assert_eq!(app.editors[0].selection_anchor, None);
    assert_eq!(app.editors[0].cursor_col, 2);
}

#[test]
fn ctrl_home_and_end_move_to_file_ends() {
    let mut app = app_with("ab\ncd\nxyz");
    let mut ev = key(Key::End);
    ev.ctrl = true;
    app.handle_key(&ev);
    assert_eq!((app.editors[0].cursor_row, app.editors[0].cursor_col), (2, 3));
    let mut ev = key(Key::Home);
    ev.ctrl = true;
    app.handle_key(&ev);
    assert_eq!((app.editors[0].cursor_row, app.editors[0].cursor_col), (0, 0));
}

#[test]
fn stale_selection_is_refused() {
    let mut app = app_with("ab");
    app.handle_key(&key(Key::End));
    // An empty selection at the end of the line.
    app.handle_key(&shifted(Key::Right));
    assert_eq!(app.editors[0].selection_anchor, Some((0, 2)));
    app.handle_key(&key(Key::Backspace));
    assert_eq!(app.editors[0].lines, vec!["a".to_string()]);
    // The anchor now lies past the end of the line.
    let req = app.handle_key(&key(Key::Delete));
    assert!(matches!(req, Request::Fault(Fault::StaleSelection)));
    assert_eq!(app.editors[0].lines, vec!["a".to_string()]);
}

#[test]
fn save_without_name_asks_then_writes() {
    let mut app = new_app();
    type_text(&mut app, "abc");
    match app.handle_key(&ctrl('s')) {
        Request::Prompt { message, default } => {
            assert_eq!(message, "Save as: ");
            assert_eq!(default, "");
        }
        _ => panic!("expected a prompt"),
    }
    match answer(&mut app, "out.txt") {
        Request::Write { path, bytes } => {
            assert_eq!(path, "out.txt");
            assert_eq!(bytes, b"abc\n".to_vec());
        }
        _ => panic!("expected a write"),
    }
    let req = app.resume(Reply::Written(Ok(())));
    assert!(matches!(req, Request::Nothing));
    assert_eq!(app.editors[0].status_msg, "Saved: out.txt [UTF-8]");
    assert!(!app.editors[0].modified);
    assert_eq!(app.editors[0].filename.as_deref(), Some("out.txt"));
}

#[test]
fn save_cancelled_reports_it() {
    let mut app = new_app();
    app.handle_key(&ctrl('s'));
    app.resume(Reply::Input(None));
    assert_eq!(app.editors[0].status_msg, "Save cancelled");
    assert!(matches!(app.pending, Pending::Idle));
}

#[test]
fn save_error_is_reported() {
    let mut app = app_with("x");
    type_text(&mut app, "y");
    assert!(matches!(app.handle_key(&ctrl('s')), Request::Write { .. }));
    app.resume(Reply::Written(Err("disk full".to_string())));
    assert_eq!(app.editors[0].status_msg, "Save error: disk full");
    assert!(app.editors[0].status_error);
    assert!(app.editors[0].modified);
}

#[test]
fn quit_without_changes_stops() {
    let mut app = new_app();
    assert!(matches!(app.handle_key(&ctrl('x')), Request::Nothing));
    assert!(!app.running);
}

#[test]
fn quit_with_changes_asks_and_no_stops() {
    let mut app = new_app();
    type_text(&mut app, "z");
    match app.handle_key(&ctrl('x')) {
        Request::Prompt { message, .. } => assert_eq!(message, "Save before quit? (y/n/[cancel]): "),
        _ => panic!("expected a prompt"),
    }
    answer(&mut app, " No ");
    assert!(!app.running);
}

#[test]
fn quit_with_changes_cancel_keeps_running() {
    let mut app = new_app();
    type_text(&mut app, "z");
    app.handle_key(&ctrl('x'));
    answer(&mut app, "maybe");
    assert!(app.running);
    assert!(matches!(app.pending, Pending::Idle));
}

#[test]
fn quit_saves_every_modified_tab_first() {
    let mut app = app_with("a");
    type_text(&mut app, "1");
    app.handle_key(&ctrl('t'));
    type_text(&mut app, "2");
    match app.handle_key(&ctrl('x')) {
        Request::Prompt { message, .. } => {
            assert_eq!(message, "2 tabs have unsaved changes. Save all? (y/n/[cancel]): ")
        }
        _ => panic!("expected a prompt"),
    }
    match answer(&mut app, "y") {
        Request::Write { path, bytes } => {
            assert_eq!(path, "notes.txt");
            assert_eq!(bytes, b"1a\n".to_vec());
        }
        _ => panic!("expected a write"),
    }
    match app.resume(Reply::Written(Ok(()))) {
        Request::Prompt { message, .. } => assert_eq!(message, "Save as: "),
        _ => panic!("expected a prompt for the second tab"),
    }
    assert_eq!(app.active_tab, 1);
    assert!(matches!(answer(&mut app, "b.txt"), Request::Write { .. }));
    app.resume(Reply::Written(Ok(())));
    assert!(!app.running);
}

#[test]
fn search_finds_and_reports() {
    let mut app = app_with("alpha beta\ngamma beta");
    match app.handle_key(&ctrl('f')) {
        Request::Prompt { message, default } => {
            assert_eq!(message, "Search: ");
            assert_eq!(default, "");
        }
        _ => panic!("expected a prompt"),
    }
    assert!(matches!(answer(&mut app, "BETA"), Request::Nothing));
    assert_eq!((app.editors[0].cursor_row, app.editors[0].cursor_col), (0, 6));
    assert_eq!(app.editors[0].status_msg, "Match 1/2: BETA");
    app.handle_key(&key(Key::F(3)));
    assert_eq!((app.editors[0].cursor_row, app.editors[0].cursor_col), (1, 6));
    app.handle_key(&key(Key::F(3)));
    assert_eq!(app.editors[0].status_msg, "Wrapped. Match 1/2: BETA");
}

#[test]
fn search_not_found_is_an_error() {
    let mut app = app_with("alpha");
    app.handle_key(&ctrl('f'));
    answer(&mut app, "zzz");
    assert_eq!(app.editors[0].status_msg, "Not found: zzz");
    assert!(app.editors[0].status_error);
}

#[test]
fn search_empty_answer_clears_search() {
    let mut app = app_with("alpha");
    app.handle_key(&ctrl('f'));
    answer(&mut app, "al");
    app.handle_key(&ctrl('f'));
    answer(&mut app, "");
    assert_eq!(app.editors[0].search_term, "");
    assert!(app.editors[0].search_matches.is_empty());
    assert_eq!(app.editors[0].status_msg, "Search cleared");
}

#[test]
fn search_next_without_term_asks() {
    let mut app = app_with("alpha");
    match app.handle_key(&key(Key::F(3))) {
        Request::Prompt { message, .. } => assert_eq!(message, "Search: "),
        _ => panic!("expected a prompt"),
    }
    app.resume(Reply::Input(None));
    assert_eq!(app.editors[0].status_msg, "Search cancelled");
}

#[test]
fn replace_all_flow() {
    let mut app = app_with("a cat and a cat");
    match app.handle_key(&ctrl('r')) {
        Request::Prompt { message, .. } => assert_eq!(message, "Search: "),
        _ => panic!("expected a prompt"),
    }
    match answer(&mut app, "cat") {
        Request::Prompt { message, .. } => assert_eq!(message, "Replace with: "),
        _ => panic!("expected a prompt"),
    }
    match answer(&mut app, "dog") {
        Request::Prompt { message, .. } => assert_eq!(message, "Replace all? (y/n): "),
        _ => panic!("expected a prompt"),
    }
    answer(&mut app, "Yes");
    assert_eq!(app.editors[0].lines, vec!["a dog and a dog".to_string()]);
    assert_eq!(app.editors[0].status_msg, "Replaced 2 occurrence(s)");
    assert_eq!(app.editors[0].search_term, "cat");
    assert!(app.editors[0].search_matches.is_empty());
}

#[test]
fn replace_declined_goes_to_match() {
    let mut app = app_with("a cat");
    app.handle_key(&ctrl('r'));
    answer(&mut app, "cat");
    answer(&mut app, "dog");
    answer(&mut app, "n");
    assert_eq!(app.editors[0].lines, vec!["a cat".to_string()]);
    assert_eq!(app.editors[0].cursor_col, 2);
}

#[test]
fn replace_cancelled_on_empty_term() {
    let mut app = app_with("a cat");
    app.handle_key(&ctrl('r'));
    answer(&mut app, "");
    assert_eq!(app.editors[0].status_msg, "Replace cancelled");
}

#[test]
fn goto_line_messages() {
    let mut app = app_with("1\n2\n3");
    app.handle_key(&ctrl('l'));
    answer(&mut app, "abc");
    assert_eq!(app.editors[0].status_msg, "Invalid line number");
    app.handle_key(&ctrl('l'));
    answer(&mut app, "0");
    assert_eq!(app.editors[0].status_msg, "Invalid line number");
    app.handle_key(&ctrl('l'));
    answer(&mut app, "7");
    assert_eq!(app.editors[0].status_msg, "Line 7 out of range");
    app.handle_key(&ctrl('l'));
    answer(&mut app, " 3 ");
    assert_eq!(app.editors[0].status_msg, "Jumped to line 3");
    assert_eq!(app.editors[0].cursor_row, 2);
    assert!(!app.editors[0].status_error);
}

#[test]
fn toggles_report_and_ask_to_store() {
    let mut app = new_app();
    assert!(matches!(app.handle_key(&alt('n')), Request::SaveConfig));
    assert!(!app.config.line_numbers);
    assert_eq!(app.editors[0].status_msg, "Line numbers off");
    app.handle_key(&alt('n'));
    assert!(app.config.line_numbers);
    assert_eq!(app.editors[0].status_msg, "Line numbers on");
    app.handle_key(&alt('w'));
    assert_eq!(app.editors[0].status_msg, "Word wrap on");
    app.handle_key(&alt('i'));
    assert_eq!(app.editors[0].status_msg, "Auto-indent off");
}

#[test]
fn tabs_new_next_prev_close() {
    let mut app = new_app();
    app.handle_key(&ctrl('t'));
    app.handle_key(&ctrl('t'));
    assert_eq!(app.editors.len(), 3);
    assert_eq!(app.active_tab, 2);
    app.handle_key(&alt('.'));
    assert_eq!(app.active_tab, 0);
    app.handle_key(&alt(','));
    assert_eq!(app.active_tab, 2);
    app.run_action(Action::CloseTab);
    assert_eq!(app.editors.len(), 2);
    assert_eq!(app.active_tab, 1);
}

#[test]
fn closing_last_tab_stops() {
    let mut app = new_app();
    app.run_action(Action::CloseTab);
    assert!(app.editors.is_empty());
    assert!(!app.running);
}

#[test]
fn closing_modified_tab_asks() {
    let mut app = new_app();
    app.handle_key(&ctrl('t'));
    type_text(&mut app, "x");
    match app.run_action(Action::CloseTab) {
        Request::Prompt { message, .. } => {
            assert_eq!(message, "Save before closing tab? (y/n/[cancel]): ")
        }
        _ => panic!("expected a prompt"),
    }
    answer(&mut app, "n");
    assert_eq!(app.editors.len(), 1);
    assert_eq!(app.active_tab, 0);
}

#[test]
fn open_file_reuses_pristine_tab() {
    let mut app = new_app();
    match app.handle_key(&alt('o')) {
        Request::FilePrompt { message, .. } => assert_eq!(message, "Open file: "),
        _ => panic!("expected a file prompt"),
    }
    match answer(&mut app, "b.txt") {
        Request::Open { path } => assert_eq!(path, "b.txt"),
        _ => panic!("expected an open request"),
    }
    app.resume(Reply::Opened(Some(Ok(b"hello\n".to_vec()))));
    assert_eq!(app.editors.len(), 1);
    assert_eq!(app.editors[0].lines, vec!["hello".to_string()]);
    assert_eq!(app.editors[0].filename.as_deref(), Some("b.txt"));
}

#[test]
fn open_file_adds_tab_when_current_is_used() {
    let mut app = new_app();
    type_text(&mut app, "x");
    app.handle_key(&alt('o'));
    answer(&mut app, "c.txt");
    app.resume(Reply::Opened(None));
    assert_eq!(app.editors.len(), 2);
    assert_eq!(app.active_tab, 1);
    assert_eq!(app.editors[1].status_msg, "New file: c.txt");
}

#[test]
fn help_action_asks_for_help_screen() {
    let mut app = new_app();
    assert!(matches!(app.handle_key(&ctrl('g')), Request::ShowHelp));
}

#[test]
fn undo_and_redo_keys() {
    let mut app = new_app();
    type_text(&mut app, "ab");
    app.handle_key(&ctrl('z'));
    assert_eq!(app.editors[0].lines, vec!["a".to_string()]);
    assert_eq!(app.editors[0].status_msg, "Undone");
    app.handle_key(&ctrl('y'));
    assert_eq!(app.editors[0].lines, vec!["ab".to_string()]);
}

#[test]
fn prepare_frame_scrolls_cursor_into_view() {
    let mut app = app_with("1\n2\n3\n4\n5\n6\n7\n8\n9\n10");
    let mut ev = key(Key::End);
    ev.ctrl = true;
    app.handle_key(&ev);
    assert!(app.prepare_frame(40, 8).is_ok());
    assert_eq!(app.term_h, 8);
    // Four rows of text: the last line is the last visible one.
    assert_eq!(app.editors[0].scroll_row, 6);
}

#[test]
fn text_height_saturates() {
    let mut app = new_app();
    app.term_h = 3;
    assert_eq!(app.text_height(), 0);
    app.term_h = 24;
    assert_eq!(app.text_height(), 20);
}

#[test]
fn render_too_small_draws_nothing() {
    let mut app = new_app();
    app.term_h = 4;
    assert!(matches!(app.render(), Ok(None)));
}

#[test]
fn render_lays_out_the_screen() {
    let mut app = app_with("hello");
    assert!(app.prepare_frame(40, 10).is_ok());
    let frame = app.render().ok().flatten().expect("a frame");
    assert_eq!(frame.rows.len(), 6);
    assert_eq!(frame.gutter_width, 2);
    assert_eq!(frame.rows[0].gutter, "1 ");
    assert!(frame.rows[1].tilde);
    assert_eq!(frame.status_row, 7);
    assert_eq!(frame.cursor, Some((2, 1)));
}
