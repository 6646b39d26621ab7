use nanolike::completion::{
    completion_query, completions_from, expand_tilde, sort_strings, str_le_exec,
};
use nanolike::config::{default_keybindings, Config, KeyBindings};
use nanolike::editor::Editor;
use nanolike::help::show_help;
use nanolike::keys::{Key, KeyInput};
use nanolike::prompt::{
    draw_completion_popup, fit_to, FilePrompt, FileStep, LinePrompt, PromptStep,
};
use nanolike::screen::{
    center_str, common_prefix, draw_help_bar, draw_status_bar, draw_tab_bar, line_number_width,
    popup_rows, truncate_chars, TabPiece, TabStyle,
};
use nanolike::text_area::{can_draw, cursor_place, draw_text_area, CellStyle};

fn key(code: Key) -> KeyInput {
    KeyInput { code, ctrl: false, alt: false, shift: false, release: false }
}

fn editor_with(text: &str) -> Editor {
    let mut ed = Editor::new(None);
    ed.lines = text.lines().map(|l| l.to_string()).collect();
    ed.saved_lines = ed.lines.clone();
    ed
}

fn strings(v: &[&str]) -> Vec<String> {
    v.iter().map(|s| s.to_string()).collect()
}

#[test]
fn gutter_width_counts_digits_plus_space() {
    let cfg = Config::default();
    let mut ed = editor_with("a");
    assert_eq!(line_number_width(&ed, &cfg), 2);
    ed.lines = vec![String::new(); 100];
    assert_eq!(line_number_width(&ed, &cfg), 4);
    let off = Config { line_numbers: false, ..Config::default() };
    assert_eq!(line_number_width(&ed, &off), 0);
}

#[test]
fn truncate_chars_counts_chars() {
    assert_eq!(truncate_chars("héllo", 2), "hé");
    assert_eq!(truncate_chars("hi", 10), "hi");
    assert_eq!(truncate_chars("hi", 0), "");
}

#[test]
fn center_str_pads_both_sides() {
    assert_eq!(center_str("ab", 6), "  ab  ");
    assert_eq!(center_str("ab", 5), " ab  ");
    assert_eq!(center_str("abcdef", 3), "abc");
}

#[test]
fn common_prefix_of_strings() {
    assert_eq!(common_prefix(&strings(&["src/main.rs", "src/mod.rs"])), "src/m");
    assert_eq!(common_prefix(&strings(&["abc"])), "abc");
    assert_eq!(common_prefix(&strings(&["abc", "xyz"])), "");
    assert_eq!(common_prefix(&[]), "");
    assert_eq!(common_prefix(&strings(&["héllo", "hél"])), "hél");
}

#[test]
fn popup_rows_adds_counter_line() {
    assert_eq!(popup_rows(0), 0);
    assert_eq!(popup_rows(5), 5);
    assert_eq!(popup_rows(8), 8);
    assert_eq!(popup_rows(9), 9);
    assert_eq!(popup_rows(30), 9);
}

#[test]
fn fit_to_cuts_or_pads() {
    assert_eq!(fit_to("abc", 5), "abc  ");
    assert_eq!(fit_to("abcdef", 4), "abcd");
}

#[test]
fn tab_bar_layout() {
    let mut a = Editor::new(Some("dir/main.rs".to_string()));
    a.modified = true;
    let b = Editor::new(None);
    let bar = draw_tab_bar(&vec![a, b], 1, 40);
    assert_eq!(bar.pieces.len(), 3);
    match &bar.pieces[0] {
        TabPiece::Tab { index, text, style } => {
            assert_eq!(*index, 0);
            assert_eq!(text, " *main.rs ");
            assert_eq!(*style, TabStyle::Modified);
        }
        _ => panic!("expected a tab"),
    }
    assert!(matches!(bar.pieces[1], TabPiece::Separator));
    match &bar.pieces[2] {
        TabPiece::Tab { text, style, .. } => {
            assert_eq!(text, "  New Buffer ");
            assert_eq!(*style, TabStyle::Active);
        }
        _ => panic!("expected a tab"),
    }
    assert!(bar.brand);
    let narrow = draw_tab_bar(&vec![Editor::new(None)], 0, 10);
    assert!(narrow.pieces.is_empty());
    assert!(!narrow.brand);
}

#[test]
fn status_bar_text() {
    let mut ed = editor_with("hello");
    ed.cursor_col = 2;
    ed.set_status("Saved".to_string(), false);
    let st = draw_status_bar(&ed, 40);
    assert_eq!(st.text, format!(" Saved{}{}", " ".repeat(13), " Ln 1, Col 3 | UTF-8 "));
    assert_eq!(st.message, " Saved");
    assert!(!st.error);
    let tiny = draw_status_bar(&ed, 10);
    assert_eq!(tiny.text, " Ln 1, Col");
    assert_eq!(tiny.message, "");
}

#[test]
fn help_bar_columns_align() {
    let kb = KeyBindings::new(default_keybindings());
    let (row1, row2) = draw_help_bar(&kb, 200);
    assert_eq!(row1.len(), 6);
    assert_eq!(row2.len(), 7);
    assert_eq!(row1[0].sep, " ");
    assert_eq!(row1[0].key, "ctrl+x");
    assert_eq!(row1[0].label, " Quit");
    assert_eq!(row2[0].key, "ctrl+k");
    assert_eq!(row2[0].label, " Cut");
    // Column 0 is as wide as its widest entry: "ctrl+x Quit" and "ctrl+k Cut".
    assert_eq!(row1[0].pad, 0);
    assert_eq!(row2[0].pad, 1);
    assert_eq!(row1[1].sep, "  \u{2502}  ");
    let (narrow, _) = draw_help_bar(&kb, 20);
    assert_eq!(narrow.len(), 1);
}

#[test]
fn line_prompt_edits() {
    let mut p = LinePrompt::new("Go to line: ", "1");
    assert!(matches!(p.key(&key(Key::Char('2'))), PromptStep::Editing));
    assert_eq!(p.buf, "12");
    p.key(&key(Key::Backspace));
    assert_eq!(p.buf, "1");
    let mut c = key(Key::Char('x'));
    c.ctrl = true;
    p.key(&c);
    assert_eq!(p.buf, "1");
    assert_eq!(p.line(20), "Go to line: 1       ");
    assert_eq!(p.cursor_x(20), 13);
    assert_eq!(p.cursor_x(5), 4);
    match p.key(&key(Key::Enter)) {
        PromptStep::Done(Some(a)) => assert_eq!(a, "1"),
        _ => panic!("expected an answer"),
    }
    assert!(matches!(p.key(&key(Key::Esc)), PromptStep::Done(None)));
}

#[test]
fn file_prompt_completes_and_cycles() {
    let mut p = FilePrompt::new("Open file: ", "s");
    match p.key(&key(Key::Tab)) {
        FileStep::Complete(partial) => assert_eq!(partial, "s"),
        _ => panic!("expected a completion request"),
    }
    p.completed(strings(&["src/", "setup.py"]));
    // Already at the common prefix: the popup opens.
    assert_eq!(p.buf, "s");
    assert!(p.show_popup);
    p.key(&key(Key::Tab));
    assert_eq!(p.buf, "src/");
    assert_eq!(p.cycle, Some(0));
    p.key(&key(Key::Tab));
    assert_eq!(p.buf, "setup.py");
    p.key(&key(Key::Tab));
    assert_eq!(p.buf, "s");
    assert_eq!(p.cycle, None);
    p.key(&key(Key::BackTab));
    assert_eq!(p.buf, "setup.py");
    p.key(&key(Key::Char('x')));
    assert!(p.completions.is_empty());
    assert!(!p.show_popup);
    assert_eq!(p.buf, "setup.pyx");
}

#[test]
fn file_prompt_single_completion_replaces_path() {
    let mut p = FilePrompt::new("Open file: ", "ma");
    p.key(&key(Key::Tab));
    p.completed(strings(&["main.rs"]));
    assert_eq!(p.buf, "main.rs");
    assert!(p.completions.is_empty());
}

#[test]
fn file_prompt_advances_to_common_prefix() {
    let mut p = FilePrompt::new("Open file: ", "s");
    p.key(&key(Key::Tab));
    p.completed(strings(&["src/a.rs", "src/b.rs"]));
    assert_eq!(p.buf, "src/");
    assert!(!p.show_popup);
}

#[test]
fn file_prompt_frame_draws_popup() {
    let mut p = FilePrompt::new("Open: ", "s");
    p.key(&key(Key::Tab));
    p.completed(strings(&["sa", "sb"]));
    let f = p.frame(10, 12);
    assert_eq!(f.line, "Open: s   ");
    assert_eq!(f.cursor_x, 7);
    assert_eq!(f.popup.len(), 2);
    assert_eq!(f.popup[0].row, 7);
    assert_eq!(f.popup[0].text, " sa       ");
    assert_eq!(f.clear, vec![7, 8]);
    assert_eq!(p.prev_popup_rows, 2);
}

#[test]
fn completion_popup_counter_and_scroll() {
    let cs: Vec<String> = (0..12).map(|i| format!("f{}", i)).collect();
    let lines = draw_completion_popup(&cs, Some(10), 20, 16);
    assert_eq!(lines.len(), 9);
    // Scrolled so that the selected one is the last shown.
    assert_eq!(lines[7].text.trim(), "f10");
    assert!(lines[7].selected);
    assert!(lines[8].counter);
    assert_eq!(lines[8].text.trim_end(), "  11/12 matches");
    assert_eq!(lines[8].row, 19);
    assert_eq!(lines[0].row, 11);
}

#[test]
fn completion_query_splits_path() {
    let q = completion_query("");
    assert_eq!((q.scan_dir.as_str(), q.name_prefix.as_str(), q.out_prefix.as_str()), (".", "", ""));
    let q = completion_query("src/");
    assert_eq!((q.scan_dir.as_str(), q.name_prefix.as_str(), q.out_prefix.as_str()), ("src", "", "src/"));
    let q = completion_query("///");
    assert_eq!(q.scan_dir, "/");
    let q = completion_query("src/ma");
    assert_eq!((q.scan_dir.as_str(), q.name_prefix.as_str(), q.out_prefix.as_str()), ("src", "ma", "src/"));
    let q = completion_query("ma");
    assert_eq!((q.scan_dir.as_str(), q.name_prefix.as_str(), q.out_prefix.as_str()), (".", "ma", ""));
}

#[test]
fn completions_filter_mark_dirs_and_sort() {
    let q = completion_query("src/m");
    let entries = vec![
        ("mod.rs".to_string(), false),
        ("lib.rs".to_string(), false),
        ("macros".to_string(), true),
        ("main.rs".to_string(), false),
    ];
    assert_eq!(
        completions_from(&q, &entries),
        strings(&["src/macros/", "src/main.rs", "src/mod.rs"])
    );
}

#[test]
fn sorting_orders_like_str() {
    let v = strings(&["b", "a", "ab", "B", "é", ""]);
    let mut expected = v.clone();
    expected.sort();
    assert_eq!(sort_strings(v), expected);
    assert!(str_le_exec("ab", "abc"));
    assert!(!str_le_exec("b", "abc"));
}

#[test]
fn tilde_expansion() {
    assert_eq!(expand_tilde("~/x", Some("/home/u")), "/home/u/x");
    assert_eq!(expand_tilde("~", Some("/home/u")), "/home/u");
    assert_eq!(expand_tilde("~x", Some("/home/u")), "~x");
    assert_eq!(expand_tilde("~/x", None), "~/x");
    assert_eq!(expand_tilde("a/~", Some("/h")), "a/~");
}

#[test]
fn help_screen_lists_bindings_in_name_order() {
    let kb = KeyBindings::new(default_keybindings());
    let s = show_help(&kb, 60, 100, "/c/config.json", "/c/keybindings.json");
    assert_eq!(s.title, center_str(" NanoLike Help ", 60));
    assert_eq!(s.footer.len(), 60);
    assert!(s.footer.starts_with(" Press any key to close "));
    assert_eq!(s.lines[1].trim_end(), "Keyboard Shortcuts:");
    assert_eq!(s.lines[2].chars().filter(|c| *c == '\u{2500}').count(), 50);
    // The first bound action by name is close_tab.
    assert_eq!(s.lines[4].trim_end(), format!("  {:<22} {}", "ctrl+w", "close tab"));
    let n = s.lines.len();
    assert_eq!(n, 4 + 31 + 4);
    assert_eq!(s.lines[n - 3].trim_end(), "Config:      /c/config.json");
    for l in &s.lines {
        assert_eq!(l.chars().count(), 60);
    }
    let short = show_help(&kb, 60, 6, "/c/config.json", "/c/keybindings.json");
    assert_eq!(short.lines.len(), 3);
}

#[test]
fn text_area_rows_and_highlights() {
    let mut ed = editor_with("hello\nworld");
    ed.selection_anchor = Some((0, 1));
    ed.cursor_col = 3;
    assert!(can_draw(&ed, 3));
    let rows = draw_text_area(&ed, 3, 10, 2, 12);
    assert_eq!(rows.len(), 3);
    assert_eq!(rows[0].gutter, "1 ");
    let styles: Vec<bool> = rows[0].cells.iter().map(|(_, s)| matches!(s, CellStyle::Selected)).collect();
    assert_eq!(styles, vec![false, true, true, false, false]);
    assert_eq!(rows[0].pad, 5);
    assert_eq!(rows[1].gutter, "2 ");
    assert!(rows[2].tilde);
    assert_eq!(rows[2].gutter, "  ");
    assert_eq!(rows[2].tail, 9);
}

#[test]
fn text_area_marks_search_matches() {
    let mut ed = editor_with("abcabc");
    ed.search_term = "bc".to_string();
    ed.build_search_matches();
    let rows = draw_text_area(&ed, 1, 10, 0, 10);
    let found: Vec<bool> = rows[0].cells.iter().map(|(_, s)| matches!(s, CellStyle::Found)).collect();
    assert_eq!(found, vec![false, true, true, false, true, true]);
}

#[test]
fn text_area_scrolls_horizontally() {
    let mut ed = editor_with("abcdef");
    ed.scroll_col = 2;
    let rows = draw_text_area(&ed, 1, 3, 0, 3);
    let chars: String = rows[0].cells.iter().map(|(c, _)| *c).collect();
    assert_eq!(chars, "cde");
    assert_eq!(rows[0].pad, 0);
}

#[test]
fn cursor_placement() {
    let mut ed = editor_with("héllo");
    ed.cursor_col = 3; // after "hé"
    assert_eq!(cursor_place(&ed, 2, 20, 10), Some((4, 1)));
    assert_eq!(cursor_place(&ed, 2, 4, 10), None);
    assert_eq!(cursor_place(&ed, 2, 20, 4), None);
}


#[test]
fn text_area_draws_selection_ending_inside_a_char() {
    // "é" is two bytes; an anchor left at byte 1 (as after an undo) ends the
    // selection inside it: the char whose start lies before the end is selected.
    let mut ed = editor_with("éa");
    ed.selection_anchor = Some((0, 1));
    ed.cursor_col = 0;
    assert!(can_draw(&ed, 1));
    let rows = draw_text_area(&ed, 1, 10, 0, 10);
    let styles: Vec<bool> = rows[0].cells.iter().map(|(_, s)| matches!(s, CellStyle::Selected)).collect();
    assert_eq!(styles, vec![true, false]);
}

#[test]
fn text_area_refuses_selection_starting_inside_a_char() {
    let mut ed = editor_with("éa");
    ed.selection_anchor = Some((0, 1));
    ed.cursor_col = 3;
    assert!(!can_draw(&ed, 1));
    // Two bytes or more past the end of the line cannot be walked either.
    let mut far = editor_with("ab\ncd");
    far.selection_anchor = Some((1, 4));
    far.cursor_col = 0;
    assert!(!can_draw(&far, 2));
    far.selection_anchor = Some((1, 3));
    assert!(can_draw(&far, 2));
}
