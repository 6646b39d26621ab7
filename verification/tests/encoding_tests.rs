use nanolike::editor::Editor;

#[test]
fn open_utf8_with_bom_keeps_the_mark() {
    let bytes = vec![0xEF, 0xBB, 0xBF, b'h', b'i', b'\n'];
    let ed = Editor::open("a.txt".to_string(), Ok(bytes.clone()));
    assert_eq!(ed.lines, vec!["hi".to_string()]);
    assert_eq!(ed.encoding.name(), "UTF-8");
    assert!(ed.has_bom);
    assert_eq!(ed.status_msg, "Read 1 lines [UTF-8]");
    assert_eq!(ed.file_bytes(), bytes);
}

#[test]
fn open_utf16le_round_trips() {
    let bytes = vec![0xFF, 0xFE, b'h', 0, b'i', 0, b'\n', 0];
    let ed = Editor::open("a.txt".to_string(), Ok(bytes.clone()));
    assert_eq!(ed.lines, vec!["hi".to_string()]);
    assert_eq!(ed.encoding.name(), "UTF-16LE");
    assert!(ed.has_bom);
    assert_eq!(ed.file_bytes(), bytes);
}

#[test]
fn open_utf16be_round_trips() {
    let bytes = vec![0xFE, 0xFF, 0, b'h', 0, 0xE9, 0, b'\n'];
    let ed = Editor::open("a.txt".to_string(), Ok(bytes.clone()));
    assert_eq!(ed.lines, vec!["h\u{e9}".to_string()]);
    assert_eq!(ed.encoding.name(), "UTF-16BE");
    assert_eq!(ed.file_bytes(), bytes);
}

#[test]
fn open_single_byte_text_is_detected_and_saved_back() {
    let text = "Le caf\u{e9} est tr\u{e8}s bon \u{e0} Paris, et le th\u{e9} aussi.\n";
    let bytes: Vec<u8> = text.chars().map(|c| c as u32 as u8).collect();
    let ed = Editor::open("fr.txt".to_string(), Ok(bytes.clone()));
    assert_ne!(ed.encoding.name(), "UTF-8");
    assert!(!ed.has_bom);
    assert_eq!(ed.lines, vec![text.trim_end().to_string()]);
    assert_eq!(ed.file_bytes(), bytes);
}

#[test]
fn open_read_error_is_reported() {
    let ed = Editor::open("x.txt".to_string(), Err("permission denied".to_string()));
    assert_eq!(ed.lines, vec![String::new()]);
    assert_eq!(ed.status_msg, "Error: permission denied");
    assert!(ed.status_error);
    assert_eq!(ed.filename.as_deref(), Some("x.txt"));
}

#[test]
fn malformed_utf8_is_replaced_and_reported() {
    let bytes = vec![b'a', 0xC3, b'\n'];
    let ed = Editor::open("b.txt".to_string(), Ok(bytes));
    assert!(ed.status_error || ed.encoding.name() != "UTF-8");
}

#[test]
fn crlf_lines_lose_their_carriage_returns() {
    let ed = Editor::open("c.txt".to_string(), Ok(b"one\r\ntwo\r\n".to_vec()));
    assert_eq!(ed.lines, vec!["one".to_string(), "two".to_string()]);
}

#[test]
fn new_buffer_saves_as_plain_utf8() {
    let mut ed = Editor::new(None);
    ed.insert_str("\u{e9}t\u{e9}");
    assert_eq!(ed.file_bytes(), "\u{e9}t\u{e9}\n".as_bytes().to_vec());
}
