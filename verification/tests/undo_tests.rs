use nanolike::undo::{Snapshot, UndoStack, MAX_UNDO};

fn snap(lines: Vec<&str>, row: usize, col: usize) -> Snapshot {
    Snapshot {
        lines: lines.into_iter().map(|s| s.to_string()).collect(),
        cursor_row: row,
        cursor_col: col,
    }
}

#[test]
fn undostack_new_is_empty() {
    let us = UndoStack::new();
    assert!(!us._can_undo());
    assert!(!us._can_redo());
}

#[test]
fn undostack_push_enables_undo() {
    let mut us = UndoStack::new();
    us.push_edit(snap(vec!["hello"], 0, 0));
    assert!(us._can_undo());
    assert!(!us._can_redo());
}

#[test]
fn undostack_do_undo_returns_snapshot() {
    let mut us = UndoStack::new();
    let s = snap(vec!["original"], 0, 0);
    us.push_edit(s.clone());
    let restored = us.do_undo(snap(vec!["changed"], 0, 0)).unwrap();
    assert_eq!(restored.lines, vec!["original"]);
    assert!(us._can_redo());
    assert!(!us._can_undo());
}

#[test]
fn undostack_do_redo_returns_snapshot() {
    let mut us = UndoStack::new();
    us.push_edit(snap(vec!["original"], 0, 0));
    let current = snap(vec!["changed"], 0, 0);
    let _prev = us.do_undo(current).unwrap();
    let redone = us.do_redo(snap(vec!["original"], 0, 0)).unwrap();
    assert_eq!(redone.lines, vec!["changed"]);
}

#[test]
fn undostack_undo_empty_returns_none() {
    let mut us = UndoStack::new();
    assert!(us.do_undo(snap(vec!["x"], 0, 0)).is_none());
}

#[test]
fn undostack_redo_empty_returns_none() {
    let mut us = UndoStack::new();
    assert!(us.do_redo(snap(vec!["x"], 0, 0)).is_none());
}

#[test]
fn undostack_push_clears_redo() {
    let mut us = UndoStack::new();
    us.push_edit(snap(vec!["a"], 0, 0));
    us.do_undo(snap(vec!["b"], 0, 0)).unwrap();
    assert!(us._can_redo());
    us.push_edit(snap(vec!["c"], 0, 0));
    assert!(!us._can_redo());
}

#[test]
fn undostack_max_undo_evicts_oldest() {
    let mut us = UndoStack::new();
    for i in 0..=MAX_UNDO {
        us.push_edit(snap(vec![&format!("line {}", i)], 0, 0));
    }
    let mut count = 0;
    let mut current = snap(vec!["current"], 0, 0);
    while let Some(prev) = us.do_undo(current.clone()) {
        count += 1;
        current = prev;
    }
    assert_eq!(count, MAX_UNDO);
}

// ── further cases ─────────────────────────────────────────────────────────────

#[test]
fn oldest_snapshot_is_the_one_evicted() {
    let mut us = UndoStack::new();
    for i in 0..=MAX_UNDO {
        us.push_edit(snap(vec![&format!("line {}", i)], i, 0));
    }
    let mut last = None;
    let mut current = snap(vec!["current"], 0, 0);
    while let Some(prev) = us.do_undo(current.clone()) {
        current = prev.clone();
        last = Some(prev);
    }
    assert_eq!(last.unwrap().lines, vec!["line 1"]);
}

#[test]
fn undo_then_redo_returns_current_state() {
    let mut us = UndoStack::new();
    us.push_edit(snap(vec!["a"], 0, 1));
    let back = us.do_undo(snap(vec!["ab"], 0, 2)).unwrap();
    assert_eq!((back.lines.clone(), back.cursor_row, back.cursor_col), (vec!["a".to_string()], 0, 1));
    let fwd = us.do_redo(back).unwrap();
    assert_eq!((fwd.lines, fwd.cursor_row, fwd.cursor_col), (vec!["ab".to_string()], 0, 2));
    assert!(us._can_undo());
    assert!(!us._can_redo());
}

#[test]
fn redo_after_undo_restores_both_stacks() {
    let mut us = UndoStack::new();
    us.push_edit(snap(vec!["a"], 0, 0));
    us.push_edit(snap(vec!["ab"], 0, 1));
    let current = snap(vec!["abc"], 0, 2);
    let p = us.do_undo(current.clone()).unwrap();
    assert_eq!(p.lines, vec!["ab".to_string()]);
    let c = us.do_redo(p).unwrap();
    assert_eq!(c.lines, vec!["abc".to_string()]);
    assert_eq!((c.cursor_row, c.cursor_col), (0, 2));
    assert!(!us._can_redo());
    let top = us.do_undo(snap(vec!["x"], 0, 0)).unwrap();
    assert_eq!(top.lines, vec!["ab".to_string()]);
    let below = us.do_undo(snap(vec!["y"], 0, 0)).unwrap();
    assert_eq!(below.lines, vec!["a".to_string()]);
}
