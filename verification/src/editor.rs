//! The text buffer of one tab: its lines, cursor, selection, clipboard, undo
//! history and search state, and the editing operations on them.
//!
//! Positions are a row and a byte offset into that row's UTF-8 encoding; the
//! model in [`EditState`] describes every operation over the chars of each
//! line and the char index that a byte offset stands for.
use crate::encoding::{
    TextEncoding, bom_encoding, bom_kind, bom_length, decode_with, decoded, detected_encoding,
    encode_file_bytes, file_bytes_for, guess_encoding, sniff_bom, utf8_encoding,
};
use crate::text::{
    NOT_WORD, leading_run, WHITESPACE, WORD, trailing_run, leading_ws, byte_len, byte_offset, char_index, char_width_of, chars_of, floor_index, index_of_offset,
    is_boundary, lemma_byte_offset_full, lemma_byte_offset_mono, lemma_byte_offset_step,
    lemma_floor_index, lemma_index_of_offset, push_all, utf8_len,
};
use crate::search::{occurs_folded_at, find_matches_in_line, matches_from, replace_from, replace_in_line};
use crate::text::{decimal, lowercase, push_decimal, to_lowercase};
use crate::undo::{HistoryView, SnapView, Snapshot, UndoStack, bounded_push, lines_view};
use vstd::prelude::*;

verus! {

/// The document: the chars of each line.
pub type Doc = Seq<Seq<char>>;

/// `(row, col)` names a line of `doc` and a char boundary of that line.
pub open spec fn valid_pos(doc: Doc, row: int, col: int) -> bool {
    0 <= row < doc.len() && is_boundary(doc[row], col)
}

/// Lines joined with newlines between them.
pub open spec fn join_lines(ls: Doc) -> Seq<char>
    decreases ls.len(),
{
    if ls.len() == 0 {
        Seq::empty()
    } else if ls.len() == 1 {
        ls[0]
    } else {
        join_lines(ls.drop_last()) + seq!['\n'] + ls.last()
    }
}

/// The pieces of `t` between newlines (`str::split('\n')`): one more piece than
/// `t` has newlines.
pub open spec fn split_nl(t: Seq<char>) -> Doc
    decreases t.len(),
{
    if t.len() == 0 {
        seq![Seq::<char>::empty()]
    } else {
        let p = split_nl(t.drop_last());
        if t.last() == '\n' {
            p.push(Seq::<char>::empty())
        } else {
            p.update(p.len() - 1, p.last().push(t.last()))
        }
    }
}

/// Replaces the text from char `k1` of line `r1` to char `k2` of line `r2` by
/// the lines `t` (at least one): the first of them continues line `r1`, the
/// last is continued by the rest of line `r2`.
pub open spec fn splice(doc: Doc, r1: int, k1: int, r2: int, k2: int, t: Doc) -> Doc {
    let head = doc[r1].take(k1);
    let tail = doc[r2].skip(k2);
    let n = t.len() as int;
    let mid = if n == 1 {
        seq![head + t[0] + tail]
    } else {
        seq![head + t[0]] + t.subrange(1, n - 1) + seq![t[n - 1] + tail]
    };
    doc.take(r1) + mid + doc.skip(r2 + 1)
}

/// The editing state that the operations change: document, cursor, selection
/// anchor, undo history, modified flag, and the document as last saved.
pub struct EditState {
    pub doc: Doc,
    pub row: usize,
    pub col: usize,
    pub anchor: Option<(usize, usize)>,
    pub history: HistoryView,
    pub modified: bool,
    pub saved: Doc,
}

/// `(r1, c1)` comes no later than `(r2, c2)` in the document.
pub open spec fn pos_le(a: (usize, usize), b: (usize, usize)) -> bool {
    a.0 < b.0 || (a.0 == b.0 && a.1 <= b.1)
}

/// The cursor is on a line and at a char boundary of it.
pub open spec fn cursor_valid(s: EditState) -> bool {
    valid_pos(s.doc, s.row as int, s.col as int)
}

/// The selection anchor, if any, is on a line and at a char boundary of it.
pub open spec fn anchor_valid(s: EditState) -> bool {
    match s.anchor {
        None => true,
        Some((r, c)) => valid_pos(s.doc, r as int, c as int),
    }
}

/// Cursor and anchor are both valid.
pub open spec fn state_ok(s: EditState) -> bool {
    cursor_valid(s) && anchor_valid(s)
}

/// Char index of the cursor in its line.
pub open spec fn cursor_index(s: EditState) -> int {
    char_index(s.doc[s.row as int], s.col as int)
}

/// The selection, start before end, when there is a non-empty one.
pub open spec fn selection_of(s: EditState) -> Option<((usize, usize), (usize, usize))> {
    match s.anchor {
        None => None,
        Some(a) => {
            let c = (s.row, s.col);
            if a == c {
                None
            } else if pos_le(a, c) {
                Some((a, c))
            } else {
                Some((c, a))
            }
        },
    }
}

/// The text between two positions, lines separated by newlines.
pub open spec fn text_between(doc: Doc, start: (usize, usize), end: (usize, usize)) -> Seq<char> {
    let ks = char_index(doc[start.0 as int], start.1 as int);
    let ke = char_index(doc[end.0 as int], end.1 as int);
    if start.0 == end.0 {
        doc[start.0 as int].subrange(ks, ke)
    } else {
        join_lines(
            seq![doc[start.0 as int].skip(ks)] + doc.subrange(start.0 + 1, end.0 as int) + seq![
                doc[end.0 as int].take(ke),
            ],
        )
    }
}

/// Records the current document and cursor as an undo step.
pub open spec fn save_undo_spec(s: EditState) -> EditState {
    EditState {
        history: (bounded_push(s.history.0, (s.doc, s.row, s.col)), Seq::empty()),
        ..s
    }
}

/// Deletes the selection, if there is one: the cursor goes to its start and the
/// anchor is cleared, after an undo step is recorded.
pub open spec fn delete_selection_spec(s: EditState) -> EditState {
    match selection_of(s) {
        None => s,
        Some((start, end)) => {
            let ks = char_index(s.doc[start.0 as int], start.1 as int);
            let ke = char_index(s.doc[end.0 as int], end.1 as int);
            EditState {
                doc: splice(s.doc, start.0 as int, ks, end.0 as int, ke, seq![Seq::empty()]),
                row: start.0,
                col: start.1,
                anchor: None,
                modified: true,
                ..save_undo_spec(s)
            }
        },
    }
}

/// Inserts the single-line text `t` at the cursor and moves the cursor past it.
pub open spec fn insert_at_cursor_spec(s: EditState, t: Seq<char>) -> EditState {
    let line = s.doc[s.row as int];
    let k = cursor_index(s);
    EditState {
        doc: s.doc.update(s.row as int, line.take(k) + t + line.skip(k)),
        col: (s.col + byte_len(t)) as usize,
        modified: true,
        ..save_undo_spec(s)
    }
}

/// Clamps a cursor into a document: an empty document gets one empty line, the
/// row is moved onto the last line if past it, and the column onto the nearest
/// char boundary at or before it, within the line.
pub open spec fn clamp_spec(doc: Doc, row: usize, col: usize) -> (Doc, usize, usize) {
    let d = if doc.len() == 0 {
        seq![Seq::<char>::empty()]
    } else {
        doc
    };
    let r = if row < d.len() {
        row
    } else {
        (d.len() - 1) as usize
    };
    let line = d[r as int];
    let c = if col <= byte_len(line) {
        col as int
    } else {
        byte_len(line) as int
    };
    (d, r, byte_offset(line, floor_index(line, c) as int) as usize)
}

/// Restores a snapshot: its document and its cursor (clamped); the document
/// counts as modified when it differs from the saved one.
pub open spec fn restore_spec(s: EditState, snap: SnapView, history: HistoryView) -> EditState {
    let (d, r, c) = clamp_spec(snap.0, snap.1, snap.2);
    EditState { doc: d, row: r, col: c, history: history, modified: d != s.saved, ..s }
}

/// Undo: restores the latest undo step, moving the current state to the redo stack.
pub open spec fn undo_spec(s: EditState) -> EditState {
    if s.history.0.len() == 0 {
        s
    } else {
        restore_spec(
            s,
            s.history.0.last(),
            (s.history.0.drop_last(), bounded_push(s.history.1, (s.doc, s.row, s.col))),
        )
    }
}

/// Redo: restores the latest redo step, moving the current state to the undo stack.
pub open spec fn redo_spec(s: EditState) -> EditState {
    if s.history.1.len() == 0 {
        s
    } else {
        restore_spec(
            s,
            s.history.1.last(),
            (bounded_push(s.history.0, (s.doc, s.row, s.col)), s.history.1.drop_last()),
        )
    }
}


/// Inserts a line break at the cursor; with `auto_indent` the new line starts
/// with the leading whitespace of the text before the cursor.
pub open spec fn insert_newline_spec(s: EditState, auto_indent: bool) -> EditState {
    let line = s.doc[s.row as int];
    let k = cursor_index(s);
    let before = line.take(k);
    let indent = if auto_indent {
        before.take(leading_ws(before) as int)
    } else {
        Seq::empty()
    };
    EditState {
        doc: s.doc.update(s.row as int, before).insert(s.row + 1, indent + line.skip(k)),
        row: (s.row + 1) as usize,
        col: byte_len(indent) as usize,
        modified: true,
        ..save_undo_spec(s)
    }
}

/// Backspace: deletes the selection if there is one, else the char before the
/// cursor, else joins the line to the previous one.
pub open spec fn backspace_spec(s: EditState) -> EditState {
    if selection_of(s) is Some {
        delete_selection_spec(s)
    } else if s.col > 0 {
        let line = s.doc[s.row as int];
        let k = cursor_index(s);
        EditState {
            doc: s.doc.update(s.row as int, line.take(k - 1) + line.skip(k)),
            col: byte_offset(line, k - 1) as usize,
            modified: true,
            ..save_undo_spec(s)
        }
    } else if s.row > 0 {
        let prev = s.doc[s.row - 1];
        EditState {
            doc: s.doc.update(s.row - 1, prev + s.doc[s.row as int]).remove(s.row as int),
            row: (s.row - 1) as usize,
            col: byte_len(prev) as usize,
            modified: true,
            ..save_undo_spec(s)
        }
    } else {
        s
    }
}

/// Delete: deletes the selection if there is one, else the char after the
/// cursor, else joins the next line to this one.
pub open spec fn delete_char_spec(s: EditState) -> EditState {
    if selection_of(s) is Some {
        delete_selection_spec(s)
    } else {
        let line = s.doc[s.row as int];
        let k = cursor_index(s);
        if k < line.len() {
            EditState {
                doc: s.doc.update(s.row as int, line.take(k) + line.skip(k + 1)),
                modified: true,
                ..save_undo_spec(s)
            }
        } else if s.row + 1 < s.doc.len() {
            EditState {
                doc: s.doc.update(s.row as int, line + s.doc[s.row + 1]).remove(s.row + 1),
                modified: true,
                ..save_undo_spec(s)
            }
        } else {
            s
        }
    }
}

/// Deletes from the cursor to the end of its line.
pub open spec fn delete_to_eol_spec(s: EditState) -> EditState {
    let line = s.doc[s.row as int];
    EditState {
        doc: s.doc.update(s.row as int, line.take(cursor_index(s))),
        modified: true,
        ..save_undo_spec(s)
    }
}

/// Cuts the cursor's line (no selection): removes it, keeping at least one
/// line, and clamps the cursor into what remains.
pub open spec fn cut_line_spec(s: EditState) -> EditState {
    let (d, r, c) = clamp_spec(s.doc.remove(s.row as int), s.row, s.col);
    EditState { doc: d, row: r, col: c, modified: true, ..save_undo_spec(s) }
}

/// Pastes `clip` at the cursor (after deleting the selection): its first line
/// continues the cursor's line, its last line is continued by the rest of it,
/// and the cursor ends after the pasted text.
pub open spec fn paste_spec(s: EditState, clip: Seq<char>) -> EditState {
    let s1 = delete_selection_spec(s);
    let parts = split_nl(clip);
    let k = cursor_index(s1);
    EditState {
        doc: splice(s1.doc, s1.row as int, k, s1.row as int, k, parts),
        row: (s1.row + parts.len() - 1) as usize,
        col: (if parts.len() == 1 {
            s1.col + byte_len(parts[0])
        } else {
            byte_len(parts.last()) as int
        }) as usize,
        modified: true,
        ..save_undo_spec(s1)
    }
}

/// Deletes backwards from the cursor: the whitespace just before it if there
/// is any, else the word chars just before it.
pub open spec fn delete_word_before_spec(s: EditState) -> EditState {
    if s.col == 0 {
        s
    } else {
        let line = s.doc[s.row as int];
        let k = cursor_index(s);
        let before = line.take(k);
        let ws = trailing_run(before, WHITESPACE);
        let e = if ws > 0 {
            k - ws
        } else {
            k - trailing_run(before, WORD)
        };
        EditState {
            doc: s.doc.update(s.row as int, line.take(e) + line.skip(k)),
            col: byte_offset(line, e) as usize,
            modified: true,
            ..save_undo_spec(s)
        }
    }
}

/// Number of chars of `line` whose byte offset is below `b`.
pub open spec fn chars_before(line: Seq<char>, b: int) -> int {
    if b <= 0 {
        0
    } else if floor_index(line, b - 1) + 1 <= line.len() {
        (floor_index(line, b - 1) + 1) as int
    } else {
        line.len() as int
    }
}

/// Byte column of char column `cc` in `line`, clamped to the end of the line.
pub open spec fn col_for_char(line: Seq<char>, cc: int) -> usize {
    byte_offset(line, if cc <= line.len() { cc } else { line.len() as int }) as usize
}

/// Cursor after moving one char left (to the end of the previous line from a line start).
pub open spec fn move_left_spec(doc: Doc, row: usize, col: usize) -> (usize, usize) {
    if col > 0 {
        (row, byte_offset(doc[row as int], char_index(doc[row as int], col as int) - 1) as usize)
    } else if row > 0 {
        ((row - 1) as usize, byte_len(doc[row - 1]) as usize)
    } else {
        (row, col)
    }
}

/// Cursor after moving one char right (to the start of the next line from a line end).
pub open spec fn move_right_spec(doc: Doc, row: usize, col: usize) -> (usize, usize) {
    let line = doc[row as int];
    if col < byte_len(line) {
        (row, byte_offset(line, char_index(line, col as int) + 1) as usize)
    } else if row + 1 < doc.len() {
        ((row + 1) as usize, 0usize)
    } else {
        (row, col)
    }
}

/// Cursor after moving to the start of the next word: past the word chars at
/// the cursor, then past the chars that are not word chars.
pub open spec fn next_word_col(line: Seq<char>, col: usize) -> usize {
    let i0 = chars_before(line, col as int);
    let i1 = i0 + leading_run(line.skip(i0), WORD);
    let i2 = i1 + leading_run(line.skip(i1), NOT_WORD);
    byte_offset(line, i2) as usize
}

/// Cursor after moving to the start of the previous word: back over the chars
/// that are not word chars, then over the word chars.
pub open spec fn prev_word_col(line: Seq<char>, col: usize) -> usize {
    let i0 = chars_before(line, col as int);
    let i1 = i0 - trailing_run(line.take(i0), NOT_WORD);
    let i2 = i1 - trailing_run(line.take(i1), WORD);
    if i2 < line.len() {
        byte_offset(line, i2) as usize
    } else {
        0
    }
}

/// Home: to the first non-whitespace char, or to the line start if already there.
pub open spec fn home_col(line: Seq<char>, col: usize) -> usize {
    let indent = byte_offset(line, leading_ws(line) as int) as usize;
    if col != indent {
        indent
    } else {
        0
    }
}

/// Matches of the (lowercased) term `t` in row `r` of `doc`, lowercased.
pub open spec fn row_matches(doc: Doc, t: Seq<char>, r: int) -> Seq<(usize, usize)> {
    matches_from(lowercase(doc[r]), t, 0).map_values(|c: usize| (r as usize, c))
}

/// Matches of `t` in the first `n` rows of `doc`, row by row.
pub open spec fn matches_upto(doc: Doc, t: Seq<char>, n: int) -> Seq<(usize, usize)>
    decreases n,
{
    if n <= 0 {
        Seq::empty()
    } else {
        matches_upto(doc, t, n - 1) + row_matches(doc, t, n - 1)
    }
}

/// Case-insensitive matches of `term` in `doc`: `(row, byte column)` of each, in
/// document order; none for an empty term.
pub open spec fn search_matches_for(doc: Doc, term: Seq<char>) -> Seq<(usize, usize)> {
    if term.len() == 0 {
        Seq::empty()
    } else {
        matches_upto(doc, lowercase(term), doc.len() as int)
    }
}

/// `a` comes strictly before `b`.
pub open spec fn pos_lt(a: (usize, usize), b: (usize, usize)) -> bool {
    a.0 < b.0 || (a.0 == b.0 && a.1 < b.1)
}

/// Index of the first match at or after `pos`, scanning from `i` (the length if none).
pub open spec fn first_at_or_after(ms: Seq<(usize, usize)>, pos: (usize, usize), i: int) -> int
    decreases ms.len() - i,
{
    if i < 0 || i >= ms.len() {
        ms.len() as int
    } else if pos_le(pos, ms[i]) {
        i
    } else {
        first_at_or_after(ms, pos, i + 1)
    }
}

/// Index of the last match before `pos` among the first `i` (-1 if none).
pub open spec fn last_before(ms: Seq<(usize, usize)>, pos: (usize, usize), i: int) -> int
    decreases i,
{
    if i <= 0 || i > ms.len() {
        -1
    } else if pos_lt(ms[i - 1], pos) {
        i - 1
    } else {
        last_before(ms, pos, i - 1)
    }
}

/// `Match <i>/<n>: <term>`.
pub open spec fn match_status(i: nat, n: nat, term: Seq<char>) -> Seq<char> {
    "Match "@ + decimal(i) + "/"@ + decimal(n) + ": "@ + term
}

/// The same, after wrapping around the document.
pub open spec fn wrapped_status(i: nat, n: nat, term: Seq<char>) -> Seq<char> {
    "Wrapped. "@ + match_status(i, n, term)
}

/// The lines after replacing every occurrence of `term` by `rep` in each.
pub open spec fn replaced_doc(doc: Doc, term: Seq<char>, rep: Seq<char>) -> Doc {
    doc.map_values(|l: Seq<char>| replace_from(l, term, rep, 0).0)
}

/// Number of occurrences of `term` replaced in the first `n` lines.
pub open spec fn replace_count(doc: Doc, term: Seq<char>, rep: Seq<char>, n: int) -> nat
    decreases n,
{
    if n <= 0 {
        0
    } else {
        replace_count(doc, term, rep, n - 1) + replace_from(doc[n - 1], term, rep, 0).1
    }
}

/// A piece without its final carriage return, if it has one.
pub open spec fn strip_cr(p: Seq<char>) -> Seq<char> {
    if p.len() > 0 && p.last() == '\r' {
        p.drop_last()
    } else {
        p
    }
}

/// The lines of `t` as `str::lines` gives them: split at newlines, each line
/// that ended in a newline loses a carriage return before it, and a final
/// newline does not start another line.
pub open spec fn text_lines(t: Seq<char>) -> Doc {
    let p = split_nl(t);
    let n = p.len() as int;
    let count = if p[n - 1].len() == 0 {
        n - 1
    } else {
        n
    };
    Seq::new(
        count as nat,
        |i: int|
            if i < n - 1 {
                strip_cr(p[i])
            } else {
                p[i]
            },
    )
}

/// The lines a file holds: those of its text, or one empty line if it has none.
pub open spec fn file_lines(t: Seq<char>) -> Doc {
    if text_lines(t).len() == 0 {
        seq![Seq::<char>::empty()]
    } else {
        text_lines(t)
    }
}

/// The encoding a file's bytes are read with: the one its byte-order mark
/// announces, else the one detected from its bytes.
pub open spec fn file_encoding(bytes: Seq<u8>) -> Seq<char> {
    if bom_kind(bytes) != 0 {
        bom_encoding(bom_kind(bytes))
    } else {
        detected_encoding(bytes)
    }
}

/// The file's text (after any byte-order mark) and whether decoding replaced
/// malformed sequences.
pub open spec fn file_text(bytes: Seq<u8>) -> (Seq<char>, bool) {
    let skip = if bom_kind(bytes) != 0 {
        bom_length(bom_kind(bytes)) as int
    } else {
        0
    };
    decoded(file_encoding(bytes), bytes.skip(skip))
}

/// Status after reading a file of `n` lines in encoding `enc`.
pub open spec fn read_status(n: nat, enc: Seq<char>, had_errors: bool) -> Seq<char> {
    "Read "@ + decimal(n) + " lines ["@ + enc + "]"@ + if had_errors {
        " (encoding errors; some chars replaced)"@
    } else {
        Seq::empty()
    }
}

/// What is written to the file: the lines joined with newlines, plus a final newline.
pub open spec fn file_content(doc: Doc) -> Seq<char> {
    join_lines(doc) + seq!['\n']
}

pub struct Editor {
    pub lines: Vec<String>,
    /// Byte offset of the cursor in the current line.
    pub cursor_row: usize,
    pub cursor_col: usize,
    /// First visible row / first visible char-column.
    pub scroll_row: usize,
    pub scroll_col: usize,
    pub filename: Option<String>,
    pub modified: bool,
    pub status_msg: String,
    pub status_error: bool,
    pub clipboard: String,
    pub selection_anchor: Option<(usize, usize)>,
    pub undo_stack: UndoStack,
    pub saved_lines: Vec<String>,
    pub search_term: String,
    /// (row, byte_col) of each match start.
    pub search_matches: Vec<(usize, usize)>,
    pub search_idx: usize,
    /// The encoding detected when the file was opened (UTF-8 for new files).
    pub encoding: TextEncoding,
    /// Whether the file had a byte-order mark; preserved on save.
    pub has_bom: bool,
}

pub proof fn lemma_lines_view_update(v: Seq<String>, i: int, s: String)
    requires
        0 <= i < v.len(),
    ensures
        lines_view(v.update(i, s)) == lines_view(v).update(i, s@),
{
    assert(lines_view(v.update(i, s)) =~= lines_view(v).update(i, s@));
}

/// Clones every line.
pub fn clone_lines(v: &Vec<String>) -> (r: Vec<String>)
    ensures
        lines_view(r@) == lines_view(v@),
{
    let mut r: Vec<String> = Vec::new();
    let mut i: usize = 0;
    while i < v.len()
        invariant
            i <= v.len(),
            lines_view(r@) == lines_view(v@.take(i as int)),
        decreases v.len() - i,
    {
        let c = v[i].clone();
        let ghost r0 = r@;
        r.push(c);
        assert(lines_view(r@) =~= lines_view(r0).push(v@[i as int]@));
        assert(lines_view(v@.take(i + 1)) =~= lines_view(v@.take(i as int)).push(v@[i as int]@));
        i = i + 1;
    }
    assert(v@.take(v.len() as int) =~= v@);
    r
}

/// Equality of two line vectors, line by line.
pub fn same_lines(a: &Vec<String>, b: &Vec<String>) -> (r: bool)
    ensures
        r == (lines_view(a@) == lines_view(b@)),
{
    if a.len() != b.len() {
        assert(lines_view(a@).len() != lines_view(b@).len());
        return false;
    }
    let mut i: usize = 0;
    while i < a.len()
        invariant
            a.len() == b.len(),
            i <= a.len(),
            forall|j: int| 0 <= j < i ==> a@[j]@ == b@[j]@,
        decreases a.len() - i,
    {
        if a[i] != b[i] {
            assert(lines_view(a@)[i as int] != lines_view(b@)[i as int]);
            return false;
        }
        i = i + 1;
    }
    assert(lines_view(a@) =~= lines_view(b@));
    true
}

/// The chars of each vector.
pub open spec fn vecs_view(v: Seq<Vec<char>>) -> Doc {
    v.map_values(|x: Vec<char>| x@)
}

/// Splits `v` at its newlines (see [`split_nl`]).
pub fn split_newlines(v: &Vec<char>) -> (r: Vec<Vec<char>>)
    ensures
        r.len() == split_nl(v@).len(),
        forall|i: int| 0 <= i < r.len() ==> #[trigger] r@[i]@ == split_nl(v@)[i],
        r.len() >= 1,
{
    let mut parts: Vec<Vec<char>> = Vec::new();
    let mut cur: Vec<char> = Vec::new();
    let mut i: usize = 0;
    assert(v@.take(0) =~= Seq::<char>::empty());
    assert(vecs_view(parts@).push(cur@) =~= split_nl(v@.take(0)));
    while i < v.len()
        invariant
            i <= v.len(),
            vecs_view(parts@).push(cur@) == split_nl(v@.take(i as int)),
        decreases v.len() - i,
    {
        let c = v[i];
        let ghost p0 = vecs_view(parts@);
        let ghost c0 = cur@;
        assert(v@.take(i + 1).drop_last() =~= v@.take(i as int));
        if c == '\n' {
            let done = cur;
            parts.push(done);
            cur = Vec::new();
            assert(vecs_view(parts@) =~= p0.push(c0));
            assert(vecs_view(parts@).push(cur@) =~= split_nl(v@.take(i + 1)));
        } else {
            cur.push(c);
            assert(vecs_view(parts@).push(cur@) =~= p0.push(c0).update(p0.len() as int, c0.push(c)));
        }
        i = i + 1;
    }
    let ghost p0 = vecs_view(parts@);
    let ghost c0 = cur@;
    parts.push(cur);
    assert(v@.take(v.len() as int) =~= v@);
    assert forall|i: int| 0 <= i < parts.len() implies #[trigger] parts@[i]@ == split_nl(v@)[i] by {
        assert(vecs_view(parts@) =~= p0.push(c0));
        assert(vecs_view(parts@)[i] == parts@[i]@);
    }
    parts
}

/// Replacement counts grow with the number of lines counted.
pub proof fn lemma_replace_count_mono(doc: Doc, term: Seq<char>, rep: Seq<char>, i: int, j: int)
    requires
        0 <= i <= j,
    ensures
        replace_count(doc, term, rep, i) <= replace_count(doc, term, rep, j),
    decreases j - i,
{
    if i < j {
        lemma_replace_count_mono(doc, term, rep, i, j - 1);
    }
}

/// With no occurrence replaced, the rest of a line comes out unchanged.
pub proof fn lemma_replace_none(line: Seq<char>, term: Seq<char>, rep: Seq<char>, k: int)
    requires
        0 <= k <= line.len(),
        replace_from(line, term, rep, k).1 == 0,
    ensures
        replace_from(line, term, rep, k).0 == line.skip(k),
    decreases line.len() - k,
{
    if term.len() == 0 || k >= line.len() {
    } else if occurs_folded_at(line, term, k) {
    } else {
        lemma_replace_none(line, term, rep, k + 1);
        assert(seq![line[k]] + line.skip(k + 1) =~= line.skip(k));
    }
}

/// Index of the first match at or after `pos` (the number of matches if none).
fn first_match_at_or_after(ms: &Vec<(usize, usize)>, pos: (usize, usize)) -> (i: usize)
    ensures
        i == first_at_or_after(ms@, pos, 0),
{
    let n = ms.len();
    let mut i: usize = 0;
    while i < n
        invariant
            n == ms@.len(),
            i <= n,
            first_at_or_after(ms@, pos, i as int) == first_at_or_after(ms@, pos, 0),
        decreases n - i,
    {
        let (row, col) = ms[i];
        if pos.0 < row || (pos.0 == row && pos.1 <= col) {
            return i;
        }
        i = i + 1;
    }
    n
}

pub proof fn lemma_last_before_bound(ms: Seq<(usize, usize)>, pos: (usize, usize), i: int)
    ensures
        last_before(ms, pos, i) < i || last_before(ms, pos, i) == -1,
        last_before(ms, pos, i) >= -1,
    decreases i,
{
    if i > 0 && i <= ms.len() && !pos_lt(ms[i - 1], pos) {
        lemma_last_before_bound(ms, pos, i - 1);
    }
}

/// Index of the last match before `pos` (the number of matches if none).
fn last_match_before(ms: &Vec<(usize, usize)>, pos: (usize, usize)) -> (i: usize)
    ensures
        last_before(ms@, pos, ms@.len() as int) >= 0 ==> i == last_before(ms@, pos, ms@.len() as int),
        last_before(ms@, pos, ms@.len() as int) < 0 ==> i == ms@.len(),
        last_before(ms@, pos, ms@.len() as int) < ms@.len(),
{
    proof {
        lemma_last_before_bound(ms@, pos, ms@.len() as int);
    }
    let n = ms.len();
    let mut i: usize = n;
    while i > 0
        invariant
            n == ms@.len(),
            i <= n,
            last_before(ms@, pos, i as int) == last_before(ms@, pos, n as int),
        decreases i,
    {
        let (row, col) = ms[i - 1];
        if row < pos.0 || (row == pos.0 && col < pos.1) {
            return i - 1;
        }
        i = i - 1;
    }
    n
}

/// The lines joined with newlines, plus a final newline.
pub fn join_with_newlines(lines: &Vec<String>) -> (s: String)
    ensures
        s@ == file_content(lines_view(lines@)),
{
    let ghost d = lines_view(lines@);
    let mut s = String::new();
    let mut i: usize = 0;
    while i < lines.len()
        invariant
            d == lines_view(lines@),
            i <= lines.len(),
            s@ == join_lines(d.take(i as int)),
        decreases lines.len() - i,
    {
        let ghost s0 = d.take(i as int);
        if i > 0 {
            crate::text::push_char(&mut s, '\n');
        }
        push_all(&mut s, lines[i].as_str());
        proof {
            let s1 = d.take(i + 1);
            assert(s1.drop_last() =~= s0);
            if i == 0 {
                assert(s1 =~= seq![d[0]]);
            }
        }
        i = i + 1;
    }
    assert(d.take(lines.len() as int) =~= d);
    crate::text::push_char(&mut s, '\n');
    s
}

/// The lines of `text` (see [`file_lines`]).
pub fn lines_of_text(text: &str) -> (lines: Vec<String>)
    ensures
        lines_view(lines@) == file_lines(text@),
{
    let chars = chars_of(text);
    let parts = split_newlines(&chars);
    let ghost p = split_nl(text@);
    let n = parts.len();
    let count = if parts[n - 1].len() == 0 {
        n - 1
    } else {
        n
    };
    let mut lines: Vec<String> = Vec::new();
    let mut i: usize = 0;
    while i < count
        invariant
            count <= n,
            n == p.len(),
            n == parts.len(),
            forall|j: int| 0 <= j < n ==> #[trigger] parts@[j]@ == p[j],
            i <= count,
            lines_view(lines@) == text_lines(text@).take(i as int),
            count == text_lines(text@).len(),
            p == split_nl(text@),
            n >= 1,
        decreases count - i,
    {
        let part = &parts[i];
        let end = if i < n - 1 && part.len() > 0 && part[part.len() - 1] == '\r' {
            part.len() - 1
        } else {
            part.len()
        };
        let line = crate::text::string_from_range(part, 0, end);
        let ghost l0 = lines_view(lines@);
        lines.push(line);
        proof {
            assert(part@ == p[i as int]);
            assert(p == split_nl(text@));
            assert(text_lines(text@)[i as int] == if i < n - 1 { strip_cr(p[i as int]) } else { p[i as int] });
            assert(part@.subrange(0, end as int) =~= text_lines(text@)[i as int]);
            assert(lines_view(lines@) =~= l0.push(line@));
            assert(text_lines(text@).take(i + 1) =~= text_lines(text@).take(i as int).push(
                text_lines(text@)[i as int],
            ));
        }
        i = i + 1;
    }
    assert(text_lines(text@).take(count as int) =~= text_lines(text@));
    if lines.len() == 0 {
        lines.push(String::new());
        assert(lines_view(lines@) =~= seq![Seq::<char>::empty()]);
    }
    lines
}

impl Editor {
    /// The editing state of this buffer.
    pub open spec fn state(&self) -> EditState {
        EditState {
            doc: lines_view(self.lines@),
            row: self.cursor_row,
            col: self.cursor_col,
            anchor: self.selection_anchor,
            history: self.undo_stack@,
            modified: self.modified,
            saved: lines_view(self.saved_lines@),
        }
    }

    /// The chars of each line.
    pub open spec fn doc(&self) -> Doc {
        lines_view(self.lines@)
    }

    /// Cursor and selection anchor are both at char boundaries of existing lines.
    pub open spec fn ok(&self) -> bool {
        state_ok(self.state())
    }

    /// The fields that no editing operation changes are those of `o`.
    pub open spec fn same_aside(&self, o: &Editor) -> bool {
        &&& self.scroll_row == o.scroll_row
        &&& self.scroll_col == o.scroll_col
        &&& self.filename == o.filename
        &&& self.search_term == o.search_term
        &&& self.search_matches == o.search_matches
        &&& self.search_idx == o.search_idx
        &&& self.encoding == o.encoding
        &&& self.has_bom == o.has_bom
    }

    /// Lines, cursor, anchor, history, modified flag and saved lines are those of `o`.
    pub open spec fn same_text(&self, o: &Editor) -> bool {
        &&& self.lines == o.lines
        &&& self.cursor_row == o.cursor_row
        &&& self.cursor_col == o.cursor_col
        &&& self.selection_anchor == o.selection_anchor
        &&& self.undo_stack == o.undo_stack
        &&& self.modified == o.modified
        &&& self.saved_lines == o.saved_lines
    }

    /// Everything but the cursor is that of `o`.
    pub open spec fn same_but_cursor(&self, o: &Editor) -> bool {
        &&& self.lines == o.lines
        &&& self.selection_anchor == o.selection_anchor
        &&& self.undo_stack == o.undo_stack
        &&& self.modified == o.modified
        &&& self.saved_lines == o.saved_lines
        &&& self.same_aside(o)
        &&& self.status_msg == o.status_msg
        &&& self.status_error == o.status_error
        &&& self.clipboard == o.clipboard
    }

    /// What a buffer made by `new` holds.
    pub open spec fn new_post(ed: &Editor, filename: Option<String>) -> bool {
        &&& ed.doc() == seq![Seq::<char>::empty()]
        &&& lines_view(ed.saved_lines@) == seq![Seq::<char>::empty()]
        &&& ed.cursor_row == 0 && ed.cursor_col == 0
        &&& ed.scroll_row == 0 && ed.scroll_col == 0
        &&& ed.filename == filename
        &&& !ed.modified
        &&& ed.selection_anchor is None
        &&& ed.undo_stack@.0.len() == 0 && ed.undo_stack@.1.len() == 0
        &&& ed.clipboard@ == Seq::<char>::empty()
        &&& ed.search_term@ == Seq::<char>::empty()
        &&& (ed.search_matches@.len() == 0)
        &&& ed.search_idx == 0
        &&& ed.encoding@ == "UTF-8"@
        &&& !ed.has_bom
        &&& !ed.status_error
        &&& (filename is None ==> ed.status_msg@ == Seq::<char>::empty())
        &&& (filename matches Some(f) ==> ed.status_msg@ == "New file: "@ + f@)
        &&& cursor_valid(ed.state())
    }

    /// A new, empty buffer.  With a file name (of a file that does not exist
    /// yet) the status says it is a new file.
    pub fn new(filename: Option<String>) -> (ed: Self)
        ensures
            Self::new_post(&ed, filename),
    {
        let mut lines: Vec<String> = Vec::new();
        lines.push(String::new());
        let mut saved: Vec<String> = Vec::new();
        saved.push(String::new());
        let mut status = String::new();
        match &filename {
            Some(f) => {
                status = String::from_str("New file: ");
                push_all(&mut status, f.as_str());
            },
            None => {},
        }
        let ed = Editor {
            lines,
            cursor_row: 0,
            cursor_col: 0,
            scroll_row: 0,
            scroll_col: 0,
            filename,
            modified: false,
            status_msg: status,
            status_error: false,
            clipboard: String::new(),
            selection_anchor: None,
            undo_stack: UndoStack::new(),
            saved_lines: saved,
            search_term: String::new(),
            search_matches: Vec::new(),
            search_idx: 0,
            encoding: utf8_encoding(),
            has_bom: false,
        };
        assert(ed.doc() =~= seq![Seq::<char>::empty()]);
        assert(lines_view(ed.saved_lines@) =~= seq![Seq::<char>::empty()]);
        proof {
            crate::text::lemma_ends_are_boundaries(ed.doc()[0]);
        }
        ed
    }

    /// How the buffer after `set_status` relates to the one before.
    pub open spec fn set_status_post(old: &Editor, new: &Editor, msg: String, error: bool) -> bool {
        &&& new.status_msg == msg
        &&& new.status_error == error
        &&& new.same_text(old)
        &&& new.same_aside(old)
        &&& new.clipboard == old.clipboard
    }

    /// Sets the status message and whether it reports an error.
    pub fn set_status(&mut self, msg: String, error: bool)
        ensures
            Self::set_status_post(old(self), final(self), msg, error),
    {
        self.status_msg = msg;
        self.status_error = error;
    }

    fn set_status_str(&mut self, msg: &str, error: bool)
        ensures
            final(self).status_msg@ == msg@,
            final(self).status_error == error,
            final(self).same_text(old(self)),
            final(self).same_aside(old(self)),
            final(self).clipboard == old(self).clipboard,
    {
        self.status_msg = String::from_str(msg);
        self.status_error = error;
    }

    fn snapshot(&self) -> (s: Snapshot)
        ensures
            s@ == (self.doc(), self.cursor_row, self.cursor_col),
    {
        Snapshot {
            lines: clone_lines(&self.lines),
            cursor_row: self.cursor_row,
            cursor_col: self.cursor_col,
        }
    }

    fn save_undo(&mut self)
        ensures
            final(self).state() == save_undo_spec(old(self).state()),
            final(self).same_aside(old(self)),
            final(self).status_msg == old(self).status_msg,
            final(self).status_error == old(self).status_error,
            final(self).clipboard == old(self).clipboard,
    {
        let snap = self.snapshot();
        self.undo_stack.push_edit(snap);
    }

    /// How the buffer after `clamp_cursor` relates to the one before.
    pub open spec fn clamp_cursor_post(old: &Editor, new: &Editor) -> bool {
        &&& (new.doc(), new.cursor_row, new.cursor_col) == clamp_spec(
            old.doc(),
            old.cursor_row,
            old.cursor_col,
        )
        &&& new.selection_anchor == old.selection_anchor
        &&& new.undo_stack == old.undo_stack
        &&& new.modified == old.modified
        &&& new.saved_lines == old.saved_lines
        &&& new.same_aside(old)
        &&& new.status_msg == old.status_msg
        &&& new.status_error == old.status_error
        &&& new.clipboard == old.clipboard
        &&& cursor_valid(new.state())
    }

    /// Clamps the cursor into the document (adding an empty line to an empty
    /// document), onto a char boundary at or before it.
    pub fn clamp_cursor(&mut self)
        ensures
            Self::clamp_cursor_post(old(self), final(self)),
    {
        if self.lines.len() == 0 {
            self.lines.push(String::new());
            assert(self.doc() =~= seq![Seq::<char>::empty()]);
        }
        if self.cursor_row >= self.lines.len() {
            self.cursor_row = self.lines.len() - 1;
        }
        let chars = chars_of(self.lines[self.cursor_row].as_str());
        let len = utf8_len(self.lines[self.cursor_row].as_str());
        let target = if self.cursor_col <= len {
            self.cursor_col
        } else {
            len
        };
        let ghost line = chars@;
        // Walk forward while the next char still ends at or before the target.
        let mut k: usize = 0;
        let mut off: usize = 0;
        let mut done = false;
        proof {
            assert(line.take(0) =~= Seq::<char>::empty());
            lemma_byte_offset_full(line);
        }
        while k < chars.len() && !done
            invariant
                chars@ == line,
                k <= chars.len(),
                off == byte_offset(line, k as int),
                off <= target,
                target <= byte_len(line),
                byte_len(line) <= usize::MAX,
                done ==> k < line.len() && byte_offset(line, k + 1) > target,
            decreases chars.len() - k + (if done { 0int } else { 1int }),
        {
            proof {
                lemma_byte_offset_step(line, k as int);
                lemma_byte_offset_mono(line, k + 1, line.len() as int);
                lemma_byte_offset_full(line);
            }
            let w = char_width_of(chars[k]);
            if w > target - off {
                done = true;
            } else {
                off = off + w;
                k = k + 1;
            }
        }
        proof {
            lemma_floor_index(line, target as int);
            let f = floor_index(line, target as int) as int;
            if k < line.len() {
                assert(byte_offset(line, k + 1) > target);
            } else {
                lemma_byte_offset_full(line);
            }
            // k is the floor index: its offset is within the target, the next is past it.
            if f < k {
                assert(byte_offset(line, k as int) > target);
            }
            if f > k {
                lemma_byte_offset_mono(line, k + 1, f);
            }
            assert(f == k);
            lemma_index_of_offset(line, k as int);
        }
        self.cursor_col = off;
    }

    /// Number of chars (not bytes) before the cursor on the current line.
    pub fn cursor_char_col(&self) -> (n: usize)
        requires
            cursor_valid(self.state()),
        ensures
            n == cursor_index(self.state()),
    {
        let chars = chars_of(self.lines[self.cursor_row].as_str());
        match index_of_offset(&chars, self.cursor_col) {
            Some(k) => k,
            None => 0,
        }
    }

    // ── Selection ────────────────────────────────────────────────────────────

    pub fn has_selection(&self) -> (b: bool)
        ensures
            b == selection_of(self.state()) is Some,
    {
        match self.selection_anchor {
            Some((ar, ac)) => ar != self.cursor_row || ac != self.cursor_col,
            None => false,
        }
    }

    /// Returns `Some((start, end))` in document order if a non-empty selection
    /// exists, where each end is `(row, byte_col)`.
    pub fn selection_ordered(&self) -> (r: Option<((usize, usize), (usize, usize))>)
        ensures
            r == selection_of(self.state()),
    {
        let (ar, ac) = match self.selection_anchor {
            Some(a) => a,
            None => {
                return None;
            },
        };
        let (cr, cc) = (self.cursor_row, self.cursor_col);
        if ar == cr && ac == cc {
            return None;
        }
        if ar < cr || (ar == cr && ac <= cc) {
            Some(((ar, ac), (cr, cc)))
        } else {
            Some(((cr, cc), (ar, ac)))
        }
    }

    fn apply_snapshot(&mut self, snap: Snapshot)
        ensures
            final(self).state() == restore_spec(old(self).state(), snap@, old(self).undo_stack@),
            cursor_valid(final(self).state()),
            final(self).same_aside(old(self)),
            final(self).status_msg == old(self).status_msg,
            final(self).status_error == old(self).status_error,
            final(self).clipboard == old(self).clipboard,
    {
        self.lines = snap.lines;
        self.cursor_row = snap.cursor_row;
        self.cursor_col = snap.cursor_col;
        self.clamp_cursor();
        self.modified = !same_lines(&self.lines, &self.saved_lines);
    }

    /// How the buffer after `do_undo` relates to the one before.
    pub open spec fn do_undo_post(old: &Editor, new: &Editor) -> bool {
        &&& new.state() == undo_spec(old.state())
        &&& (old.state().history.0.len() == 0 ==> new.status_msg@ == "Nothing to undo"@)
        &&& (old.state().history.0.len() > 0 ==> new.status_msg@ == "Undone"@)
        &&& !new.status_error
        &&& new.same_aside(old)
        &&& new.clipboard == old.clipboard
        &&& (cursor_valid(old.state()) ==> cursor_valid(new.state()))
    }

    /// Undo: restores the state before the latest change, if there is one.
    pub fn do_undo(&mut self)
        ensures
            Self::do_undo_post(old(self), final(self)),
    {
        let current = self.snapshot();
        match self.undo_stack.do_undo(current) {
            Some(prev) => {
                self.apply_snapshot(prev);
                self.set_status_str("Undone", false);
            },
            None => self.set_status_str("Nothing to undo", false),
        }
    }

    /// How the buffer after `do_redo` relates to the one before.
    pub open spec fn do_redo_post(old: &Editor, new: &Editor) -> bool {
        &&& new.state() == redo_spec(old.state())
        &&& (old.state().history.1.len() == 0 ==> new.status_msg@ == "Nothing to redo"@)
        &&& (old.state().history.1.len() > 0 ==> new.status_msg@ == "Redone"@)
        &&& !new.status_error
        &&& new.same_aside(old)
        &&& new.clipboard == old.clipboard
        &&& (cursor_valid(old.state()) ==> cursor_valid(new.state()))
    }

    /// Redo: restores the state before the latest undo, if there is one.
    pub fn do_redo(&mut self)
        ensures
            Self::do_redo_post(old(self), final(self)),
    {
        let current = self.snapshot();
        match self.undo_stack.do_redo(current) {
            Some(next) => {
                self.apply_snapshot(next);
                self.set_status_str("Redone", false);
            },
            None => self.set_status_str("Nothing to redo", false),
        }
    }

    /// The selected text (empty without a selection); lines are joined with newlines.
    pub fn get_selected_text(&self) -> (r: String)
        requires
            state_ok(self.state()),
        ensures
            r@ == match selection_of(self.state()) {
                None => Seq::<char>::empty(),
                Some((start, end)) => text_between(self.doc(), start, end),
            },
    {
        let ((sr, sc), (er, ec)) = match self.selection_ordered() {
            Some(sel) => sel,
            None => {
                return String::new();
            },
        };
        let ghost doc = self.doc();
        let first = chars_of(self.lines[sr].as_str());
        let last = chars_of(self.lines[er].as_str());
        let ks = match index_of_offset(&first, sc) {
            Some(k) => k,
            None => 0,
        };
        let ke = match index_of_offset(&last, ec) {
            Some(k) => k,
            None => 0,
        };
        if sr == er {
            proof {
                if ks > ke {
                    lemma_byte_offset_mono(first@, ke as int, ks as int);
                }
            }
            return crate::text::string_from_range(&first, ks, ke);
        }
        let mut out = crate::text::string_from_range(&first, ks, first.len());
        let ghost head = seq![doc[sr as int].skip(ks as int)];
        assert(first@.subrange(ks as int, first.len() as int) =~= doc[sr as int].skip(ks as int));
        assert(join_lines(head + doc.subrange(sr + 1, sr + 1)) == out@) by {
            assert(head + doc.subrange(sr + 1, sr + 1) =~= head);
        }
        let mut row = sr + 1;
        while row < er
            invariant
                sr < row <= er < doc.len(),
                doc == self.doc(),
                head.len() == 1,
                out@ == join_lines(head + doc.subrange(sr + 1, row as int)),
            decreases er - row,
        {
            let ghost before = head + doc.subrange(sr + 1, row as int);
            crate::text::push_char(&mut out, '\n');
            push_all(&mut out, self.lines[row].as_str());
            proof {
                let after = head + doc.subrange(sr + 1, row + 1);
                assert(after.drop_last() =~= before);
                assert(after.last() == doc[row as int]);
                assert(out@ =~= join_lines(after));
            }
            row = row + 1;
        }
        crate::text::push_char(&mut out, '\n');
        crate::text::push_range(&mut out, &last, 0, ke);
        proof {
            let before = head + doc.subrange(sr + 1, er as int);
            let all = before + seq![doc[er as int].take(ke as int)];
            assert(all.drop_last() =~= before);
            assert(last@.subrange(0, ke as int) =~= doc[er as int].take(ke as int));
            assert(out@ =~= join_lines(all));
        }
        out
    }

    /// The chars of line `row`.
    fn line_chars(&self, row: usize) -> (v: Vec<char>)
        requires
            row < self.lines.len(),
        ensures
            v@ == self.doc()[row as int],
            byte_len(v@) <= usize::MAX,
    {
        let n = utf8_len(self.lines[row].as_str());
        chars_of(self.lines[row].as_str())
    }

    /// Replaces line `row`.
    fn put_line(&mut self, row: usize, line: String)
        requires
            row < old(self).lines.len(),
        ensures
            final(self).doc() == old(self).doc().update(row as int, line@),
            final(self).lines.len() == old(self).lines.len(),
            final(self).cursor_row == old(self).cursor_row,
            final(self).cursor_col == old(self).cursor_col,
            final(self).selection_anchor == old(self).selection_anchor,
            final(self).undo_stack == old(self).undo_stack,
            final(self).modified == old(self).modified,
            final(self).saved_lines == old(self).saved_lines,
            final(self).same_aside(old(self)),
            final(self).status_msg == old(self).status_msg,
            final(self).status_error == old(self).status_error,
            final(self).clipboard == old(self).clipboard,
    {
        proof {
            lemma_lines_view_update(self.lines@, row as int, line);
        }
        self.lines.set(row, line);
    }

    /// How the buffer after `delete_selection` relates to the one before.
    pub open spec fn delete_selection_post(old: &Editor, new: &Editor) -> bool {
        &&& new.state() == delete_selection_spec(old.state())
        &&& state_ok(new.state())
        &&& new.same_aside(old)
        &&& new.status_msg == old.status_msg
        &&& new.status_error == old.status_error
        &&& new.clipboard == old.clipboard
    }

    /// Delete the selected region, move cursor to the selection start, and
    /// clear the anchor. Saves an undo snapshot before modifying.
    pub fn delete_selection(&mut self)
        requires
            state_ok(old(self).state()),
        ensures
            Self::delete_selection_post(old(self), final(self)),
    {
        let ((sr, sc), (er, ec)) = match self.selection_ordered() {
            Some(sel) => sel,
            None => {
                return;
            },
        };
        let ghost s0 = self.state();
        let ghost doc = self.doc();
        let first = self.line_chars(sr);
        let last = self.line_chars(er);
        let ks = match index_of_offset(&first, sc) {
            Some(k) => k,
            None => 0,
        };
        let ke = match index_of_offset(&last, ec) {
            Some(k) => k,
            None => 0,
        };
        proof {
            if sr == er && ks > ke {
                lemma_byte_offset_mono(first@, ke as int, ks as int);
            }
        }
        self.save_undo();
        let mut joined = crate::text::string_from_range(&first, 0, ks);
        crate::text::push_range(&mut joined, &last, ke, last.len());
        let ghost new_line = joined@;
        self.put_line(sr, joined);
        let ghost d1 = self.doc();
        assert(self.lines@.len() == d1.len());
        let mut lines: Vec<String> = Vec::new();
        std::mem::swap(&mut lines, &mut self.lines);
        let mut n = er - sr;
        assert(d1 =~= d1.take(sr + 1) + d1.skip(sr + 1 + (er - sr - n)));
        while n > 0
            invariant
                sr < doc.len(),
                er < doc.len(),
                sr <= er,
                n <= er - sr,
                d1.len() == doc.len(),
                lines_view(lines@) == d1.take(sr + 1) + d1.skip(sr + 1 + (er - sr - n)),
                lines@.len() == doc.len() - (er - sr - n),
            decreases n,
        {
            let ghost before = lines_view(lines@);
            lines.remove(sr + 1);
            proof {
                assert(lines_view(lines@) =~= before.remove(sr + 1));
                assert(lines_view(lines@) =~= d1.take(sr + 1) + d1.skip(sr + 1 + (er - sr - (n - 1))));
            }
            n = n - 1;
        }
        self.lines = lines;
        self.cursor_row = sr;
        self.cursor_col = sc;
        self.selection_anchor = None;
        self.modified = true;
        proof {
            let head = doc[sr as int].take(ks as int);
            let tail = doc[er as int].skip(ke as int);
            assert(first@.subrange(0, ks as int) =~= head);
            assert(last@.subrange(ke as int, last@.len() as int) =~= tail);
            assert(new_line =~= head + Seq::<char>::empty() + tail);
            assert(self.doc() =~= splice(doc, sr as int, ks as int, er as int, ke as int, seq![Seq::empty()]));
            crate::text::lemma_offset_concat_prefix(head, tail, ks as int);
            assert(head.take(ks as int) =~= head);
            assert(doc[sr as int].take(ks as int).take(ks as int) =~= doc[sr as int].take(ks as int));
            assert(byte_offset(doc[sr as int], ks as int) == sc);
            assert(byte_offset(new_line, ks as int) == sc);
            assert(is_boundary(self.doc()[sr as int], sc as int));
        }
    }

    /// How the buffer after `select_all` relates to the one before.
    pub open spec fn select_all_post(old: &Editor, new: &Editor) -> bool {
        &&& new.selection_anchor == Some((0usize, 0usize))
        &&& new.cursor_row == old.lines.len() - 1
        &&& new.cursor_col == byte_len(old.doc().last())
        &&& new.lines == old.lines
        &&& new.undo_stack == old.undo_stack
        &&& new.modified == old.modified
        &&& new.saved_lines == old.saved_lines
        &&& new.same_aside(old)
        &&& new.clipboard == old.clipboard
        &&& new.status_msg@ == "All selected"@
        &&& !new.status_error
    }

    /// Selects the whole document: the anchor goes to its start, the cursor to its end.
    pub fn select_all(&mut self)
        requires
            old(self).lines.len() > 0,
        ensures
            Self::select_all_post(old(self), final(self)),
    {
        self.selection_anchor = Some((0, 0));
        self.cursor_row = self.lines.len() - 1;
        self.cursor_col = utf8_len(self.lines[self.lines.len() - 1].as_str());
        self.set_status_str("All selected", false);
    }

    /// Inserts `t` (no newlines needed) at the cursor, recording an undo step.
    fn insert_at_cursor(&mut self, t: &Vec<char>)
        requires
            cursor_valid(old(self).state()),
        ensures
            final(self).state() == insert_at_cursor_spec(old(self).state(), t@),
            cursor_valid(final(self).state()),
            final(self).same_aside(old(self)),
            final(self).status_msg == old(self).status_msg,
            final(self).status_error == old(self).status_error,
            final(self).clipboard == old(self).clipboard,
    {
        let ghost s0 = self.state();
        let row = self.cursor_row;
        let chars = self.line_chars(row);
        let k = match index_of_offset(&chars, self.cursor_col) {
            Some(k) => k,
            None => 0,
        };
        self.save_undo();
        let mut nl = crate::text::string_from_range(&chars, 0, k);
        crate::text::push_range(&mut nl, t, 0, t.len());
        crate::text::push_range(&mut nl, &chars, k, chars.len());
        let nv = chars_of(nl.as_str());
        let nlen = utf8_len(nl.as_str());
        let ghost line = chars@;
        proof {
            assert(chars@.subrange(0, k as int) =~= line.take(k as int));
            assert(t@.subrange(0, t@.len() as int) =~= t@);
            assert(chars@.subrange(k as int, chars@.len() as int) =~= line.skip(k as int));
            assert(nv@ =~= line.take(k as int) + t@ + line.skip(k as int));
            assert(k + t@.len() <= nv@.len());
        }
        assert(k + t.len() <= nv.len());
        let new_col = crate::text::offset_of_index(&nv, k + t.len());
        self.put_line(row, nl);
        self.cursor_col = new_col;
        self.modified = true;
        proof {
            let pre = line.take(k as int);
            assert(nv@ =~= (pre + t@) + line.skip(k as int));
            crate::text::lemma_offset_concat_prefix(pre + t@, line.skip(k as int), k + t@.len());
            assert((pre + t@).take(k + t@.len()) =~= pre + t@);
            crate::text::lemma_byte_len_concat(pre, t@);
            crate::text::lemma_index_of_offset(nv@, k + t@.len());
        }
    }

    /// How the buffer after `insert_char` relates to the one before.
    pub open spec fn insert_char_post(old: &Editor, new: &Editor, ch: char) -> bool {
        &&& new.state() == insert_at_cursor_spec(
            delete_selection_spec(old.state()),
            seq![ch],
        )
        &&& cursor_valid(new.state())
        &&& new.same_aside(old)
        &&& new.status_msg == old.status_msg
        &&& new.status_error == old.status_error
        &&& new.clipboard == old.clipboard
    }

    pub fn insert_char(&mut self, ch: char)
        requires
            state_ok(old(self).state()),
        ensures
            Self::insert_char_post(old(self), final(self), ch),
    {
        if self.has_selection() {
            self.delete_selection();
        }
        let mut t: Vec<char> = Vec::new();
        t.push(ch);
        assert(t@ =~= seq![ch]);
        self.insert_at_cursor(&t);
    }

    /// How the buffer after `insert_str` relates to the one before.
    pub open spec fn insert_str_post(old: &Editor, new: &Editor, s: Seq<char>) -> bool {
        &&& new.state() == insert_at_cursor_spec(delete_selection_spec(old.state()), s)
        &&& cursor_valid(new.state())
        &&& new.same_aside(old)
        &&& new.status_msg == old.status_msg
        &&& new.status_error == old.status_error
        &&& new.clipboard == old.clipboard
    }

    pub fn insert_str(&mut self, s: &str)
        requires
            state_ok(old(self).state()),
        ensures
            Self::insert_str_post(old(self), final(self), s@),
    {
        if self.has_selection() {
            self.delete_selection();
        }
        let t = chars_of(s);
        self.insert_at_cursor(&t);
    }

    /// How the buffer after `insert_newline` relates to the one before.
    pub open spec fn insert_newline_post(old: &Editor, new: &Editor, auto_indent: bool) -> bool {
        &&& new.state() == insert_newline_spec(
            delete_selection_spec(old.state()),
            auto_indent,
        )
        &&& cursor_valid(new.state())
        &&& new.same_aside(old)
        &&& new.status_msg == old.status_msg
        &&& new.status_error == old.status_error
        &&& new.clipboard == old.clipboard
    }

    pub fn insert_newline(&mut self, auto_indent: bool)
        requires
            state_ok(old(self).state()),
        ensures
            Self::insert_newline_post(old(self), final(self), auto_indent),
    {
        if self.has_selection() {
            self.delete_selection();
        }
        let ghost s0 = self.state();
        let row = self.cursor_row;
        let chars = self.line_chars(row);
        let k = match index_of_offset(&chars, self.cursor_col) {
            Some(k) => k,
            None => 0,
        };
        let ghost line = chars@;
        self.save_undo();
        let before = crate::text::string_from_range(&chars, 0, k);
        let bchars = chars_of(before.as_str());
        let n_ws = if auto_indent {
            crate::text::count_leading(&bchars, 0, crate::text::WHITESPACE)
        } else {
            0
        };
        let mut new_line = crate::text::string_from_range(&bchars, 0, n_ws);
        crate::text::push_range(&mut new_line, &chars, k, chars.len());
        let nv = chars_of(new_line.as_str());
        let nlen = utf8_len(new_line.as_str());
        proof {
            assert(chars@.subrange(0, k as int) =~= line.take(k as int));
            assert(bchars@.skip(0) =~= bchars@);
            assert(bchars@.subrange(0, n_ws as int) =~= line.take(k as int).take(n_ws as int));
            assert(chars@.subrange(k as int, chars@.len() as int) =~= line.skip(k as int));
        }
        let new_col = crate::text::offset_of_index(&nv, n_ws);
        self.put_line(row, before);
        let mut lines: Vec<String> = Vec::new();
        std::mem::swap(&mut lines, &mut self.lines);
        let ghost d1 = lines_view(lines@);
        lines.insert(row + 1, new_line);
        self.lines = lines;
        self.cursor_row = row + 1;
        self.cursor_col = new_col;
        self.modified = true;
        proof {
            let indent = if auto_indent {
                line.take(k as int).take(leading_ws(line.take(k as int)) as int)
            } else {
                Seq::<char>::empty()
            };
            assert(nv@ =~= indent + line.skip(k as int));
            assert(self.doc() =~= d1.insert(row + 1, nv@));
            crate::text::lemma_offset_concat_prefix(indent, line.skip(k as int), n_ws as int);
            assert(indent.take(n_ws as int) =~= indent);
            crate::text::lemma_index_of_offset(nv@, n_ws as int);
        }
    }

    /// How the buffer after `backspace` relates to the one before.
    pub open spec fn backspace_post(old: &Editor, new: &Editor) -> bool {
        &&& new.state() == backspace_spec(old.state())
        &&& cursor_valid(new.state())
        &&& new.same_aside(old)
        &&& new.status_msg == old.status_msg
        &&& new.status_error == old.status_error
        &&& new.clipboard == old.clipboard
    }

    /// Deletes the selection, or the char before the cursor, or the line break
    /// before the cursor's line.
    pub fn backspace(&mut self)
        requires
            state_ok(old(self).state()),
        ensures
            Self::backspace_post(old(self), final(self)),
    {
        if self.has_selection() {
            self.delete_selection();
            return;
        }
        let row = self.cursor_row;
        if self.cursor_col > 0 {
            let chars = self.line_chars(row);
            let k = match index_of_offset(&chars, self.cursor_col) {
                Some(k) => k,
                None => 0,
            };
            let ghost line = chars@;
            proof {
                if k == 0 {
                    assert(line.take(0) =~= Seq::<char>::empty());
                }
            }
            self.save_undo();
            let prev = crate::text::offset_of_index(&chars, k - 1);
            let mut nl = crate::text::string_from_range(&chars, 0, k - 1);
            crate::text::push_range(&mut nl, &chars, k, chars.len());
            self.put_line(row, nl);
            self.cursor_col = prev;
            self.modified = true;
            proof {
                let pre = line.take(k - 1);
                let post = line.skip(k as int);
                assert(chars@.subrange(0, k - 1) =~= pre);
                assert(chars@.subrange(k as int, chars@.len() as int) =~= post);
                crate::text::lemma_offset_concat_prefix(pre, post, k - 1);
                assert(pre.take(k - 1) =~= pre);
                assert(line.take(k - 1).take(k - 1) =~= line.take(k - 1));
                crate::text::lemma_index_of_offset(pre + post, k - 1);
            }
        } else if row > 0 {
            let prev_chars = self.line_chars(row - 1);
            let cur_chars = self.line_chars(row);
            self.save_undo();
            let prev_len = utf8_len(self.lines[row - 1].as_str());
            let mut joined = crate::text::string_from_range(&prev_chars, 0, prev_chars.len());
            crate::text::push_range(&mut joined, &cur_chars, 0, cur_chars.len());
            let ghost d0 = self.doc();
            self.put_line(row - 1, joined);
            let mut lines: Vec<String> = Vec::new();
            std::mem::swap(&mut lines, &mut self.lines);
            let ghost d1 = lines_view(lines@);
            lines.remove(row);
            self.lines = lines;
            self.cursor_row = row - 1;
            self.cursor_col = prev_len;
            self.modified = true;
            proof {
                assert(prev_chars@.subrange(0, prev_chars@.len() as int) =~= d0[row - 1]);
                assert(cur_chars@.subrange(0, cur_chars@.len() as int) =~= d0[row as int]);
                assert(self.doc() =~= d1.remove(row as int));
                let j = d0[row - 1] + d0[row as int];
                crate::text::lemma_offset_concat_suffix(d0[row - 1], d0[row as int], 0);
                assert(d0[row as int].take(0) =~= Seq::<char>::empty());
                crate::text::lemma_index_of_offset(j, d0[row - 1].len() as int);
            }
        } else {
            proof {
                assert(self.cursor_col == 0);
            }
        }
    }

    /// How the buffer after `delete_char` relates to the one before.
    pub open spec fn delete_char_post(old: &Editor, new: &Editor) -> bool {
        &&& new.state() == delete_char_spec(old.state())
        &&& cursor_valid(new.state())
        &&& new.same_aside(old)
        &&& new.status_msg == old.status_msg
        &&& new.status_error == old.status_error
        &&& new.clipboard == old.clipboard
    }

    /// Deletes the selection, or the char after the cursor, or the line break
    /// after the cursor's line.
    pub fn delete_char(&mut self)
        requires
            state_ok(old(self).state()),
        ensures
            Self::delete_char_post(old(self), final(self)),
    {
        if self.has_selection() {
            self.delete_selection();
            return;
        }
        let row = self.cursor_row;
        let chars = self.line_chars(row);
        let k = match index_of_offset(&chars, self.cursor_col) {
            Some(k) => k,
            None => 0,
        };
        let ghost line = chars@;
        if k < chars.len() {
            self.save_undo();
            let mut nl = crate::text::string_from_range(&chars, 0, k);
            crate::text::push_range(&mut nl, &chars, k + 1, chars.len());
            self.put_line(row, nl);
            self.modified = true;
            proof {
                let pre = line.take(k as int);
                let post = line.skip(k + 1);
                assert(chars@.subrange(0, k as int) =~= pre);
                assert(chars@.subrange(k + 1, chars@.len() as int) =~= post);
                crate::text::lemma_offset_concat_prefix(pre, post, k as int);
                assert(pre.take(k as int) =~= pre);
                assert(line.take(k as int).take(k as int) =~= line.take(k as int));
                crate::text::lemma_index_of_offset(pre + post, k as int);
            }
        } else if self.lines.len() - row > 1 {
            let next_chars = self.line_chars(row + 1);
            self.save_undo();
            let mut joined = crate::text::string_from_range(&chars, 0, chars.len());
            crate::text::push_range(&mut joined, &next_chars, 0, next_chars.len());
            let ghost d0 = self.doc();
            self.put_line(row, joined);
            let mut lines: Vec<String> = Vec::new();
            std::mem::swap(&mut lines, &mut self.lines);
            let ghost d1 = lines_view(lines@);
            lines.remove(row + 1);
            self.lines = lines;
            self.modified = true;
            proof {
                assert(chars@.subrange(0, chars@.len() as int) =~= d0[row as int]);
                assert(next_chars@.subrange(0, next_chars@.len() as int) =~= d0[row + 1]);
                assert(self.doc() =~= d1.remove(row + 1));
                crate::text::lemma_offset_concat_prefix(d0[row as int], d0[row + 1], k as int);
                assert(d0[row as int].take(k as int) =~= d0[row as int]);
                assert(line.take(k as int) =~= line);
                crate::text::lemma_index_of_offset(d0[row as int] + d0[row + 1], k as int);
            }
        }
    }

    /// How the buffer after `delete_to_eol` relates to the one before.
    pub open spec fn delete_to_eol_post(old: &Editor, new: &Editor) -> bool {
        &&& new.state() == delete_to_eol_spec(old.state())
        &&& cursor_valid(new.state())
        &&& new.same_aside(old)
        &&& new.status_msg == old.status_msg
        &&& new.status_error == old.status_error
        &&& new.clipboard == old.clipboard
    }

    /// Deletes from the cursor to the end of its line.
    pub fn delete_to_eol(&mut self)
        requires
            cursor_valid(old(self).state()),
        ensures
            Self::delete_to_eol_post(old(self), final(self)),
    {
        let row = self.cursor_row;
        let chars = self.line_chars(row);
        let k = match index_of_offset(&chars, self.cursor_col) {
            Some(k) => k,
            None => 0,
        };
        self.save_undo();
        let nl = crate::text::string_from_range(&chars, 0, k);
        self.put_line(row, nl);
        self.modified = true;
        proof {
            let pre = chars@.take(k as int);
            assert(chars@.subrange(0, k as int) =~= pre);
            assert(pre.take(k as int) =~= pre);
            assert(chars@.take(k as int).take(k as int) =~= pre);
            crate::text::lemma_index_of_offset(pre, k as int);
        }
    }

    /// How the buffer after `cut_line` relates to the one before.
    pub open spec fn cut_line_post(old: &Editor, new: &Editor) -> bool {
        &&& (selection_of(old.state()) matches Some((a, b)) ==> {
            &&& new.state() == delete_selection_spec(old.state())
            &&& new.clipboard@ == text_between(old.doc(), a, b)
            &&& new.status_msg@ == "Selection cut"@
        })
        &&& (selection_of(old.state()) is None ==> {
            &&& new.state() == cut_line_spec(old.state())
            &&& new.clipboard@ == old.doc()[old.cursor_row as int] + seq!['\n']
            &&& new.status_msg@ == "Line cut"@
        })
        &&& !new.status_error
        &&& cursor_valid(new.state())
        &&& new.same_aside(old)
    }

    /// Cuts the selection, or else the whole cursor line, to the clipboard.
    pub fn cut_line(&mut self)
        requires
            old(self).cursor_row < old(self).lines.len(),
            selection_of(old(self).state()) is Some ==> state_ok(old(self).state()),
        ensures
            Self::cut_line_post(old(self), final(self)),
    {
        if self.has_selection() {
            self.clipboard = self.get_selected_text();
            self.delete_selection();
            self.set_status_str("Selection cut", false);
            return;
        }
        self.save_undo();
        assert(self.doc().len() == self.lines@.len());
        let mut lines: Vec<String> = Vec::new();
        std::mem::swap(&mut lines, &mut self.lines);
        let ghost d0 = lines_view(lines@);
        let mut line = lines.remove(self.cursor_row);
        self.lines = lines;
        assert(self.doc() =~= d0.remove(self.cursor_row as int));
        let ghost l0 = line@;
        crate::text::push_char(&mut line, '\n');
        assert(line@ =~= l0 + seq!['\n']);
        self.clipboard = line;
        self.clamp_cursor();
        self.modified = true;
        self.set_status_str("Line cut", false);
    }

    /// How the buffer after `copy_line` relates to the one before.
    pub open spec fn copy_line_post(old: &Editor, new: &Editor) -> bool {
        &&& (selection_of(old.state()) matches Some((a, b)) ==> {
            &&& new.state() == EditState { anchor: None, ..old.state() }
            &&& new.clipboard@ == text_between(old.doc(), a, b)
            &&& new.status_msg@ == "Selection copied"@
        })
        &&& (selection_of(old.state()) is None ==> {
            &&& new.state() == old.state()
            &&& new.clipboard@ == old.doc()[old.cursor_row as int] + seq!['\n']
            &&& new.status_msg@ == "Line copied"@
        })
        &&& !new.status_error
        &&& new.same_aside(old)
    }

    /// Copies the selection (clearing it), or else the whole cursor line, to the clipboard.
    pub fn copy_line(&mut self)
        requires
            old(self).cursor_row < old(self).lines.len(),
            selection_of(old(self).state()) is Some ==> state_ok(old(self).state()),
        ensures
            Self::copy_line_post(old(self), final(self)),
    {
        if self.has_selection() {
            self.clipboard = self.get_selected_text();
            self.selection_anchor = None;
            self.set_status_str("Selection copied", false);
            return;
        }
        let mut line = self.lines[self.cursor_row].clone();
        crate::text::push_char(&mut line, '\n');
        assert(line@ =~= self.doc()[self.cursor_row as int] + seq!['\n']);
        self.clipboard = line;
        self.set_status_str("Line copied", false);
    }

    /// How the buffer after `paste` relates to the one before.
    pub open spec fn paste_post(old: &Editor, new: &Editor) -> bool {
        &&& (old.clipboard@.len() == 0 ==> {
            &&& new.state() == old.state()
            &&& new.status_msg@ == "Clipboard empty"@
        })
        &&& (old.clipboard@.len() > 0 ==> {
            &&& new.state() == paste_spec(old.state(), old.clipboard@)
            &&& new.status_msg@ == "Pasted"@
            &&& cursor_valid(new.state())
        })
        &&& !new.status_error
        &&& new.clipboard == old.clipboard
        &&& new.same_aside(old)
    }

    /// Pastes the clipboard at the cursor, replacing the selection if any.
    pub fn paste(&mut self)
        requires
            state_ok(old(self).state()),
        ensures
            Self::paste_post(old(self), final(self)),
    {
        let clip = chars_of(self.clipboard.as_str());
        if clip.len() == 0 {
            self.set_status_str("Clipboard empty", false);
            return;
        }
        if self.has_selection() {
            self.delete_selection();
        }
        let ghost s1 = self.state();
        let parts = split_newlines(&clip);
        let ghost ps = split_nl(clip@);
        assert(vecs_view(parts@) =~= ps);
        if parts.len() == 1 {
            self.insert_at_cursor(&parts[0]);
            proof {
                let k = cursor_index(s1);
                let line = s1.doc[s1.row as int];
                assert(splice(s1.doc, s1.row as int, k, s1.row as int, k, ps) =~= s1.doc.update(
                    s1.row as int,
                    line.take(k) + ps[0] + line.skip(k),
                ));
            }
        } else {
            self.paste_lines(&parts);
        }
        self.set_status_str("Pasted", false);
    }

    /// How the buffer after `delete_word_before` relates to the one before.
    pub open spec fn delete_word_before_post(old: &Editor, new: &Editor) -> bool {
        &&& new.state() == delete_word_before_spec(old.state())
        &&& cursor_valid(new.state())
        &&& new.same_aside(old)
        &&& new.status_msg == old.status_msg
        &&& new.status_error == old.status_error
        &&& new.clipboard == old.clipboard
    }

    /// Deletes the whitespace, or else the word, just before the cursor.
    pub fn delete_word_before(&mut self)
        requires
            cursor_valid(old(self).state()),
        ensures
            Self::delete_word_before_post(old(self), final(self)),
    {
        if self.cursor_col == 0 {
            return;
        }
        let row = self.cursor_row;
        let chars = self.line_chars(row);
        let k = match index_of_offset(&chars, self.cursor_col) {
            Some(k) => k,
            None => 0,
        };
        let ghost line = chars@;
        self.save_undo();
        let ws = crate::text::count_trailing(&chars, k, WHITESPACE);
        let e = if ws > 0 {
            k - ws
        } else {
            k - crate::text::count_trailing(&chars, k, WORD)
        };
        let new_col = crate::text::offset_of_index(&chars, e);
        let mut nl = crate::text::string_from_range(&chars, 0, e);
        crate::text::push_range(&mut nl, &chars, k, chars.len());
        self.put_line(row, nl);
        self.cursor_col = new_col;
        self.modified = true;
        proof {
            let pre = line.take(e as int);
            let post = line.skip(k as int);
            assert(chars@.subrange(0, e as int) =~= pre);
            assert(chars@.subrange(k as int, chars@.len() as int) =~= post);
            crate::text::lemma_offset_concat_prefix(pre, post, e as int);
            assert(pre.take(e as int) =~= pre);
            assert(line.take(e as int).take(e as int) =~= pre);
            crate::text::lemma_index_of_offset(pre + post, e as int);
        }
    }

    /// Pastes two or more lines at the cursor, recording an undo step.
    fn paste_lines(&mut self, parts: &Vec<Vec<char>>)
        requires
            cursor_valid(old(self).state()),
            parts.len() >= 2,
        ensures
            ({
                let ps = vecs_view(parts@);
                let s = old(self).state();
                let k = cursor_index(s);
                final(self).state() == EditState {
                    doc: splice(s.doc, s.row as int, k, s.row as int, k, ps),
                    row: (s.row + ps.len() - 1) as usize,
                    col: byte_len(ps.last()) as usize,
                    modified: true,
                    ..save_undo_spec(s)
                }
            }),
            cursor_valid(final(self).state()),
            final(self).same_aside(old(self)),
            final(self).status_msg == old(self).status_msg,
            final(self).status_error == old(self).status_error,
            final(self).clipboard == old(self).clipboard,
    {
        let ghost ps = vecs_view(parts@);
        let row = self.cursor_row;
        let chars = self.line_chars(row);
        let k = match index_of_offset(&chars, self.cursor_col) {
            Some(k) => k,
            None => 0,
        };
        let ghost line = chars@;
        let ghost d0 = self.doc();
        self.save_undo();
        let mut first = crate::text::string_from_range(&chars, 0, k);
        crate::text::push_range(&mut first, &parts[0], 0, parts[0].len());
        self.put_line(row, first);
        let n = parts.len();
        let mut lines: Vec<String> = Vec::new();
        std::mem::swap(&mut lines, &mut self.lines);
        let ghost d1 = lines_view(lines@);
        let mut i: usize = 1;
        proof {
            assert(d1 =~= d1.take(row + 1) + ps.subrange(1, 1) + d0.skip(row + 1));
        }
        while i < n - 1
            invariant
                1 <= i <= n - 1,
                n == parts.len(),
                n == ps.len(),
                ps == vecs_view(parts@),
                row < d0.len(),
                d1.len() == d0.len(),
                lines_view(lines@) == d1.take(row + 1) + ps.subrange(1, i as int) + d0.skip(row + 1),
                lines@.len() == d0.len() + i - 1,
            decreases n - 1 - i,
        {
            let piece = crate::text::string_from_range(&parts[i], 0, parts[i].len());
            let ghost before = lines_view(lines@);
            assert(row + i <= lines.len());
            lines.insert(row + i, piece);
            proof {
                assert(parts@[i as int]@.subrange(0, parts@[i as int]@.len() as int) =~= ps[i as int]);
                assert(lines_view(lines@) =~= before.insert(row + i, ps[i as int]));
                assert(lines_view(lines@) =~= d1.take(row + 1) + ps.subrange(1, i + 1) + d0.skip(row + 1));
            }
            i = i + 1;
        }
        let last_len = crate::text::utf8_len_of_chars(&parts[n - 1]);
        let mut last = crate::text::string_from_range(&parts[n - 1], 0, parts[n - 1].len());
        crate::text::push_range(&mut last, &chars, k, chars.len());
        let ghost before = lines_view(lines@);
        assert(row + (n - 1) <= lines.len());
        lines.insert(row + (n - 1), last);
        self.lines = lines;
        self.cursor_row = row + (n - 1);
        self.cursor_col = last_len;
        self.modified = true;
        proof {
            let lastp = ps[n - 1];
            assert(parts@[n - 1]@.subrange(0, parts@[n - 1]@.len() as int) =~= lastp);
            assert(chars@.subrange(k as int, chars@.len() as int) =~= line.skip(k as int));
            assert(chars@.subrange(0, k as int) =~= line.take(k as int));
            assert(parts@[0]@.subrange(0, parts@[0]@.len() as int) =~= ps[0]);
            assert(self.doc() =~= before.insert(row + n - 1, lastp + line.skip(k as int)));
            assert(self.doc() =~= splice(d0, row as int, k as int, row as int, k as int, ps));
            crate::text::lemma_offset_concat_prefix(lastp, line.skip(k as int), lastp.len() as int);
            crate::text::lemma_byte_offset_full(lastp);
            assert(lastp.take(lastp.len() as int) =~= lastp);
            crate::text::lemma_index_of_offset(lastp + line.skip(k as int), lastp.len() as int);
        }
        }

    // ── Navigation ───────────────────────────────────────────────────────────

    /// Number of chars of line `row` whose byte offset is below `col`.
    fn chars_before_col(v: &Vec<char>, col: usize) -> (n: usize)
        requires
            byte_len(v@) <= usize::MAX,
        ensures
            n == chars_before(v@, col as int),
            n <= v.len(),
    {
        let mut i: usize = 0;
        let mut off: usize = 0;
        proof {
            assert(v@.take(0) =~= Seq::<char>::empty());
            crate::text::lemma_byte_offset_full(v@);
        }
        while i < v.len() && off < col
            invariant
                i <= v.len(),
                off == byte_offset(v@, i as int),
                byte_len(v@) <= usize::MAX,
                i > 0 ==> byte_offset(v@, i - 1) < col,
            decreases v.len() - i,
        {
            proof {
                lemma_byte_offset_step(v@, i as int);
                lemma_byte_offset_mono(v@, i + 1, v@.len() as int);
                lemma_byte_offset_full(v@);
            }
            off = off + char_width_of(v[i]);
            i = i + 1;
        }
        proof {
            if col > 0 {
                let b = col - 1;
                lemma_floor_index(v@, b as int);
                let f = floor_index(v@, b as int) as int;
                if i > 0 {
                    // index i - 1 has offset below col, so it is at most the floor
                    if f < i - 1 {
                        assert(byte_offset(v@, i - 1) > b);
                    }
                }
                if i < v.len() {
                    // offset of i is at least col, so the floor is below i
                    if f >= i {
                        if f > i {
                            lemma_byte_offset_mono(v@, i as int, f);
                        }
                    }
                }
            }
        }
        i
    }

    fn set_cursor(&mut self, row: usize, col: usize)
        ensures
            final(self).cursor_row == row,
            final(self).cursor_col == col,
            final(self).same_but_cursor(old(self)),
    {
        self.cursor_row = row;
        self.cursor_col = col;
    }

    /// How the buffer after `move_left` relates to the one before.
    pub open spec fn move_left_post(old: &Editor, new: &Editor) -> bool {
        &&& (new.cursor_row, new.cursor_col) == move_left_spec(
            old.doc(),
            old.cursor_row,
            old.cursor_col,
        )
        &&& new.same_but_cursor(old)
        &&& (cursor_valid(old.state()) ==> cursor_valid(new.state()))
    }

    pub fn move_left(&mut self)
        requires
            old(self).cursor_col > 0 ==> cursor_valid(old(self).state()),
            old(self).cursor_row <= old(self).lines.len(),
        ensures
            Self::move_left_post(old(self), final(self)),
    {
        let row = self.cursor_row;
        if self.cursor_col > 0 {
            let chars = self.line_chars(row);
            let k = match index_of_offset(&chars, self.cursor_col) {
                Some(k) => k,
                None => 0,
            };
            proof {
                if k == 0 {
                    assert(chars@.take(0) =~= Seq::<char>::empty());
                }
                crate::text::lemma_index_of_offset(chars@, k - 1);
            }
            let c = crate::text::offset_of_index(&chars, k - 1);
            self.set_cursor(row, c);
        } else if row > 0 {
            let c = utf8_len(self.lines[row - 1].as_str());
            proof {
                crate::text::lemma_ends_are_boundaries(self.doc()[row - 1]);
            }
            self.set_cursor(row - 1, c);
        }
    }

    /// How the buffer after `move_right` relates to the one before.
    pub open spec fn move_right_post(old: &Editor, new: &Editor) -> bool {
        &&& (new.cursor_row, new.cursor_col) == move_right_spec(
            old.doc(),
            old.cursor_row,
            old.cursor_col,
        )
        &&& new.same_but_cursor(old)
        &&& (cursor_valid(old.state()) ==> cursor_valid(new.state()))
    }

    pub fn move_right(&mut self)
        requires
            old(self).cursor_row < old(self).lines.len(),
            old(self).cursor_col < byte_len(old(self).doc()[old(self).cursor_row as int])
                ==> cursor_valid(old(self).state()),
        ensures
            Self::move_right_post(old(self), final(self)),
    {
        let row = self.cursor_row;
        let len = utf8_len(self.lines[row].as_str());
        if self.cursor_col < len {
            let chars = self.line_chars(row);
            let k = match index_of_offset(&chars, self.cursor_col) {
                Some(k) => k,
                None => 0,
            };
            proof {
                crate::text::lemma_ends_are_boundaries(chars@);
                if k == chars.len() {
                    crate::text::lemma_char_index(chars@, self.cursor_col as int);
                }
                crate::text::lemma_index_of_offset(chars@, k + 1);
            }
            let c = crate::text::offset_of_index(&chars, k + 1);
            self.set_cursor(row, c);
        } else if self.lines.len() - row > 1 {
            proof {
                crate::text::lemma_ends_are_boundaries(self.doc()[row + 1]);
            }
            self.set_cursor(row + 1, 0);
        }
    }

    /// Column for char column `cc` on line `row`.
    fn col_at(&self, row: usize, cc: usize) -> (c: usize)
        requires
            row < self.lines.len(),
        ensures
            c == col_for_char(self.doc()[row as int], cc as int),
            is_boundary(self.doc()[row as int], c as int),
    {
        let c = crate::text::char_to_byte(self.lines[row].as_str(), cc);
        proof {
            let line = self.doc()[row as int];
            crate::text::lemma_index_of_offset(line, if cc <= line.len() { cc as int } else { line.len() as int });
        }
        c
    }

    /// How the buffer after `move_up` relates to the one before.
    pub open spec fn move_up_post(old: &Editor, new: &Editor) -> bool {
        &&& (old.cursor_row > 0 ==> new.cursor_row == old.cursor_row - 1
            && new.cursor_col == col_for_char(
                old.doc()[old.cursor_row - 1],
                cursor_index(old.state()),
            ))
        &&& (old.cursor_row == 0 ==> new.cursor_row == 0 && new.cursor_col
            == old.cursor_col)
        &&& new.same_but_cursor(old)
        &&& (cursor_valid(old.state()) ==> cursor_valid(new.state()))
    }

    pub fn move_up(&mut self)
        requires
            old(self).cursor_row > 0 ==> cursor_valid(old(self).state()),
        ensures
            Self::move_up_post(old(self), final(self)),
    {
        if self.cursor_row > 0 {
            let cc = self.cursor_char_col();
            let c = self.col_at(self.cursor_row - 1, cc);
            self.set_cursor(self.cursor_row - 1, c);
        }
    }

    /// How the buffer after `move_down` relates to the one before.
    pub open spec fn move_down_post(old: &Editor, new: &Editor) -> bool {
        &&& (old.cursor_row + 1 < old.lines.len() ==> new.cursor_row
            == old.cursor_row + 1 && new.cursor_col == col_for_char(
            old.doc()[old.cursor_row + 1],
            cursor_index(old.state()),
        ))
        &&& (old.cursor_row + 1 >= old.lines.len() ==> new.cursor_row
            == old.cursor_row && new.cursor_col == old.cursor_col)
        &&& new.same_but_cursor(old)
        &&& (cursor_valid(old.state()) ==> cursor_valid(new.state()))
    }

    pub fn move_down(&mut self)
        requires
            old(self).cursor_row + 1 < old(self).lines.len() ==> cursor_valid(old(self).state()),
        ensures
            Self::move_down_post(old(self), final(self)),
    {
        if self.cursor_row < self.lines.len() && self.lines.len() - self.cursor_row > 1 {
            let cc = self.cursor_char_col();
            let c = self.col_at(self.cursor_row + 1, cc);
            self.set_cursor(self.cursor_row + 1, c);
        }
    }

    /// How the buffer after `move_home` relates to the one before.
    pub open spec fn move_home_post(old: &Editor, new: &Editor) -> bool {
        &&& new.cursor_row == old.cursor_row
        &&& new.cursor_col == home_col(
            old.doc()[old.cursor_row as int],
            old.cursor_col,
        )
        &&& new.same_but_cursor(old)
        &&& cursor_valid(new.state())
    }

    /// Home: toggles between the first non-whitespace char and the line start.
    pub fn move_home(&mut self)
        requires
            old(self).cursor_row < old(self).lines.len(),
        ensures
            Self::move_home_post(old(self), final(self)),
    {
        let chars = self.line_chars(self.cursor_row);
        let n = crate::text::count_leading(&chars, 0, WHITESPACE);
        proof {
            assert(chars@.skip(0) =~= chars@);
            crate::text::lemma_index_of_offset(chars@, n as int);
            crate::text::lemma_ends_are_boundaries(chars@);
        }
        let indent = crate::text::offset_of_index(&chars, n);
        let c = if self.cursor_col != indent {
            indent
        } else {
            0
        };
        self.set_cursor(self.cursor_row, c);
    }

    /// How the buffer after `move_end` relates to the one before.
    pub open spec fn move_end_post(old: &Editor, new: &Editor) -> bool {
        &&& new.cursor_row == old.cursor_row
        &&& new.cursor_col == byte_len(old.doc()[old.cursor_row as int])
        &&& new.same_but_cursor(old)
        &&& cursor_valid(new.state())
    }

    pub fn move_end(&mut self)
        requires
            old(self).cursor_row < old(self).lines.len(),
        ensures
            Self::move_end_post(old(self), final(self)),
    {
        let c = utf8_len(self.lines[self.cursor_row].as_str());
        proof {
            crate::text::lemma_ends_are_boundaries(self.doc()[self.cursor_row as int]);
        }
        self.set_cursor(self.cursor_row, c);
    }

    /// How the buffer after `move_next_word` relates to the one before.
    pub open spec fn move_next_word_post(old: &Editor, new: &Editor) -> bool {
        &&& new.cursor_row == old.cursor_row
        &&& new.cursor_col == next_word_col(
            old.doc()[old.cursor_row as int],
            old.cursor_col,
        )
        &&& new.same_but_cursor(old)
        &&& cursor_valid(new.state())
    }

    pub fn move_next_word(&mut self)
        requires
            old(self).cursor_row < old(self).lines.len(),
        ensures
            Self::move_next_word_post(old(self), final(self)),
    {
        let chars = self.line_chars(self.cursor_row);
        let i0 = Self::chars_before_col(&chars, self.cursor_col);
        let i1 = i0 + crate::text::count_leading(&chars, i0, WORD);
        let i2 = i1 + crate::text::count_leading(&chars, i1, NOT_WORD);
        let c = crate::text::offset_of_index(&chars, i2);
        proof {
            crate::text::lemma_index_of_offset(chars@, i2 as int);
        }
        self.set_cursor(self.cursor_row, c);
    }

    /// How the buffer after `move_prev_word` relates to the one before.
    pub open spec fn move_prev_word_post(old: &Editor, new: &Editor) -> bool {
        &&& new.cursor_row == old.cursor_row
        &&& new.cursor_col == prev_word_col(
            old.doc()[old.cursor_row as int],
            old.cursor_col,
        )
        &&& new.same_but_cursor(old)
        &&& cursor_valid(new.state())
    }

    pub fn move_prev_word(&mut self)
        requires
            old(self).cursor_row < old(self).lines.len(),
        ensures
            Self::move_prev_word_post(old(self), final(self)),
    {
        let chars = self.line_chars(self.cursor_row);
        let i0 = Self::chars_before_col(&chars, self.cursor_col);
        let i1 = i0 - crate::text::count_trailing(&chars, i0, NOT_WORD);
        let i2 = i1 - crate::text::count_trailing(&chars, i1, WORD);
        let c = if i2 < chars.len() {
            crate::text::offset_of_index(&chars, i2)
        } else {
            0
        };
        proof {
            crate::text::lemma_index_of_offset(chars@, i2 as int);
            crate::text::lemma_ends_are_boundaries(chars@);
        }
        self.set_cursor(self.cursor_row, c);
    }

    /// How the buffer after `move_page_up` relates to the one before.
    pub open spec fn move_page_up_post(old: &Editor, new: &Editor, page_height: usize) -> bool {
        &&& new.cursor_row == (if old.cursor_row >= page_height {
            old.cursor_row - page_height
        } else {
            0
        })
        &&& new.cursor_col == col_for_char(
            old.doc()[new.cursor_row as int],
            cursor_index(old.state()),
        )
        &&& new.same_but_cursor(old)
        &&& cursor_valid(new.state())
    }

    pub fn move_page_up(&mut self, page_height: usize)
        requires
            cursor_valid(old(self).state()),
        ensures
            Self::move_page_up_post(old(self), final(self), page_height),
    {
        let cc = self.cursor_char_col();
        let row = if self.cursor_row >= page_height {
            self.cursor_row - page_height
        } else {
            0
        };
        let c = self.col_at(row, cc);
        self.set_cursor(row, c);
    }

    /// How the buffer after `move_page_down` relates to the one before.
    pub open spec fn move_page_down_post(old: &Editor, new: &Editor, page_height: usize) -> bool {
        &&& new.cursor_row == (if old.cursor_row + page_height < old.lines.len() {
            old.cursor_row + page_height
        } else {
            old.lines.len() - 1
        })
        &&& new.cursor_col == col_for_char(
            old.doc()[new.cursor_row as int],
            cursor_index(old.state()),
        )
        &&& new.same_but_cursor(old)
        &&& cursor_valid(new.state())
    }

    pub fn move_page_down(&mut self, page_height: usize)
        requires
            cursor_valid(old(self).state()),
            old(self).cursor_row + page_height <= usize::MAX,
        ensures
            Self::move_page_down_post(old(self), final(self), page_height),
    {
        let cc = self.cursor_char_col();
        let target = self.cursor_row + page_height;
        let last = self.lines.len() - 1;
        let row = if target < last {
            target
        } else {
            last
        };
        let c = self.col_at(row, cc);
        self.set_cursor(row, c);
    }

    /// How the buffer after `goto_line` relates to the one before.
    pub open spec fn goto_line_post(old: &Editor, new: &Editor, n: usize) -> bool {
        &&& new.cursor_row == (if n < old.lines.len() {
            n
        } else {
            (old.lines.len() - 1) as usize
        })
        &&& new.cursor_col == 0
        &&& new.same_but_cursor(old)
        &&& cursor_valid(new.state())
    }

    /// Moves the cursor to the start of line `n` (counted from 0), or of the last line.
    pub fn goto_line(&mut self, n: usize)
        requires
            old(self).lines.len() > 0,
        ensures
            Self::goto_line_post(old(self), final(self), n),
    {
        let last = self.lines.len() - 1;
        let row = if n < last {
            n
        } else {
            last
        };
        proof {
            crate::text::lemma_ends_are_boundaries(self.doc()[row as int]);
        }
        self.set_cursor(row, 0);
    }

    // ── Search ────────────────────────────────────────────────────────────────

    /// How the buffer after `build_search_matches` relates to the one before.
    pub open spec fn build_search_matches_post(old: &Editor, new: &Editor) -> bool {
        &&& (new.search_matches@ == search_matches_for(old.doc(), old.search_term@))
        &&& new.same_text(old)
        &&& new.scroll_row == old.scroll_row
        &&& new.scroll_col == old.scroll_col
        &&& new.filename == old.filename
        &&& new.search_term == old.search_term
        &&& new.search_idx == old.search_idx
        &&& new.encoding == old.encoding
        &&& new.has_bom == old.has_bom
        &&& new.status_msg == old.status_msg
        &&& new.status_error == old.status_error
        &&& new.clipboard == old.clipboard
    }

    /// Recomputes the case-insensitive matches of the search term.
    pub fn build_search_matches(&mut self)
        ensures
            Self::build_search_matches_post(old(self), final(self)),
    {
        let mut found: Vec<(usize, usize)> = Vec::new();
        let term_chars = chars_of(self.search_term.as_str());
        if term_chars.len() == 0 {
            self.search_matches = found;
            proof {
                assert(self.search_matches@ =~= Seq::<(usize, usize)>::empty());
            }
            return;
        }
        let term_lower = to_lowercase(self.search_term.as_str());
        let ghost t = lowercase(self.search_term@);
        let ghost doc = self.doc();
        let mut row: usize = 0;
        assert(found@ =~= matches_upto(doc, t, 0));
        while row < self.lines.len()
            invariant
                doc == self.doc(),
                self.lines.len() == doc.len(),
                row <= self.lines.len(),
                term_lower@ == t,
                t.len() > 0,
                found@ == matches_upto(doc, t, row as int),
            decreases self.lines.len() - row,
        {
            let line_lower = to_lowercase(self.lines[row].as_str());
            let cols = find_matches_in_line(line_lower.as_str(), term_lower.as_str());
            let ghost f0 = found@;
            let mut j: usize = 0;
            while j < cols.len()
                invariant
                    j <= cols.len(),
                    found@ == f0 + cols@.take(j as int).map_values(|c: usize| (row, c)),
                decreases cols.len() - j,
            {
                found.push((row, cols[j]));
                assert(cols@.take(j + 1).map_values(|c: usize| (row, c)) =~= cols@.take(
                    j as int,
                ).map_values(|c: usize| (row, c)).push((row, cols@[j as int])));
                j = j + 1;
            }
            proof {
                assert(cols@.take(cols.len() as int) =~= cols@);
                assert(row_matches(doc, t, row as int) =~= cols@.map_values(|c: usize| (row, c)));
            }
            row = row + 1;
        }
        self.search_matches = found;
    }

    /// Status text for a match, built as [`match_status`] or [`wrapped_status`] say.
    fn match_message(wrapped: bool, i: usize, n: usize, term: &str) -> (m: String)
        ensures
            !wrapped ==> m@ == match_status(i as nat, n as nat, term@),
            wrapped ==> m@ == wrapped_status(i as nat, n as nat, term@),
    {
        let mut m = if wrapped {
            String::from_str("Wrapped. Match ")
        } else {
            String::from_str("Match ")
        };
        proof {
            reveal_strlit("Wrapped. Match ");
            reveal_strlit("Wrapped. ");
            reveal_strlit("Match ");
        }
        let ghost m0 = m@;
        push_decimal(&mut m, i);
        push_all(&mut m, "/");
        push_decimal(&mut m, n);
        push_all(&mut m, ": ");
        push_all(&mut m, term);
        proof {
            if wrapped {
                assert(m0 =~= "Wrapped. "@ + "Match "@);
            }
        }
        m
    }

    /// How the buffer after `search_next` relates to the one before.
    pub open spec fn search_next_post(old: &Editor, new: &Editor, found: bool) -> bool {
        &&& (found == (old.search_matches@.len() > 0))
        &&& (!found ==> *new == *old)
        &&& (found ==> ({
            let ms = old.search_matches@;
            let pos = (
                old.cursor_row,
                if old.cursor_col < usize::MAX {
                    (old.cursor_col + 1) as usize
                } else {
                    old.cursor_col
                },
            );
            let i = first_at_or_after(ms, pos, 0);
            let j = if i < ms.len() { i } else { 0 };
            &&& new.search_idx == j
            &&& new.cursor_row == ms[j].0
            &&& new.cursor_col == ms[j].1
            &&& i < ms.len() ==> new.status_msg@ == match_status(
                (i + 1) as nat,
                ms.len(),
                old.search_term@,
            )
            &&& i >= ms.len() ==> new.status_msg@ == wrapped_status(
                1,
                ms.len(),
                old.search_term@,
            )
            &&& !new.status_error
        }))
        &&& new.lines == old.lines
        &&& new.selection_anchor == old.selection_anchor
        &&& new.undo_stack == old.undo_stack
        &&& new.modified == old.modified
        &&& new.saved_lines == old.saved_lines
        &&& new.scroll_row == old.scroll_row
        &&& new.scroll_col == old.scroll_col
        &&& new.search_term == old.search_term
        &&& (new.search_matches == old.search_matches)
        &&& new.clipboard == old.clipboard
    }

    /// Moves the cursor to the first match at or after the position just past
    /// the cursor, wrapping to the first match; false when there are no matches.
    pub fn search_next(&mut self) -> (found: bool)
        ensures
            Self::search_next_post(old(self), final(self), found),
    {
        let n = self.search_matches.len();
        if n == 0 {
            return false;
        }
        let pos_col = if self.cursor_col < usize::MAX {
            self.cursor_col + 1
        } else {
            self.cursor_col
        };
        let pos = (self.cursor_row, pos_col);
        let i = first_match_at_or_after(&self.search_matches, pos);
        if i < n {
            let (row, col) = self.search_matches[i];
            let msg = Self::match_message(false, i + 1, n, self.search_term.as_str());
            self.search_idx = i;
            self.cursor_row = row;
            self.cursor_col = col;
            self.status_msg = msg;
            self.status_error = false;
            return true;
        }
        let (row, col) = self.search_matches[0];
        let msg = Self::match_message(true, 1, n, self.search_term.as_str());
        self.search_idx = 0;
        self.cursor_row = row;
        self.cursor_col = col;
        self.status_msg = msg;
        self.status_error = false;
        true
    }

    /// How the buffer after `search_prev` relates to the one before.
    pub open spec fn search_prev_post(old: &Editor, new: &Editor, found: bool) -> bool {
        &&& (found == (old.search_matches@.len() > 0))
        &&& (!found ==> *new == *old)
        &&& (found ==> ({
            let ms = old.search_matches@;
            let pos = (old.cursor_row, old.cursor_col);
            let i = last_before(ms, pos, ms.len() as int);
            let j = if i >= 0 { i } else { ms.len() - 1 };
            &&& new.search_idx == j
            &&& new.cursor_row == ms[j].0
            &&& new.cursor_col == ms[j].1
            &&& i >= 0 ==> new.status_msg@ == match_status(
                (i + 1) as nat,
                ms.len(),
                old.search_term@,
            )
            &&& i < 0 ==> new.status_msg@ == wrapped_status(
                ms.len(),
                ms.len(),
                old.search_term@,
            )
            &&& !new.status_error
        }))
        &&& new.lines == old.lines
        &&& new.selection_anchor == old.selection_anchor
        &&& new.undo_stack == old.undo_stack
        &&& new.modified == old.modified
        &&& new.saved_lines == old.saved_lines
        &&& new.scroll_row == old.scroll_row
        &&& new.scroll_col == old.scroll_col
        &&& new.search_term == old.search_term
        &&& (new.search_matches == old.search_matches)
        &&& new.clipboard == old.clipboard
    }

    /// Moves the cursor to the last match before it, wrapping to the last match;
    /// false when there are no matches.
    pub fn search_prev(&mut self) -> (found: bool)
        ensures
            Self::search_prev_post(old(self), final(self), found),
    {
        let n = self.search_matches.len();
        if n == 0 {
            return false;
        }
        let pos = (self.cursor_row, self.cursor_col);
        let i = last_match_before(&self.search_matches, pos);
        if i < n {
            let (row, col) = self.search_matches[i];
            let msg = Self::match_message(false, i + 1, n, self.search_term.as_str());
            self.search_idx = i;
            self.cursor_row = row;
            self.cursor_col = col;
            self.status_msg = msg;
            self.status_error = false;
            return true;
        }
        let last = n - 1;
        let (row, col) = self.search_matches[last];
        let msg = Self::match_message(true, n, n, self.search_term.as_str());
        self.search_idx = last;
        self.cursor_row = row;
        self.cursor_col = col;
        self.status_msg = msg;
        self.status_error = false;
        true
    }

    /// How the buffer after `replace_all` relates to the one before.
    pub open spec fn replace_all_post(old: &Editor, new: &Editor, term: Seq<char>, replacement: Seq<char>, count: usize) -> bool {
        &&& (term.len() == 0 ==> count == 0 && *new == *old)
        &&& (term.len() > 0 ==> ({
            let s = old.state();
            let n = replace_count(s.doc, term, replacement, s.doc.len() as int);
            &&& count == n
            &&& new.state() == EditState {
                doc: replaced_doc(s.doc, term, replacement),
                modified: if n > 0 { true } else { s.modified },
                ..save_undo_spec(s)
            }
            &&& new.status_msg@ == "Replaced "@ + decimal(n) + " occurrence(s)"@
            &&& !new.status_error
        }))
        &&& new.same_aside(old)
        &&& new.clipboard == old.clipboard
    }

    /// Replaces every occurrence of `term` by `replacement` in every line, ignoring
    /// case (see [`occurs_folded_at`]), and returns how many were replaced.  An
    /// empty term changes nothing.
    pub fn replace_all(&mut self, term: &str, replacement: &str) -> (count: usize)
        requires
            replace_count(old(self).doc(), term@, replacement@, old(self).doc().len() as int)
                <= usize::MAX,
        ensures
            Self::replace_all_post(old(self), final(self), term@, replacement@, count),
    {
        let t = chars_of(term);
        if t.len() == 0 {
            return 0;
        }
        let rep = chars_of(replacement);
        self.save_undo();
        let ghost doc = self.doc();
        let mut lines: Vec<String> = Vec::new();
        std::mem::swap(&mut lines, &mut self.lines);
        let mut count: usize = 0;
        let mut row: usize = 0;
        while row < lines.len()
            invariant
                t@ == term@,
                rep@ == replacement@,
                t@.len() > 0,
                lines@.len() == doc.len(),
                row <= lines.len(),
                replace_count(doc, term@, replacement@, doc.len() as int) <= usize::MAX,
                count == replace_count(doc, term@, replacement@, row as int),
                forall|i: int| row <= i < doc.len() ==> #[trigger] lines@[i]@ == doc[i],
                forall|i: int| 0 <= i < row ==> #[trigger] lines@[i]@ == replace_from(doc[i], term@, replacement@, 0).0,
            decreases doc.len() - row,
        {
            let (new_line, n) = replace_in_line(lines[row].as_str(), &t, &rep);
            proof {
                assert(lines@[row as int]@ == doc[row as int]);
                lemma_replace_count_mono(doc, term@, replacement@, row + 1, doc.len() as int);
            }
            if n > 0 {
                count = count + n;
                lines.set(row, new_line);
            } else {
                proof {
                    lemma_replace_none(doc[row as int], term@, replacement@, 0);
                    assert(doc[row as int].skip(0) =~= doc[row as int]);
                }
            }
            row = row + 1;
        }
        self.lines = lines;
        proof {
            assert(self.doc() =~= replaced_doc(doc, term@, replacement@));
        }
        if count > 0 {
            self.modified = true;
        }
        let mut msg = String::from_str("Replaced ");
        push_decimal(&mut msg, count);
        push_all(&mut msg, " occurrence(s)");
        self.status_msg = msg;
        self.status_error = false;
        count
    }

    // ── Scrolling ────────────────────────────────────────────────────────────

    /// How the buffer after `update_scroll` relates to the one before.
    pub open spec fn update_scroll_post(old: &Editor, new: &Editor, text_height: usize, text_width: usize) -> bool {
        &&& ({
            let r = old.cursor_row;
            let sr = old.scroll_row;
            new.scroll_row == if r < sr {
                r
            } else if text_height > 0 && r >= sr + text_height {
                (r + 1 - text_height) as usize
            } else {
                sr
            }
        })
        &&& ({
            let c = cursor_index(old.state());
            let sc = old.scroll_col;
            new.scroll_col == if c < sc {
                c as usize
            } else if text_width > 0 && c >= sc + text_width {
                (c + 1 - text_width) as usize
            } else {
                sc
            }
        })
        &&& new.same_text(old)
        &&& new.filename == old.filename
        &&& new.search_term == old.search_term
        &&& (new.search_matches == old.search_matches)
        &&& new.search_idx == old.search_idx
        &&& new.status_msg == old.status_msg
        &&& new.clipboard == old.clipboard
        &&& new.status_error == old.status_error
        &&& new.encoding == old.encoding
        &&& new.has_bom == old.has_bom
    }

    /// Scrolls so that the cursor is within a text area of the given size.
    pub fn update_scroll(&mut self, text_height: usize, text_width: usize)
        requires
            cursor_valid(old(self).state()),
            old(self).cursor_row >= old(self).scroll_row && text_height > 0 ==> old(self).scroll_row
                + text_height <= usize::MAX,
            old(self).cursor_row >= old(self).scroll_row && text_height > 0 ==> old(self).cursor_row
                + 1 <= usize::MAX,
            cursor_index(old(self).state()) >= old(self).scroll_col && text_width > 0 ==> old(
                self,
            ).scroll_col + text_width <= usize::MAX,
            cursor_index(old(self).state()) >= old(self).scroll_col && text_width > 0
                ==> cursor_index(old(self).state()) + 1 <= usize::MAX,
        ensures
            Self::update_scroll_post(old(self), final(self), text_height, text_width),
    {
        if self.cursor_row < self.scroll_row {
            self.scroll_row = self.cursor_row;
        } else if text_height > 0 && self.cursor_row >= self.scroll_row + text_height {
            self.scroll_row = self.cursor_row + 1 - text_height;
        }
        let char_col = self.cursor_char_col();
        if char_col < self.scroll_col {
            self.scroll_col = char_col;
        } else if text_width > 0 && char_col >= self.scroll_col + text_width {
            self.scroll_col = char_col + 1 - text_width;
        }
    }

    // ── File I/O ─────────────────────────────────────────────────────────────

    /// What a buffer made by `open` holds.
    pub open spec fn open_post(ed: &Editor, filename: String, read: Result<Vec<u8>, String>) -> bool {
        &&& ed.filename == Some(filename)
        &&& ed.cursor_row == 0 && ed.cursor_col == 0
        &&& !ed.modified
        &&& ed.selection_anchor is None
        &&& ed.undo_stack@.0.len() == 0 && ed.undo_stack@.1.len() == 0
        &&& lines_view(ed.saved_lines@) == ed.doc()
        &&& ed.clipboard@ == Seq::<char>::empty()
        &&& ed.search_term@ == Seq::<char>::empty()
        &&& (ed.search_matches@.len() == 0)
        &&& (match read {
            Ok(bytes) => {
                let (text, errs) = file_text(bytes@);
                &&& ed.doc() == file_lines(text)
                &&& ed.encoding@ == file_encoding(bytes@)
                &&& ed.has_bom == (bom_kind(bytes@) != 0)
                &&& ed.status_msg@ == read_status(ed.doc().len(), ed.encoding@, errs)
                &&& ed.status_error == errs
            },
            Err(e) => {
                &&& ed.doc() == seq![Seq::<char>::empty()]
                &&& ed.encoding@ == "UTF-8"@
                &&& !ed.has_bom
                &&& ed.status_msg@ == "Error: "@ + e@
                &&& ed.status_error
            },
        })
        &&& cursor_valid(ed.state())
        &&& ed.scroll_row == 0 && ed.scroll_col == 0
        &&& ed.search_idx == 0
    }

    /// A buffer for an existing file, from the result of reading it: its bytes
    /// are decoded in the encoding of their byte-order mark or else the detected
    /// one; a read error leaves the buffer empty with an error status.
    pub fn open(filename: String, read: Result<Vec<u8>, String>) -> (ed: Self)
        ensures
            Self::open_post(&ed, filename, read),
    {
        let mut ed = Editor::new(None);
        match read {
            Ok(bytes) => {
                let (enc, bom_len) = match sniff_bom(bytes.as_slice()) {
                    Some((e, n)) => (e, n),
                    None => (guess_encoding(bytes.as_slice()), 0),
                };
                proof {
                    if bom_kind(bytes@) != 0 {
                        assert(bom_len <= bytes@.len());
                    }
                }
                let body = &bytes.as_slice()[bom_len..bytes.len()];
                assert(body@ =~= bytes@.skip(bom_len as int));
                let (text, had_errors) = decode_with(&enc, body);
                let lines = lines_of_text(text.as_str());
                let n = lines.len();
                let mut msg = String::from_str("Read ");
                push_decimal(&mut msg, n);
                push_all(&mut msg, " lines [");
                push_all(&mut msg, enc.name());
                push_all(&mut msg, "]");
                if had_errors {
                    push_all(&mut msg, " (encoding errors; some chars replaced)");
                }
                proof {
                    assert(msg@ =~= read_status(n as nat, enc@, had_errors));
                }
                ed.saved_lines = clone_lines(&lines);
                ed.lines = lines;
                ed.encoding = enc;
                ed.has_bom = bom_len > 0;
                ed.status_msg = msg;
                ed.status_error = had_errors;
            },
            Err(e) => {
                let mut msg = String::from_str("Error: ");
                push_all(&mut msg, e.as_str());
                ed.status_msg = msg;
                ed.status_error = true;
            },
        }
        ed.filename = Some(filename);
        proof {
            crate::text::lemma_ends_are_boundaries(ed.doc()[0]);
        }
        ed
    }

    /// The bytes to write when saving: the lines joined with newlines plus a
    /// final newline, encoded in the file's encoding (see [`file_bytes_for`]).
    pub fn file_bytes(&self) -> (bytes: Vec<u8>)
        ensures
            bytes@ == file_bytes_for(self.encoding@, self.has_bom, file_content(self.doc())),
    {
        let content = join_with_newlines(&self.lines);
        self.encode_content(content.as_str())
    }

    /// Encodes `content` back to the file's original encoding.
    pub fn encode_content(&self, content: &str) -> (bytes: Vec<u8>)
        ensures
            bytes@ == file_bytes_for(self.encoding@, self.has_bom, content@),
    {
        encode_file_bytes(&self.encoding, self.has_bom, content)
    }

    /// How the buffer after `save_file` relates to the one before.
    pub open spec fn save_file_post(old: &Editor, new: &Editor, path: Seq<char>, written: Result<(), String>, ok: bool) -> bool {
        &&& ok == written is Ok
        &&& (ok ==> (new.filename matches Some(f) && f@ == path))
        &&& (ok ==> !new.modified)
        &&& (ok ==> lines_view(new.saved_lines@) == old.doc())
        &&& (ok ==> new.status_msg@ == "Saved: "@ + path + " ["@ + old.encoding@ + "]"@)
        &&& (ok ==> !new.status_error)
        &&& (!ok ==> new.filename == old.filename)
        &&& (!ok ==> new.modified == old.modified)
        &&& (!ok ==> new.saved_lines == old.saved_lines)
        &&& (written matches Err(e) ==> new.status_msg@ == "Save error: "@ + e@)
        &&& (!ok ==> new.status_error)
        &&& new.lines == old.lines
        &&& new.cursor_row == old.cursor_row
        &&& new.cursor_col == old.cursor_col
        &&& new.selection_anchor == old.selection_anchor
        &&& new.undo_stack == old.undo_stack
        &&& new.encoding == old.encoding
        &&& new.has_bom == old.has_bom
        &&& new.clipboard == old.clipboard
        &&& new.scroll_row == old.scroll_row
        &&& new.scroll_col == old.scroll_col
        &&& new.search_term == old.search_term
        &&& new.search_matches == old.search_matches
        &&& new.search_idx == old.search_idx
    }

    /// Records the outcome of writing the file to `path`: on success the buffer
    /// takes that name and counts as saved; on failure the status reports the error.
    pub fn save_file(&mut self, path: &str, written: Result<(), String>) -> (ok: bool)
        ensures
            Self::save_file_post(old(self), final(self), path@, written, ok),
    {
        match written {
            Ok(()) => {
                self.filename = Some(String::from_str(path));
                self.modified = false;
                self.saved_lines = clone_lines(&self.lines);
                let mut msg = String::from_str("Saved: ");
                push_all(&mut msg, path);
                push_all(&mut msg, " [");
                push_all(&mut msg, self.encoding.name());
                push_all(&mut msg, "]");
                self.status_msg = msg;
                self.status_error = false;
                true
            },
            Err(e) => {
                let mut msg = String::from_str("Save error: ");
                push_all(&mut msg, e.as_str());
                self.status_msg = msg;
                self.status_error = true;
                false
            },
        }
    }
}

} // verus!
