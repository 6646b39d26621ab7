//! The text area: for each visible row, the line-number gutter and the chars
//! shown with the selection and the search matches marked, or a `~` past the
//! end of the text; and where the terminal cursor goes.
use crate::editor::{Editor, cursor_index, cursor_valid, pos_le, pos_lt, selection_of};
use crate::prompt::sat_sub;
use crate::screen::{blanks, min_nat, push_blanks};
use crate::text::{
    byte_len, byte_offset, char_index, char_width_of, chars_of, decimal, index_of_offset, is_boundary,
    lemma_byte_offset_step, lemma_char_index, push_all, push_char, push_decimal,
};
use vstd::prelude::*;

verus! {

/// How a char of the text area is shown.
pub enum CellStyle {
    Plain,
    /// In the selection.
    Selected,
    /// In a search match.
    Found,
}

/// The position `(row, b)` lies in the selection of `ed`.
pub open spec fn in_selection(ed: Editor, row: usize, b: nat) -> bool {
    match selection_of(ed.state()) {
        Some((s, e)) => pos_le(s, (row, b as usize)) && pos_lt((row, b as usize), e),
        None => false,
    }
}

/// The number of leading matches of `ms` on rows up to `last`: the matches
/// are taken in order until one lies below the visible rows.
pub open spec fn visible_cut(ms: Seq<(usize, usize)>, last: usize, i: int) -> int
    decreases ms.len() - i,
{
    if i < 0 || i >= ms.len() {
        ms.len() as int
    } else if ms[i].0 > last {
        i
    } else {
        visible_cut(ms, last, i + 1)
    }
}

/// Char `k` of row `row` of `ed` lies in one of its visible search matches:
/// from the char at a match's start, as many chars as the search term has.
pub open spec fn in_found(ed: Editor, first: usize, last: usize, row: int, k: int) -> bool {
    let ms = ed.search_matches@;
    let line = ed.doc()[row];
    &&& ed.search_term@.len() > 0
    &&& row >= first
    &&& exists|i: int|
        #![trigger ms[i]]
        0 <= i < visible_cut(ms, last, 0) && ms[i].0 == row && is_boundary(line, ms[i].1 as int)
            && char_index(line, ms[i].1 as int) <= k < char_index(line, ms[i].1 as int)
            + ed.search_term@.len()
}

/// How char `k` of row `row` is shown: the selection first, then the matches.
pub open spec fn cell_style(ed: Editor, first: usize, last: usize, row: int, k: int) -> CellStyle {
    if in_selection(ed, row as usize, byte_offset(ed.doc()[row], k)) {
        CellStyle::Selected
    } else if in_found(ed, first, last, row, k) {
        CellStyle::Found
    } else {
        CellStyle::Plain
    }
}

/// The chars of row `row` shown in a text area `tw` columns wide: those from
/// the scroll column on, with their styles.
pub open spec fn row_cells(ed: Editor, first: usize, last: usize, row: int, tw: usize) -> Seq<
    (char, CellStyle),
> {
    let line = ed.doc()[row];
    let start = ed.scroll_col as int;
    let end = min_nat(line.len(), (start + tw) as nat) as int;
    Seq::new(sat_sub(end, start), |j: int| (line[start + j], cell_style(ed, first, last, row, start + j)))
}

/// `s` right-aligned in `n` columns.
pub open spec fn align_right(s: Seq<char>, n: nat) -> Seq<char> {
    if s.len() >= n {
        s
    } else {
        blanks((n - s.len()) as nat) + s
    }
}

/// The gutter of a row for file row `r`, in a gutter `lnw` wide: the line
/// number right-aligned before a space, or blanks past the end of the text.
pub open spec fn gutter_text(r: int, n_lines: nat, lnw: usize) -> Seq<char> {
    if lnw == 0 {
        Seq::empty()
    } else if r < n_lines {
        let g = align_right(decimal((r + 1) as nat), (lnw - 1) as nat) + " "@;
        g.take(min_nat(g.len(), lnw as nat) as int)
    } else {
        blanks(lnw as nat)
    }
}

/// A row of the text area: its gutter, then either the shown chars of its
/// line and the spaces padding it, or a `~` and the spaces after it.
pub struct TextRow {
    pub gutter: String,
    pub cells: Vec<(char, CellStyle)>,
    pub pad: usize,
    pub tilde: bool,
    pub tail: usize,
}

/// A text-area row as plain values.
pub open spec fn text_row_view(r: TextRow) -> (Seq<char>, Seq<(char, CellStyle)>, usize, bool, usize) {
    (r.gutter@, r.cells@, r.pad, r.tilde, r.tail)
}

/// The spaces after the `printed` chars of a line, so that the row fills the
/// text area (`tw` columns after a gutter `lnw` wide, on a screen `w` wide).
pub open spec fn line_pad(printed: nat, tw: usize, lnw: usize, w: usize) -> nat {
    if printed < tw {
        let pad_end = min_nat((lnw + tw) as nat, w as nat);
        sat_sub(pad_end as int, lnw + printed)
    } else {
        0
    }
}

/// Row `i` of the text area of `ed`, `tw` columns after a gutter `lnw` wide on
/// a screen `w` wide, with the visible rows from `first` to `last`.
pub open spec fn text_row_spec(
    ed: Editor,
    first: usize,
    last: usize,
    i: int,
    tw: usize,
    lnw: usize,
    w: usize,
) -> (Seq<char>, Seq<(char, CellStyle)>, usize, bool, usize) {
    let r = ed.scroll_row + i;
    let n = ed.doc().len();
    let g = gutter_text(r, n, lnw);
    if r < n {
        let cells = row_cells(ed, first, last, r, tw);
        (g, cells, line_pad(cells.len(), tw, lnw, w) as usize, false, 0)
    } else {
        (g, Seq::empty(), 0, true, sat_sub(w as int, lnw + 1) as usize)
    }
}

/// The last visible row for a text area `th` rows high.
pub open spec fn last_visible(ed: Editor, th: usize) -> usize {
    let s = ed.scroll_row + th;
    let cap = if s > usize::MAX {
        usize::MAX as int
    } else {
        s
    };
    if cap >= 1 {
        (cap - 1) as usize
    } else {
        0
    }
}

/// The selected part of a line, from byte `cs` to byte `ce`, can be walked
/// char by char: when it is not empty, it starts at a char boundary and ends no
/// more than one byte past the end of the line.
pub open spec fn span_ok(line: Seq<char>, cs: int, ce: int) -> bool {
    cs < ce ==> is_boundary(line, cs) && ce <= byte_len(line) + 1
}

/// Drawing the rows from `first` to `last` only ever starts a highlight at a
/// char boundary: every visible search match on a line starts at one, and the
/// selected part of each visible row of the selection can be walked (see
/// [`span_ok`]).  The rows strictly inside the selection are selected whole
/// and always can; the first and the last row of the selection are checked.
pub open spec fn draw_ok(ed: Editor, first: usize, last: usize) -> bool {
    let ms = ed.search_matches@;
    let doc = ed.doc();
    &&& ed.search_term@.len() > 0 ==> forall|i: int|
        #![trigger ms[i]]
        0 <= i < visible_cut(ms, last, 0) && first <= ms[i].0 < doc.len() ==> is_boundary(
            doc[ms[i].0 as int],
            ms[i].1 as int,
        )
    &&& match selection_of(ed.state()) {
        Some((s, e)) => {
            &&& first <= s.0 <= last && s.0 < doc.len() ==> span_ok(
                doc[s.0 as int],
                s.1 as int,
                if s.0 == e.0 {
                    e.1 as int
                } else {
                    byte_len(doc[s.0 as int]) as int
                },
            )
            &&& first <= e.0 <= last && e.0 < doc.len() && s.0 != e.0 ==> span_ok(
                doc[e.0 as int],
                0,
                e.1 as int,
            )
        },
        None => true,
    }
}

/// The number of leading matches on rows up to `last` (see [`visible_cut`]).
fn visible_count(ms: &Vec<(usize, usize)>, last: usize) -> (c: usize)
    ensures
        c == visible_cut(ms@, last, 0),
        c <= ms@.len(),
{
    let mut i: usize = 0;
    while i < ms.len()
        invariant
            i <= ms@.len(),
            visible_cut(ms@, last, 0) == visible_cut(ms@, last, i as int),
        decreases ms@.len() - i,
    {
        if ms[i].0 > last {
            return i;
        }
        i = i + 1;
    }
    i
}

/// Char `k` lies in one of the intervals that start at `starts`, each `m` chars long.
pub open spec fn covered(starts: Seq<usize>, m: nat, k: int) -> bool {
    exists|j: int| #![trigger starts[j]] 0 <= j < starts.len() && starts[j] <= k < starts[j] + m
}

/// Char `k` of `line` lies in one of the first `i` matches of `ms` on row `row`.
pub open spec fn found_upto(ms: Seq<(usize, usize)>, line: Seq<char>, row: usize, i: int, m: nat, k: int) -> bool {
    exists|x: int|
        #![trigger ms[x]]
        0 <= x < i && ms[x].0 == row && is_boundary(line, ms[x].1 as int) && char_index(
            line,
            ms[x].1 as int,
        ) <= k < char_index(line, ms[x].1 as int) + m
}

/// The char intervals of row `row` that the visible search matches cover, by
/// their starts (each as long as the search term).
fn found_intervals(ed: &Editor, first: usize, last: usize, row: usize, cut: usize) -> (r: Vec<usize>)
    requires
        ed.search_term@.len() > 0,
        draw_ok(*ed, first, last),
        first <= row < ed.doc().len(),
        cut == visible_cut(ed.search_matches@, last, 0),
        cut <= ed.search_matches@.len(),
    ensures
        forall|k: int|
            #[trigger] covered(r@, ed.search_term@.len(), k) <==> in_found(*ed, first, last, row as int, k),
{
    let ms = &ed.search_matches;
    let v = chars_of(ed.lines[row].as_str());
    let ghost line = ed.doc()[row as int];
    assert(v@ == line);
    let ghost m = ed.search_term@.len();
    let mut r: Vec<usize> = Vec::new();
    let mut i: usize = 0;
    while i < cut
        invariant
            i <= cut,
            cut <= ms@.len(),
            ms@ == ed.search_matches@,
            v@ == line,
            line == ed.doc()[row as int],
            m == ed.search_term@.len(),
            m > 0,
            first <= row < ed.doc().len(),
            cut == visible_cut(ms@, last, 0),
            draw_ok(*ed, first, last),
            forall|k: int| #[trigger] covered(r@, m, k) <==> found_upto(ms@, line, row, i as int, m, k),
        decreases cut - i,
    {
        let (mr, mc) = ms[i];
        let ghost r0 = r@;
        if mr == row {
            assert(is_boundary(line, mc as int));
            match index_of_offset(&v, mc) {
                Some(k) => {
                    r.push(k);
                },
                None => {},
            }
        }
        proof {
            assert forall|k: int| #[trigger] covered(r@, m, k) <==> found_upto(ms@, line, row, i + 1, m, k) by {
                if covered(r@, m, k) {
                    let j = choose|j: int| #![trigger r@[j]] 0 <= j < r@.len() && r@[j] <= k < r@[j] + m;
                    if j < r0.len() {
                        assert(r0[j] == r@[j]);
                        assert(covered(r0, m, k));
                    } else {
                        assert(ms@[i as int].0 == row);
                    }
                }
                if found_upto(ms@, line, row, i + 1, m, k) {
                    let x = choose|x: int|
                        #![trigger ms@[x]]
                        0 <= x < i + 1 && ms@[x].0 == row && is_boundary(line, ms@[x].1 as int) && char_index(
                            line,
                            ms@[x].1 as int,
                        ) <= k < char_index(line, ms@[x].1 as int) + m;
                    if x < i {
                        assert(found_upto(ms@, line, row, i as int, m, k));
                        assert(covered(r0, m, k));
                        let j = choose|j: int| #![trigger r0[j]] 0 <= j < r0.len() && r0[j] <= k < r0[j] + m;
                        assert(r@[j] == r0[j]);
                    } else {
                        assert(r@[r0.len() as int] == char_index(line, ms@[x].1 as int));
                    }
                }
            }
        }
        i = i + 1;
    }
    proof {
        assert forall|k: int| #[trigger] covered(r@, m, k) <==> in_found(*ed, first, last, row as int, k) by {
            assert(found_upto(ms@, line, row, cut as int, m, k) == in_found(*ed, first, last, row as int, k));
        }
    }
    r
}

/// Whether char `k` lies in one of the intervals starting at `starts`, each `m` long.
fn in_intervals(starts: &Vec<usize>, m: usize, k: usize) -> (b: bool)
    ensures
        b == covered(starts@, m as nat, k as int),
{
    let mut j: usize = 0;
    while j < starts.len()
        invariant
            j <= starts@.len(),
            forall|x: int| 0 <= x < j ==> !(#[trigger] starts@[x] <= k < starts@[x] + m),
        decreases starts@.len() - j,
    {
        if starts[j] <= k && k - starts[j] < m {
            return true;
        }
        j = j + 1;
    }
    false
}

/// The gutter for file row `r` in a gutter `lnw` wide (see [`gutter_text`]).
fn gutter(r: usize, n_lines: usize, lnw: usize) -> (g: String)
    ensures
        g@ == gutter_text(r as int, n_lines as nat, lnw),
{
    if lnw == 0 {
        return String::new();
    }
    if r >= n_lines {
        let mut g = String::new();
        push_blanks(&mut g, lnw);
        return g;
    }
    let mut num = String::new();
    push_decimal(&mut num, r + 1);
    let nl = chars_of(num.as_str()).len();
    let mut g = String::new();
    if nl < lnw - 1 {
        push_blanks(&mut g, lnw - 1 - nl);
    }
    push_all(&mut g, num.as_str());
    push_char(&mut g, ' ');
    proof {
        reveal_strlit(" ");
        assert(g@ =~= align_right(decimal((r + 1) as nat), (lnw - 1) as nat) + " "@);
    }
    crate::screen::truncate_chars(g.as_str(), lnw)
}

/// The rows of the text area of `editor`, `text_height` rows of `text_width`
/// columns after a gutter `lnw` wide, on a screen `w` wide (see [`text_row_spec`]).
pub fn draw_text_area(editor: &Editor, text_height: usize, text_width: usize, lnw: usize, w: usize) -> (rows: Vec<TextRow>)
    requires
        editor.scroll_row + text_height <= usize::MAX,
        lnw + text_width <= usize::MAX,
        draw_ok(*editor, editor.scroll_row, last_visible(*editor, text_height)),
    ensures
        rows@.map_values(|r: TextRow| text_row_view(r)) == Seq::new(
            text_height as nat,
            |i: int| text_row_spec(
                *editor,
                editor.scroll_row,
                last_visible(*editor, text_height),
                i,
                text_width,
                lnw,
                w,
            ),
        ),
{
    let first = editor.scroll_row;
    let last = if text_height >= 1 {
        first + text_height - 1
    } else if first >= 1 {
        first - 1
    } else {
        0
    };
    assert(last == last_visible(*editor, text_height));
    let n = editor.lines.len();
    assert(editor.doc().len() == n);
    let cut = visible_count(&editor.search_matches, last);
    let sel = editor.selection_ordered();
    let searching = !editor.search_term.as_str().is_empty();
    let m = chars_of(editor.search_term.as_str()).len();
    let ghost want = Seq::new(
        text_height as nat,
        |i: int| text_row_spec(*editor, first, last, i, text_width, lnw, w),
    );
    let mut rows: Vec<TextRow> = Vec::new();
    let mut i: usize = 0;
    while i < text_height
        invariant
            i <= text_height,
            first == editor.scroll_row,
            last == last_visible(*editor, text_height),
            first + text_height <= usize::MAX,
            lnw + text_width <= usize::MAX,
            n == editor.doc().len(),
            n == editor.lines@.len(),
            cut == visible_cut(editor.search_matches@, last, 0),
            cut <= editor.search_matches@.len(),
            sel == selection_of(editor.state()),
            searching == (editor.search_term@.len() > 0),
            m == editor.search_term@.len(),
            draw_ok(*editor, first, last),
            want == Seq::new(
                text_height as nat,
                |i: int| text_row_spec(*editor, first, last, i, text_width, lnw, w),
            ),
            rows@.map_values(|r: TextRow| text_row_view(r)) == want.take(i as int),
        decreases text_height - i,
    {
        let r = first + i;
        let g = gutter(r, n, lnw);
        let row = if r < n {
            let v = chars_of(editor.lines[r].as_str());
            let ghost line = editor.doc()[r as int];
            assert(v@ == line);
            let bl = crate::text::utf8_len(editor.lines[r].as_str());
            let starts = if searching && r >= first {
                found_intervals(editor, first, last, r, cut)
            } else {
                Vec::new()
            };
            let start = editor.scroll_col;
            let end = if start >= v.len() {
                start
            } else if text_width >= v.len() - start {
                v.len()
            } else {
                start + text_width
            };
            let ghost cells_spec = row_cells(*editor, first, last, r as int, text_width);
            let mut cells: Vec<(char, CellStyle)> = Vec::new();
            let mut b: usize = 0;
            let mut k: usize = 0;
            // The byte offset of the first shown char.
            while k < start && k < v.len()
                invariant
                    k <= v@.len(),
                    k <= start,
                    v@ == line,
                    b == byte_offset(line, k as int),
                    b <= crate::text::byte_len(line),
                    crate::text::byte_len(line) <= usize::MAX,
                decreases v@.len() - k,
            {
                proof {
                    lemma_byte_offset_step(line, k as int);
                    crate::text::lemma_byte_offset_mono(line, k + 1, line.len() as int);
                    crate::text::lemma_byte_offset_full(line);
                }
                b = b + char_width_of(v[k]);
                k = k + 1;
            }
            let mut k = start;
            while k < end
                invariant
                    start <= k <= end,
                    end <= v@.len() || end == start,
                    start == editor.scroll_col,
                    v@ == line,
                    line == editor.doc()[r as int],
                    r < n,
                    k < end ==> b == byte_offset(line, k as int),
                    k < end ==> b <= crate::text::byte_len(line),
                    crate::text::byte_len(line) <= usize::MAX,
                    cells_spec == row_cells(*editor, first, last, r as int, text_width),
                    end == min_nat(line.len(), (start + text_width) as nat) || (start >= line.len() && end == start),
                    cells@ == cells_spec.take(k - start),
                    sel == selection_of(editor.state()),
                    searching == (editor.search_term@.len() > 0),
                    m == editor.search_term@.len(),
                    searching && r >= first ==> forall|q: int|
                        #[trigger] covered(starts@, m as nat, q) <==> in_found(*editor, first, last, r as int, q),
                decreases end - k,
            {
                let c = v[k];
                let in_sel = match sel {
                    Some((s, e)) => (s.0 < r || (s.0 == r && s.1 <= b)) && (r < e.0 || (r == e.0 && b < e.1)),
                    None => false,
                };
                let style = if in_sel {
                    CellStyle::Selected
                } else if searching && r >= first && in_intervals(&starts, m, k) {
                    CellStyle::Found
                } else {
                    CellStyle::Plain
                };
                proof {
                    assert(in_sel == in_selection(*editor, r, b as nat));
                    assert(style == cell_style(*editor, first, last, r as int, k as int));
                }
                cells.push((c, style));
                proof {
                    lemma_byte_offset_step(line, k as int);
                    crate::text::lemma_byte_offset_mono(line, k + 1, line.len() as int);
                    crate::text::lemma_byte_offset_full(line);
                    assert(cells@ =~= cells_spec.take(k + 1 - start));
                }
                if k + 1 < end {
                    b = b + char_width_of(c);
                }
                k = k + 1;
            }
            let printed = cells.len();
            let pad = if printed < text_width {
                let pad_end = if lnw + text_width <= w {
                    lnw + text_width
                } else {
                    w
                };
                if pad_end > lnw && pad_end - lnw > printed {
                    pad_end - lnw - printed
                } else {
                    0
                }
            } else {
                0
            };
            assert(cells_spec.take(end - start) =~= cells_spec);
            TextRow { gutter: g, cells, pad, tilde: false, tail: 0 }
        } else {
            let tail = if w > lnw {
                w - lnw - 1
            } else {
                0
            };
            TextRow { gutter: g, cells: Vec::new(), pad: 0, tilde: true, tail }
        };
        let ghost before = rows@.map_values(|r: TextRow| text_row_view(r));
        let ghost rv = text_row_view(row);
        rows.push(row);
        assert(rows@.map_values(|r: TextRow| text_row_view(r)) =~= before.push(rv));
        assert(rv == want[i as int]);
        i = i + 1;
        assert(rows@.map_values(|r: TextRow| text_row_view(r)) =~= want.take(i as int));
    }
    assert(want.take(text_height as int) =~= want);
    rows
}

/// Where the terminal cursor goes for `editor` with a gutter `lnw` wide on a
/// screen `w` wide and `h` high: below the tab bar, at its row and char column
/// relative to the scroll, when that is inside the text area.
pub open spec fn cursor_place_spec(ed: Editor, lnw: usize, w: usize, h: usize) -> Option<(usize, usize)> {
    let row = sat_sub(ed.cursor_row as int, ed.scroll_row as int) + 1;
    let col = sat_sub(cursor_index(ed.state()), ed.scroll_col as int) + lnw;
    if row + 3 < h && col < w {
        Some((col as usize, row as usize))
    } else {
        None
    }
}

/// Where the terminal cursor goes (see [`cursor_place_spec`]), as column and row.
pub fn cursor_place(editor: &Editor, lnw: usize, w: usize, h: usize) -> (p: Option<(usize, usize)>)
    requires
        cursor_valid(editor.state()),
    ensures
        p == cursor_place_spec(*editor, lnw, w, h),
{
    let row = if editor.cursor_row >= editor.scroll_row {
        editor.cursor_row - editor.scroll_row
    } else {
        0
    };
    let c = editor.cursor_char_col();
    let cc = if c >= editor.scroll_col {
        c - editor.scroll_col
    } else {
        0
    };
    if row >= h || h - row <= 4 {
        return None;
    }
    if cc >= w || lnw >= w - cc {
        return None;
    }
    Some((cc + lnw, row + 1))
}

/// Whether the byte offset `c` is a char boundary of line `r` of `ed`.
fn boundary_at(ed: &Editor, r: usize, c: usize) -> (b: bool)
    requires
        r < ed.doc().len(),
    ensures
        b == is_boundary(ed.doc()[r as int], c as int),
{
    assert(ed.doc()[r as int] == ed.lines@[r as int]@);
    let v = chars_of(ed.lines[r].as_str());
    index_of_offset(&v, c).is_some()
}

/// Whether the text area of `editor`, `text_height` rows high, can be drawn
/// (see [`draw_ok`]).
pub fn can_draw(editor: &Editor, text_height: usize) -> (b: bool)
    ensures
        b == draw_ok(*editor, editor.scroll_row, last_visible(*editor, text_height)),
{
    let first = editor.scroll_row;
    let last = if editor.scroll_row > usize::MAX - text_height {
        usize::MAX - 1
    } else if text_height >= 1 {
        first + text_height - 1
    } else if first >= 1 {
        first - 1
    } else {
        0
    };
    assert(last == last_visible(*editor, text_height));
    let n = editor.lines.len();
    assert(editor.doc().len() == n);
    let ghost ms = editor.search_matches@;
    if !editor.search_term.as_str().is_empty() {
        let cut = visible_count(&editor.search_matches, last);
        let mut i: usize = 0;
        while i < cut
            invariant
                i <= cut,
                first == editor.scroll_row,
                last == last_visible(*editor, text_height),
                editor.search_term@.len() > 0,
                cut == visible_cut(ms, last, 0),
                cut <= ms.len(),
                ms == editor.search_matches@,
                n == editor.doc().len(),
                forall|x: int|
                    #![trigger ms[x]]
                    0 <= x < i && first <= ms[x].0 < n ==> is_boundary(
                        editor.doc()[ms[x].0 as int],
                        ms[x].1 as int,
                    ),
            decreases cut - i,
        {
            let (r, c) = editor.search_matches[i];
            if first <= r && r < n {
                if !boundary_at(editor, r, c) {
                    assert(ms[i as int].0 == r && ms[i as int].1 == c);
                    assert(!draw_ok(*editor, first, last));
                    return false;
                }
            }
            i = i + 1;
        }
    }
    match editor.selection_ordered() {
        Some((s, e)) => {
            if first <= s.0 && s.0 <= last && s.0 < n {
                let bl = crate::text::utf8_len(editor.lines[s.0].as_str());
                let ce = if s.0 == e.0 {
                    e.1
                } else {
                    bl
                };
                if s.1 < ce && (!boundary_at(editor, s.0, s.1) || (ce > bl && ce - bl > 1)) {
                    return false;
                }
            }
            if first <= e.0 && e.0 <= last && e.0 < n && s.0 != e.0 {
                let bl = crate::text::utf8_len(editor.lines[e.0].as_str());
                if 0 < e.1 && e.1 > bl && e.1 - bl > 1 {
                    return false;
                }
                proof {
                    crate::text::lemma_ends_are_boundaries(editor.doc()[e.0 as int]);
                }
            }
        },
        None => {},
    }
    true
}

} // verus!
