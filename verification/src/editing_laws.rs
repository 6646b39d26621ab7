//! What searching backwards, the selected text, the word operations and the
//! key names are for, stated over the chars of the document.
use crate::editor::{Doc, Editor, join_lines, last_before, text_between};
use crate::editor::{EditState, chars_before, cursor_valid, delete_word_before_spec, next_word_col};
use crate::text::{
    NOT_WORD, WHITESPACE, WORD, byte_offset, char_index, floor_index, in_class, is_boundary, leading_run,
    lemma_char_index, trailing_run, unicode_alphanumeric, unicode_whitespace,
};
use crate::config::{Action, default_keys};
use crate::keys::{Key, KeyInput, key_name_spec};
use crate::text::{decimal, first_lowercase};
use vstd::prelude::*;

verus! {

/// The match found among the first `i` by scanning backwards is the last of
/// them that lies before `pos` (row first, then column), and none lies before
/// `pos` when the scan finds nothing.
proof fn lemma_last_before(ms: Seq<(usize, usize)>, pos: (usize, usize), i: int)
    requires
        0 <= i <= ms.len(),
    ensures
        last_before(ms, pos, i) >= 0 ==> ({
            let j = last_before(ms, pos, i);
            &&& j < i
            &&& (ms[j].0 < pos.0 || (ms[j].0 == pos.0 && ms[j].1 < pos.1))
            &&& forall|k: int| j < k < i ==> !(ms[k].0 < pos.0 || (ms[k].0 == pos.0 && ms[k].1 < pos.1))
        }),
        last_before(ms, pos, i) < 0 ==> last_before(ms, pos, i) == -1 && forall|k: int|
            0 <= k < i ==> !(ms[k].0 < pos.0 || (ms[k].0 == pos.0 && ms[k].1 < pos.1)),
    decreases i,
{
    if i > 0 {
        lemma_last_before(ms, pos, i - 1);
    }
}

/// Searching backwards goes to the previous match: the last match (in the
/// order the matches were found) that lies strictly before the cursor, row
/// first and then column, with the status `Match <i>/<n>: <term>`.  Only when
/// no match lies before the cursor does it wrap around to the last match, with
/// the status `Wrapped. Match <n>/<n>: <term>`.  When the matches are in
/// document order, the match it goes to is the nearest one before the cursor:
/// no match before the cursor comes after it.
pub proof fn law_search_prev_goes_to_previous_match(old: Editor, new: Editor, found: bool)
    requires
        Editor::search_prev_post(&old, &new, found),
    ensures
        found == (old.search_matches@.len() > 0),
        !found ==> new == old,
        found ==> ({
            let ms = old.search_matches@;
            let n = ms.len();
            let (r, c) = (old.cursor_row, old.cursor_col);
            let j = new.search_idx as int;
            let before_cursor = exists|i: int|
                0 <= i < n && (#[trigger] ms[i].0 < r || (ms[i].0 == r && ms[i].1 < c));
            &&& 0 <= j < n
            &&& new.cursor_row == ms[j].0 && new.cursor_col == ms[j].1
            &&& new.lines == old.lines
            &&& before_cursor ==> {
                &&& (ms[j].0 < r || (ms[j].0 == r && ms[j].1 < c))
                &&& forall|k: int| j < k < n ==> !(ms[k].0 < r || (ms[k].0 == r && ms[k].1 < c))
                &&& new.status_msg@ == "Match "@ + decimal((j + 1) as nat) + "/"@ + decimal(n) + ": "@
                    + old.search_term@
                &&& (forall|x: int, y: int|
                    0 <= x < y < n ==> (ms[x].0 < ms[y].0 || (ms[x].0 == ms[y].0 && ms[x].1 < ms[y].1)))
                    ==> forall|i: int|
                    0 <= i < n && (ms[i].0 < r || (ms[i].0 == r && ms[i].1 < c)) ==> !(ms[j].0 < ms[i].0
                        || (ms[j].0 == ms[i].0 && ms[j].1 < ms[i].1))
            }
            &&& !before_cursor ==> {
                &&& j == n - 1
                &&& new.status_msg@ == "Wrapped. "@ + "Match "@ + decimal(n) + "/"@ + decimal(n) + ": "@
                    + old.search_term@
            }
        }),
{
    let ms = old.search_matches@;
    let pos = (old.cursor_row, old.cursor_col);
    lemma_last_before(ms, pos, ms.len() as int);
    if found {
        let n = ms.len();
        let j = new.search_idx as int;
        let r = old.cursor_row;
        let c = old.cursor_col;
        if exists|i: int| 0 <= i < n && (#[trigger] ms[i].0 < r || (ms[i].0 == r && ms[i].1 < c)) {
            let i = choose|i: int| 0 <= i < n && (#[trigger] ms[i].0 < r || (ms[i].0 == r && ms[i].1 < c));
            assert(last_before(ms, pos, n as int) >= 0);
        } else {
            let t = old.search_term@;
            assert(crate::editor::wrapped_status(n, n, t) =~= "Wrapped. "@ + "Match "@ + decimal(n) + "/"@
                + decimal(n) + ": "@ + t);
        }
    }
}


/// Joining two non-empty runs of lines puts a newline between their texts.
proof fn lemma_join_concat(a: Doc, b: Doc)
    requires
        a.len() > 0,
        b.len() > 0,
    ensures
        join_lines(a + b) == join_lines(a) + seq!['\n'] + join_lines(b),
    decreases b.len(),
{
    if b.len() == 1 {
        assert((a + b).drop_last() =~= a);
    } else {
        lemma_join_concat(a, b.drop_last());
        assert((a + b).drop_last() =~= a + b.drop_last());
        assert(join_lines(a) + seq!['\n'] + join_lines(b.drop_last()) + seq!['\n'] + b.last()
            =~= join_lines(a) + seq!['\n'] + (join_lines(b.drop_last()) + seq!['\n'] + b.last()));
    }
}

/// Text written after the last line continues that line.
proof fn lemma_join_extend(a: Doc, x: Seq<char>, y: Seq<char>)
    ensures
        join_lines(a.push(x)) + y == join_lines(a.push(x + y)),
{
    assert(a.push(x).drop_last() =~= a);
    assert(a.push(x + y).drop_last() =~= a);
    if a.len() == 0 {
    } else {
        assert(join_lines(a) + seq!['\n'] + x + y =~= join_lines(a) + seq!['\n'] + (x + y));
    }
}

/// The text of lines ending in `x`, followed by the text of lines starting
/// with `z`, is the text of the lines with `x` and `z` made one line.
proof fn lemma_join_glue(a: Doc, x: Seq<char>, z: Seq<char>, b: Doc)
    ensures
        join_lines(a.push(x)) + join_lines(seq![z] + b) == join_lines(a + seq![x + z] + b),
{
    if b.len() == 0 {
        assert(seq![z] + b =~= seq![z]);
        assert(a + seq![x + z] + b =~= a.push(x + z));
        lemma_join_extend(a, x, z);
    } else {
        lemma_join_concat(seq![z], b);
        lemma_join_extend(a, x, z);
        lemma_join_concat(a.push(x + z), b);
        assert(a + seq![x + z] + b =~= a.push(x + z) + b);
        assert(join_lines(a.push(x)) + (z + seq!['\n'] + join_lines(b)) =~= (join_lines(a.push(x))
            + z) + seq!['\n'] + join_lines(b));
    }
}

/// The selected text is exactly the document's text between the selection's
/// start and end: the document's text (its lines joined by newlines) is the
/// text before the start, then the selected text, then the text after the end.
/// The text before a position is the lines above it joined with the part of
/// its line before it; the text after is the part of its line after it joined
/// with the lines below.
pub proof fn law_selected_text_is_between(doc: Doc, start: (usize, usize), end: (usize, usize))
    requires
        start.0 < doc.len(),
        end.0 < doc.len(),
        is_boundary(doc[start.0 as int], start.1 as int),
        is_boundary(doc[end.0 as int], end.1 as int),
        start.0 < end.0 || (start.0 == end.0 && start.1 <= end.1),
    ensures
        ({
            let ks = char_index(doc[start.0 as int], start.1 as int);
            let ke = char_index(doc[end.0 as int], end.1 as int);
            let before = join_lines(doc.take(start.0 as int).push(doc[start.0 as int].take(ks)));
            let after = join_lines(seq![doc[end.0 as int].skip(ke)] + doc.skip(end.0 + 1));
            join_lines(doc) == before + text_between(doc, start, end) + after
        }),
{
    let sr = start.0 as int;
    let er = end.0 as int;
    let ls = doc[sr];
    let le = doc[er];
    let ks = char_index(ls, start.1 as int);
    let ke = char_index(le, end.1 as int);
    lemma_char_index(ls, start.1 as int);
    lemma_char_index(le, end.1 as int);
    let after_rows = doc.skip(er + 1);
    if sr == er {
        if ks > ke {
            crate::text::lemma_byte_offset_mono(ls, ke, ks);
        }
        let mid = ls.subrange(ks, ke);
        lemma_join_extend(doc.take(sr), ls.take(ks), mid);
        assert(ls.take(ks) + mid =~= ls.take(ke));
        lemma_join_glue(doc.take(sr), ls.take(ke), le.skip(ke), after_rows);
        assert(ls.take(ke) + le.skip(ke) =~= ls);
        assert(doc.take(sr) + seq![ls] + after_rows =~= doc);
    } else {
        let mid = doc.subrange(sr + 1, er);
        let first = ls.skip(ks);
        let last = le.take(ke);
        assert(seq![first] + mid + seq![last] =~= seq![first] + (mid + seq![last]));
        lemma_join_glue(doc.take(sr), ls.take(ks), first, mid + seq![last]);
        assert(ls.take(ks) + first =~= ls);
        assert(doc.take(sr) + seq![ls] + (mid + seq![last]) =~= doc.take(er).push(last));
        lemma_join_glue(doc.take(er), last, le.skip(ke), after_rows);
        assert(last + le.skip(ke) =~= le);
        assert(doc.take(er) + seq![le] + after_rows =~= doc);
    }
}


/// The chars that a trailing run counts are all of the class, and the char
/// before them, if any, is not.
proof fn lemma_trailing_run_exact(s: Seq<char>, class: u8)
    ensures
        trailing_run(s, class) <= s.len(),
        forall|i: int| s.len() - trailing_run(s, class) <= i < s.len() ==> in_class(#[trigger] s[i], class),
        trailing_run(s, class) < s.len() ==> !in_class(s[s.len() - trailing_run(s, class) - 1], class),
    decreases s.len(),
{
    if s.len() > 0 && in_class(s.last(), class) {
        let t = s.drop_last();
        lemma_trailing_run_exact(t, class);
        assert forall|i: int| s.len() - trailing_run(s, class) <= i < s.len() implies in_class(#[trigger] s[i], class) by {
            if i < s.len() - 1 {
                assert(s[i] == t[i]);
            }
        }
    }
}

/// The chars that a leading run counts are all of the class, and the char
/// after them, if any, is not.
proof fn lemma_leading_run_exact(s: Seq<char>, class: u8)
    ensures
        leading_run(s, class) <= s.len(),
        forall|i: int| 0 <= i < leading_run(s, class) ==> in_class(#[trigger] s[i], class),
        leading_run(s, class) < s.len() ==> !in_class(s[leading_run(s, class) as int], class),
    decreases s.len(),
{
    if s.len() > 0 && in_class(s[0], class) {
        let t = s.drop_first();
        lemma_leading_run_exact(t, class);
        assert forall|i: int| 0 <= i < leading_run(s, class) implies in_class(#[trigger] s[i], class) by {
            if i > 0 {
                assert(s[i] == t[i - 1]);
            }
        }
        if leading_run(s, class) < s.len() {
            assert(s[leading_run(s, class) as int] == t[leading_run(t, class) as int]);
        }
    }
}

/// Deleting the word before the cursor: when the text before the cursor ends
/// in whitespace, the whole run of whitespace there goes; else the whole run of
/// word chars (alphanumeric or `_`) there goes, which is nothing when the char
/// before the cursor is neither.  Only that run is taken out of the line; the
/// rest of the line and the other lines stay, and the cursor lands where the
/// run began.  At the start of a line nothing changes.
pub proof fn law_delete_word_before_removes_the_run(s: EditState)
    requires
        cursor_valid(s),
    ensures
        s.col == 0 ==> delete_word_before_spec(s) == s,
        s.col > 0 ==> ({
            let t = delete_word_before_spec(s);
            let line = s.doc[s.row as int];
            let k = char_index(line, s.col as int);
            let ws_end = unicode_whitespace(line[k - 1]);
            exists|j: int|
                #![trigger line.take(j)]
                {
                    &&& 0 <= j <= k
                    &&& t.doc == s.doc.update(s.row as int, line.take(j) + line.skip(k))
                    &&& t.row == s.row
                    &&& t.col == byte_offset(line, j)
                    &&& ws_end ==> j < k && (forall|i: int| j <= i < k ==> unicode_whitespace(#[trigger] line[i]))
                        && (j == 0 || !unicode_whitespace(line[j - 1]))
                    &&& !ws_end ==> (forall|i: int|
                        j <= i < k ==> unicode_alphanumeric(#[trigger] line[i]) || line[i] == '_') && (j == 0
                        || !(unicode_alphanumeric(line[j - 1]) || line[j - 1] == '_'))
                }
        }),
{
    if s.col > 0 {
        let line = s.doc[s.row as int];
        lemma_char_index(line, s.col as int);
        let k = char_index(line, s.col as int);
        if k == 0 {
            assert(line.take(0) =~= Seq::<char>::empty());
        }
        assert(k > 0);
        let before = line.take(k);
        lemma_trailing_run_exact(before, WHITESPACE);
        lemma_trailing_run_exact(before, WORD);
        let ws = trailing_run(before, WHITESPACE);
        let j = if ws > 0 {
            k - ws
        } else {
            k - trailing_run(before, WORD)
        };
        assert(before[k - 1] == line[k - 1]);
        if unicode_whitespace(line[k - 1]) {
            assert(ws > 0) by {
                assert(in_class(before.last(), WHITESPACE));
            }
        }
        assert forall|i: int| j <= i < k implies #[trigger] before[i] == line[i] by {}
        if j > 0 {
            assert(before[j - 1] == line[j - 1]);
        }
        crate::text::lemma_byte_offset_mono(line, j, k);
        let t = delete_word_before_spec(s);
        assert(t.doc == s.doc.update(s.row as int, line.take(j) + line.skip(k)));
        assert(t.col == byte_offset(line, j));
        if ws > 0 {
            assert(in_class(before[k - 1], WHITESPACE));
            assert(unicode_whitespace(line[k - 1]));
            assert(j < k);
            assert forall|i: int| j <= i < k implies unicode_whitespace(#[trigger] line[i]) by {
                assert(in_class(before[i], WHITESPACE));
            }
            assert(j == 0 || !unicode_whitespace(line[j - 1])) by {
                if j > 0 {
                    assert(!in_class(before[before.len() - ws - 1], WHITESPACE));
                }
            }
        } else {
            assert(!unicode_whitespace(line[k - 1]));
            let wr = trailing_run(before, WORD);
            assert forall|i: int| j <= i < k implies unicode_alphanumeric(#[trigger] line[i]) || line[i] == '_' by {
                assert(in_class(before[i], WORD));
            }
            assert(j == 0 || !(unicode_alphanumeric(line[j - 1]) || line[j - 1] == '_')) by {
                if j > 0 {
                    assert(!in_class(before[before.len() - wr - 1], WORD));
                }
            }
        }
        assert(line.take(j) == line.take(j));
    }
}


/// The chars before the byte offset of char `k` are the first `k`.
proof fn lemma_chars_before_offset(line: Seq<char>, k: int)
    requires
        0 <= k <= line.len(),
    ensures
        chars_before(line, byte_offset(line, k) as int) == k,
{
    let b = byte_offset(line, k) as int;
    if k > 0 {
        crate::text::lemma_byte_offset_mono(line, 0, k);
        crate::text::lemma_byte_offset_mono(line, k - 1, k);
        crate::text::lemma_floor_index(line, b - 1);
        let f = floor_index(line, b - 1) as int;
        if f >= k {
            crate::text::lemma_byte_offset_mono(line, k, f);
        }
        assert(f < k);
        assert(f >= k - 1);
    } else {
        assert(line.take(0) =~= Seq::<char>::empty());
    }
}

/// Moving to the next word: from the cursor, the cursor passes the word chars
/// (alphanumeric or `_`) it is on, then every char that is not a word char,
/// and stops on the first word char after them or at the end of the line.  So
/// it always moves forward when it is not at the end of the line, and it stops
/// only at the end of the line or at the start of a word.
pub proof fn law_move_next_word_goes_to_next_word(line: Seq<char>, col: usize)
    requires
        is_boundary(line, col as int),
        byte_offset(line, line.len() as int) <= usize::MAX,
    ensures
        ({
            let k0 = char_index(line, col as int);
            let word = |c: char| unicode_alphanumeric(c) || c == '_';
            exists|m: int, i2: int|
                #![trigger line.take(m), line.take(i2)]
                {
                    &&& k0 <= m <= i2 <= line.len()
                    &&& next_word_col(line, col) == byte_offset(line, i2)
                    &&& forall|i: int| k0 <= i < m ==> word(#[trigger] line[i])
                    &&& (m == line.len() || !word(line[m]))
                    &&& forall|i: int| m <= i < i2 ==> !word(#[trigger] line[i])
                    &&& (i2 == line.len() || word(line[i2]))
                    &&& (k0 < line.len() ==> k0 < i2)
                }
        }),
{
    let k0 = char_index(line, col as int);
    lemma_char_index(line, col as int);
    lemma_chars_before_offset(line, k0);
    let s1 = line.skip(k0);
    lemma_leading_run_exact(s1, WORD);
    let m = k0 + leading_run(s1, WORD);
    let s2 = line.skip(m);
    lemma_leading_run_exact(s2, NOT_WORD);
    let i2 = m + leading_run(s2, NOT_WORD);
    crate::text::lemma_byte_offset_mono(line, i2, line.len() as int);
    assert forall|i: int| k0 <= i < m implies unicode_alphanumeric(#[trigger] line[i]) || line[i] == '_' by {
        assert(in_class(s1[i - k0], WORD));
    }
    assert(m == line.len() || !(unicode_alphanumeric(line[m]) || line[m] == '_')) by {
        if m < line.len() {
            assert(!in_class(s1[m - k0], WORD));
        }
    }
    assert forall|i: int| m <= i < i2 implies !(unicode_alphanumeric(#[trigger] line[i]) || line[i] == '_') by {
        assert(in_class(s2[i - m], NOT_WORD));
    }
    assert(i2 == line.len() || (unicode_alphanumeric(line[i2]) || line[i2] == '_')) by {
        if i2 < line.len() {
            assert(!in_class(s2[i2 - m], NOT_WORD));
        }
    }
    assert(line.take(m) == line.take(m) && line.take(i2) == line.take(i2));
}


/// The plain form of a key press: the same key, with no modifier held.
pub open spec fn unmodified(ev: KeyInput) -> KeyInput {
    KeyInput { ctrl: false, alt: false, shift: false, ..ev }
}

/// Holding a modifier names the key after the modifier: with Ctrl held, the
/// arrows, Home, End, Backspace and Delete are named `ctrl+` and their plain
/// name; with Alt held and not Ctrl, the arrows and Backspace are named `alt+`
/// and their plain name, and a char key is named `alt+` and the char.
pub proof fn law_key_names_with_modifiers(ev: KeyInput)
    ensures
        (ev.code is Up || ev.code is Down || ev.code is Left || ev.code is Right || ev.code is Home
            || ev.code is End || ev.code is Backspace || ev.code is Delete) && ev.ctrl ==> key_name_spec(ev)
            == "ctrl+"@ + key_name_spec(unmodified(ev)),
        (ev.code is Up || ev.code is Down || ev.code is Left || ev.code is Right || ev.code is Backspace)
            && !ev.ctrl && ev.alt ==> key_name_spec(ev) == "alt+"@ + key_name_spec(unmodified(ev)),
        (ev.code is Char) && !ev.ctrl && ev.alt ==> key_name_spec(ev) == "alt+"@ + key_name_spec(
            unmodified(ev),
        ),
{
}

/// Some key press has the name `k`.
pub open spec fn pressable(k: Seq<char>) -> bool {
    exists|ev: KeyInput| #[trigger] key_name_spec(ev) == k
}

/// Every key that the default bindings name is the name of some key press, so
/// each default binding can be used; the chars of the `ctrl+` keys are taken
/// to be their own lowercase, as the Unicode lowercase mapping has them.
pub proof fn law_default_keys_can_be_pressed()
    requires
        forall|c: char| 'a' <= c <= 'z' ==> #[trigger] first_lowercase(c) == Some(c),
    ensures
        forall|a: Action, i: int| 0 <= i < default_keys(a).len() ==> pressable(#[trigger] default_keys(a)[i]),
{
    assert forall|a: Action, i: int| 0 <= i < default_keys(a).len() implies pressable(#[trigger] default_keys(a)[i]) by {
        match a {
            Action::Quit => {
                if i == 0 {
                    let ev = KeyInput { code: Key::Char('x'), ctrl: true, alt: false, shift: false, release: false };
                    reveal_strlit("ctrl+");
                    reveal_strlit("ctrl+x");
                    assert(key_name_spec(ev) =~= default_keys(a)[0]);
                } else {
                    let ev = KeyInput { code: Key::Char('q'), ctrl: true, alt: false, shift: false, release: false };
                    reveal_strlit("ctrl+");
                    reveal_strlit("ctrl+q");
                    assert(key_name_spec(ev) =~= default_keys(a)[1]);
                }
            },
            Action::Save => {
                if i == 0 {
                    let ev = KeyInput { code: Key::Char('s'), ctrl: true, alt: false, shift: false, release: false };
                    reveal_strlit("ctrl+");
                    reveal_strlit("ctrl+s");
                    assert(key_name_spec(ev) =~= default_keys(a)[0]);
                } else {
                    let ev = KeyInput { code: Key::Char('o'), ctrl: true, alt: false, shift: false, release: false };
                    reveal_strlit("ctrl+");
                    reveal_strlit("ctrl+o");
                    assert(key_name_spec(ev) =~= default_keys(a)[1]);
                }
            },
            Action::SaveAs => {
                let ev = KeyInput { code: Key::Char('s'), ctrl: true, alt: false, shift: true, release: false };
                reveal_strlit("ctrl+shift+");
                reveal_strlit("ctrl+shift+s");
                assert(key_name_spec(ev) =~= default_keys(a)[0]);
            },
            Action::Help => {
                if i == 0 {
                    let ev = KeyInput { code: Key::Char('g'), ctrl: true, alt: false, shift: false, release: false };
                    reveal_strlit("ctrl+");
                    reveal_strlit("ctrl+g");
                    assert(key_name_spec(ev) =~= default_keys(a)[0]);
                } else {
                    let ev = KeyInput { code: Key::F(1), ctrl: false, alt: false, shift: false, release: false };
                    reveal_strlit("f");
                    reveal_strlit("f1");
                    assert(key_name_spec(ev) =~= default_keys(a)[1]);
                }
            },
            Action::CutLine => {
                let ev = KeyInput { code: Key::Char('k'), ctrl: true, alt: false, shift: false, release: false };
                reveal_strlit("ctrl+");
                reveal_strlit("ctrl+k");
                assert(key_name_spec(ev) =~= default_keys(a)[0]);
            },
            Action::Paste => {
                if i == 0 {
                    let ev = KeyInput { code: Key::Char('u'), ctrl: true, alt: false, shift: false, release: false };
                    reveal_strlit("ctrl+");
                    reveal_strlit("ctrl+u");
                    assert(key_name_spec(ev) =~= default_keys(a)[0]);
                } else {
                    let ev = KeyInput { code: Key::Char('v'), ctrl: true, alt: false, shift: false, release: false };
                    reveal_strlit("ctrl+");
                    reveal_strlit("ctrl+v");
                    assert(key_name_spec(ev) =~= default_keys(a)[1]);
                }
            },
            Action::CopyLine => {
                if i == 0 {
                    let ev = KeyInput { code: Key::Char('c'), ctrl: false, alt: true, shift: false, release: false };
                    reveal_strlit("alt+");
                    reveal_strlit("alt+c");
                    assert(key_name_spec(ev) =~= default_keys(a)[0]);
                } else {
                    let ev = KeyInput { code: Key::Char('c'), ctrl: true, alt: false, shift: false, release: false };
                    reveal_strlit("ctrl+");
                    reveal_strlit("ctrl+c");
                    assert(key_name_spec(ev) =~= default_keys(a)[1]);
                }
            },
            Action::SelectAll => {
                let ev = KeyInput { code: Key::Char('a'), ctrl: true, alt: false, shift: false, release: false };
                reveal_strlit("ctrl+");
                reveal_strlit("ctrl+a");
                assert(key_name_spec(ev) =~= default_keys(a)[0]);
            },
            Action::Search => {
                if i == 0 {
                    let ev = KeyInput { code: Key::Char('f'), ctrl: true, alt: false, shift: false, release: false };
                    reveal_strlit("ctrl+");
                    reveal_strlit("ctrl+f");
                    assert(key_name_spec(ev) =~= default_keys(a)[0]);
                } else {
                    let ev = KeyInput { code: Key::Char('w'), ctrl: true, alt: false, shift: false, release: false };
                    reveal_strlit("ctrl+");
                    reveal_strlit("ctrl+w");
                    assert(key_name_spec(ev) =~= default_keys(a)[1]);
                }
            },
            Action::SearchNext => {
                let ev = KeyInput { code: Key::F(3), ctrl: false, alt: false, shift: false, release: false };
                reveal_strlit("f");
                reveal_strlit("f3");
                assert(key_name_spec(ev) =~= default_keys(a)[0]);
            },
            Action::SearchPrev => {
                let ev = KeyInput { code: Key::Char('p'), ctrl: true, alt: false, shift: false, release: false };
                reveal_strlit("ctrl+");
                reveal_strlit("ctrl+p");
                assert(key_name_spec(ev) =~= default_keys(a)[0]);
            },
            Action::Replace => {
                if i == 0 {
                    let ev = KeyInput { code: Key::Char('r'), ctrl: true, alt: false, shift: false, release: false };
                    reveal_strlit("ctrl+");
                    reveal_strlit("ctrl+r");
                    assert(key_name_spec(ev) =~= default_keys(a)[0]);
                } else {
                    let ev = KeyInput { code: Key::Char('h'), ctrl: true, alt: false, shift: false, release: false };
                    reveal_strlit("ctrl+");
                    reveal_strlit("ctrl+h");
                    assert(key_name_spec(ev) =~= default_keys(a)[1]);
                }
            },
            Action::GotoLine => {
                let ev = KeyInput { code: Key::Char('l'), ctrl: true, alt: false, shift: false, release: false };
                reveal_strlit("ctrl+");
                reveal_strlit("ctrl+l");
                assert(key_name_spec(ev) =~= default_keys(a)[0]);
            },
            Action::PageUp => {
                let ev = KeyInput { code: Key::PageUp, ctrl: false, alt: false, shift: false, release: false };
                reveal_strlit("pageup");
                assert(key_name_spec(ev) =~= default_keys(a)[0]);
            },
            Action::PageDown => {
                let ev = KeyInput { code: Key::PageDown, ctrl: false, alt: false, shift: false, release: false };
                reveal_strlit("pagedown");
                assert(key_name_spec(ev) =~= default_keys(a)[0]);
            },
            Action::FileTop => {
                let ev = KeyInput { code: Key::Home, ctrl: true, alt: false, shift: false, release: false };
                reveal_strlit("ctrl+");
                reveal_strlit("home");
                reveal_strlit("ctrl+home");
                assert(key_name_spec(ev) =~= default_keys(a)[0]);
            },
            Action::FileBottom => {
                let ev = KeyInput { code: Key::End, ctrl: true, alt: false, shift: false, release: false };
                reveal_strlit("ctrl+");
                reveal_strlit("end");
                reveal_strlit("ctrl+end");
                assert(key_name_spec(ev) =~= default_keys(a)[0]);
            },
            Action::Undo => {
                let ev = KeyInput { code: Key::Char('z'), ctrl: true, alt: false, shift: false, release: false };
                reveal_strlit("ctrl+");
                reveal_strlit("ctrl+z");
                assert(key_name_spec(ev) =~= default_keys(a)[0]);
            },
            Action::Redo => {
                if i == 0 {
                    let ev = KeyInput { code: Key::Char('y'), ctrl: true, alt: false, shift: false, release: false };
                    reveal_strlit("ctrl+");
                    reveal_strlit("ctrl+y");
                    assert(key_name_spec(ev) =~= default_keys(a)[0]);
                } else {
                    let ev = KeyInput { code: Key::Char('z'), ctrl: true, alt: false, shift: true, release: false };
                    reveal_strlit("ctrl+shift+");
                    reveal_strlit("ctrl+shift+z");
                    assert(key_name_spec(ev) =~= default_keys(a)[1]);
                }
            },
            Action::NextWord => {
                if i == 0 {
                    let ev = KeyInput { code: Key::Right, ctrl: false, alt: true, shift: false, release: false };
                    reveal_strlit("alt+");
                    reveal_strlit("right");
                    reveal_strlit("alt+right");
                    assert(key_name_spec(ev) =~= default_keys(a)[0]);
                } else {
                    let ev = KeyInput { code: Key::Right, ctrl: true, alt: false, shift: false, release: false };
                    reveal_strlit("ctrl+");
                    reveal_strlit("right");
                    reveal_strlit("ctrl+right");
                    assert(key_name_spec(ev) =~= default_keys(a)[1]);
                }
            },
            Action::PrevWord => {
                if i == 0 {
                    let ev = KeyInput { code: Key::Left, ctrl: false, alt: true, shift: false, release: false };
                    reveal_strlit("alt+");
                    reveal_strlit("left");
                    reveal_strlit("alt+left");
                    assert(key_name_spec(ev) =~= default_keys(a)[0]);
                } else {
                    let ev = KeyInput { code: Key::Left, ctrl: true, alt: false, shift: false, release: false };
                    reveal_strlit("ctrl+");
                    reveal_strlit("left");
                    reveal_strlit("ctrl+left");
                    assert(key_name_spec(ev) =~= default_keys(a)[1]);
                }
            },
            Action::DeleteWord => {
                if i == 0 {
                    let ev = KeyInput { code: Key::Backspace, ctrl: true, alt: false, shift: false, release: false };
                    reveal_strlit("ctrl+");
                    reveal_strlit("backspace");
                    reveal_strlit("ctrl+backspace");
                    assert(key_name_spec(ev) =~= default_keys(a)[0]);
                } else {
                    let ev = KeyInput { code: Key::Backspace, ctrl: false, alt: true, shift: false, release: false };
                    reveal_strlit("alt+");
                    reveal_strlit("backspace");
                    reveal_strlit("alt+backspace");
                    assert(key_name_spec(ev) =~= default_keys(a)[1]);
                }
            },
            Action::DeleteToEol => {
                let ev = KeyInput { code: Key::Char('d'), ctrl: false, alt: true, shift: false, release: false };
                reveal_strlit("alt+");
                reveal_strlit("alt+d");
                assert(key_name_spec(ev) =~= default_keys(a)[0]);
            },
            Action::ToggleLineNumbers => {
                let ev = KeyInput { code: Key::Char('n'), ctrl: false, alt: true, shift: false, release: false };
                reveal_strlit("alt+");
                reveal_strlit("alt+n");
                assert(key_name_spec(ev) =~= default_keys(a)[0]);
            },
            Action::ToggleWordWrap => {
                let ev = KeyInput { code: Key::Char('w'), ctrl: false, alt: true, shift: false, release: false };
                reveal_strlit("alt+");
                reveal_strlit("alt+w");
                assert(key_name_spec(ev) =~= default_keys(a)[0]);
            },
            Action::ToggleAutoIndent => {
                let ev = KeyInput { code: Key::Char('i'), ctrl: false, alt: true, shift: false, release: false };
                reveal_strlit("alt+");
                reveal_strlit("alt+i");
                assert(key_name_spec(ev) =~= default_keys(a)[0]);
            },
            Action::OpenFile => {
                let ev = KeyInput { code: Key::Char('o'), ctrl: false, alt: true, shift: false, release: false };
                reveal_strlit("alt+");
                reveal_strlit("alt+o");
                assert(key_name_spec(ev) =~= default_keys(a)[0]);
            },
            Action::NextTab => {
                let ev = KeyInput { code: Key::Char('.'), ctrl: false, alt: true, shift: false, release: false };
                reveal_strlit("alt+");
                reveal_strlit("alt+.");
                assert(key_name_spec(ev) =~= default_keys(a)[0]);
            },
            Action::PrevTab => {
                let ev = KeyInput { code: Key::Char(','), ctrl: false, alt: true, shift: false, release: false };
                reveal_strlit("alt+");
                reveal_strlit("alt+,");
                assert(key_name_spec(ev) =~= default_keys(a)[0]);
            },
            Action::CloseTab => {
                let ev = KeyInput { code: Key::Char('w'), ctrl: true, alt: false, shift: false, release: false };
                reveal_strlit("ctrl+");
                reveal_strlit("ctrl+w");
                assert(key_name_spec(ev) =~= default_keys(a)[0]);
            },
            Action::NewTab => {
                let ev = KeyInput { code: Key::Char('t'), ctrl: true, alt: false, shift: false, release: false };
                reveal_strlit("ctrl+");
                reveal_strlit("ctrl+t");
                assert(key_name_spec(ev) =~= default_keys(a)[0]);
            },
        }
    }
}


/// Deleting the word before the cursor of a buffer takes out the whole run of
/// whitespace just before the cursor, or else the whole run of word chars
/// there, and leaves the cursor where the run began (see
/// [`law_delete_word_before_removes_the_run`]).
pub proof fn law_editor_delete_word_before(old: Editor, new: Editor)
    requires
        cursor_valid(old.state()),
        Editor::delete_word_before_post(&old, &new),
    ensures
        old.cursor_col == 0 ==> new.doc() == old.doc() && new.cursor_col == old.cursor_col,
        old.cursor_col > 0 ==> ({
            let line = old.doc()[old.cursor_row as int];
            let k = char_index(line, old.cursor_col as int);
            let ws_end = unicode_whitespace(line[k - 1]);
            exists|j: int|
                #![trigger line.take(j)]
                {
                    &&& 0 <= j <= k
                    &&& new.doc() == old.doc().update(old.cursor_row as int, line.take(j) + line.skip(k))
                    &&& new.cursor_row == old.cursor_row
                    &&& new.cursor_col == byte_offset(line, j)
                    &&& ws_end ==> j < k && (forall|i: int| j <= i < k ==> unicode_whitespace(#[trigger] line[i]))
                        && (j == 0 || !unicode_whitespace(line[j - 1]))
                    &&& !ws_end ==> (forall|i: int|
                        j <= i < k ==> unicode_alphanumeric(#[trigger] line[i]) || line[i] == '_') && (j == 0
                        || !(unicode_alphanumeric(line[j - 1]) || line[j - 1] == '_'))
                }
        }),
{
    let s = old.state();
    law_delete_word_before_removes_the_run(s);
    if old.cursor_col > 0 {
        let t = delete_word_before_spec(s);
        let line = s.doc[s.row as int];
        let k = char_index(line, s.col as int);
        let ws_end = unicode_whitespace(line[k - 1]);
        let j = choose|j: int|
            #![trigger line.take(j)]
            {
                &&& 0 <= j <= k
                &&& t.doc == s.doc.update(s.row as int, line.take(j) + line.skip(k))
                &&& t.row == s.row
                &&& t.col == byte_offset(line, j)
                &&& ws_end ==> j < k && (forall|i: int| j <= i < k ==> unicode_whitespace(#[trigger] line[i]))
                    && (j == 0 || !unicode_whitespace(line[j - 1]))
                &&& !ws_end ==> (forall|i: int|
                    j <= i < k ==> unicode_alphanumeric(#[trigger] line[i]) || line[i] == '_') && (j == 0
                    || !(unicode_alphanumeric(line[j - 1]) || line[j - 1] == '_'))
            };
        assert(new.state() == t);
        assert(new.doc() == t.doc);
        assert(new.cursor_col == t.col);
        assert(old.doc() == s.doc);
        assert(new.doc() == old.doc().update(old.cursor_row as int, line.take(j) + line.skip(k)));
        assert(new.cursor_col == byte_offset(line, j));
        assert(line.take(j) == line.take(j));
    }
}

} // verus!
