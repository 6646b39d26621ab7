//! Properties that relate several operations: undo and redo, key bindings,
//! action names, the saved bytes, the session's keys and the screen layout.
use crate::config::{
    Action, Config, action_name, bound_to, default_keys, default_map, merge_user, parse_action,
};
use crate::bindings_file::{names_map, with_file};
use crate::editor::{
    Editor, EditState, file_content, backspace_spec, clamp_spec, cursor_valid, delete_char_spec, delete_selection_spec,
    delete_to_eol_spec, delete_word_before_spec, insert_at_cursor_spec, insert_newline_spec,
    paste_spec, redo_spec, save_undo_spec, selection_of, state_ok, undo_spec, valid_pos,
};
use crate::text::{
    byte_len, byte_offset, char_index, char_width, floor_index, is_boundary, lemma_byte_len_concat,
    lemma_char_index, lemma_ends_are_boundaries, lemma_index_of_offset,
};
use crate::undo::{MAX_UNDO, SnapView, bounded_push};
use crate::encoding::file_bytes_for;
use vstd::utf8::encode_utf8;
use crate::keys::{KeyInput, key_name_spec};
use crate::prompt::{cycle_back, cycle_forward, fit, popup_spec};
use crate::screen::{common_prefix_spec, lemma_common_prefix_upto, popup_rows_spec, prefix_of, tab_bar_from};
use crate::workspace::{App, Command, decided, key_prelude, saved_bytes, toggled, unbound};
use vstd::prelude::*;

verus! {

/// A cursor at a char boundary of an existing line is left where it is by clamping.
pub proof fn law_clamp_keeps_valid_cursor(doc: Seq<Seq<char>>, row: usize, col: usize)
    requires
        valid_pos(doc, row as int, col as int),
    ensures
        clamp_spec(doc, row, col) == (doc, row, col),
{
    let line = doc[row as int];
    crate::text::lemma_char_index(line, col as int);
    let k = char_index(line, col as int);
    crate::text::lemma_byte_offset_mono(line, k, line.len() as int);
    crate::text::lemma_byte_offset_full(line);
    crate::text::lemma_floor_index(line, col as int);
    let f = floor_index(line, col as int) as int;
    if f < k {
        crate::text::lemma_byte_offset_mono(line, f + 1, k);
    }
    if f > k {
        crate::text::lemma_byte_offset_mono(line, k + 1, f);
        crate::text::lemma_byte_offset_mono(line, k, k + 1);
    }
    assert(f == k);
}

/// The snapshot pushed last is the one the next undo returns.
pub proof fn law_undo_returns_last_push(stack: Seq<SnapView>, snap: SnapView)
    ensures
        bounded_push(stack, snap).len() > 0,
        bounded_push(stack, snap).last() == snap,
        stack.len() < MAX_UNDO ==> bounded_push(stack, snap).drop_last() == stack,
        stack.len() <= MAX_UNDO ==> bounded_push(stack, snap).len() <= MAX_UNDO,
{
    if stack.len() < MAX_UNDO {
        assert(bounded_push(stack, snap).drop_last() =~= stack);
    }
}

/// Redo right after undo restores both stacks: an undo of a history within the
/// bound (`UndoStack` keeps every history so) moves the top of the undo stack
/// out and pushes the current state on the redo stack; a redo then hands that
/// state back and puts the undone one on the undo stack again.  The redo stack
/// comes back whole when it was not full.
pub proof fn law_redo_undoes_undo(undo: Seq<SnapView>, redo: Seq<SnapView>, current: SnapView)
    requires
        0 < undo.len() <= MAX_UNDO,
        redo.len() < MAX_UNDO,
    ensures
        ({
            let undone = undo.last();
            let u1 = undo.drop_last();
            let r1 = bounded_push(redo, current);
            &&& r1.len() > 0
            &&& r1.last() == current
            &&& r1.drop_last() == redo
            &&& bounded_push(u1, undone) == undo
        }),
{
    assert(bounded_push(redo, current).drop_last() =~= redo);
    assert(bounded_push(undo.drop_last(), undo.last()) =~= undo);
}

/// An edit that recorded the state before it as its undo step is undone by one
/// undo: the document and cursor come back, and the edited state goes to the
/// redo stack.
pub proof fn law_undo_reverts_recorded_edit(before: EditState, after: EditState)
    requires
        cursor_valid(before),
        after.history == save_undo_spec(before).history,
        after.saved == before.saved,
    ensures
        undo_spec(after).doc == before.doc,
        undo_spec(after).row == before.row,
        undo_spec(after).col == before.col,
        undo_spec(after).modified == (before.doc != before.saved),
        undo_spec(after).history.1.last() == (after.doc, after.row, after.col),
        undo_spec(after).anchor == after.anchor,
{
    law_undo_returns_last_push(before.history.0, (before.doc, before.row, before.col));
    law_clamp_keeps_valid_cursor(before.doc, before.row, before.col);
    law_undo_returns_last_push(after.history.1, (after.doc, after.row, after.col));
}

/// Redo right after undo brings back the state that was undone.
pub proof fn law_redo_after_undo(s: EditState)
    requires
        cursor_valid(s),
        s.history.0.len() > 0,
    ensures
        redo_spec(undo_spec(s)).doc == s.doc,
        redo_spec(undo_spec(s)).row == s.row,
        redo_spec(undo_spec(s)).col == s.col,
{
    law_undo_returns_last_push(s.history.1, (s.doc, s.row, s.col));
    law_clamp_keeps_valid_cursor(s.doc, s.row, s.col);
}

/// Typing a char (with no selection) is undone by one undo.
pub proof fn law_undo_reverts_insert(s: EditState, t: Seq<char>)
    requires
        cursor_valid(s),
    ensures
        undo_spec(insert_at_cursor_spec(s, t)).doc == s.doc,
        undo_spec(insert_at_cursor_spec(s, t)).row == s.row,
        undo_spec(insert_at_cursor_spec(s, t)).col == s.col,
{
    law_undo_reverts_recorded_edit(s, insert_at_cursor_spec(s, t));
}

/// A line break (with no selection) is undone by one undo.
pub proof fn law_undo_reverts_newline(s: EditState, auto_indent: bool)
    requires
        cursor_valid(s),
    ensures
        undo_spec(insert_newline_spec(s, auto_indent)).doc == s.doc,
        undo_spec(insert_newline_spec(s, auto_indent)).row == s.row,
        undo_spec(insert_newline_spec(s, auto_indent)).col == s.col,
{
    law_undo_reverts_recorded_edit(s, insert_newline_spec(s, auto_indent));
}

/// A backspace or delete that changed the document is undone by one undo.
pub proof fn law_undo_reverts_deletion(s: EditState)
    requires
        state_ok(s),
    ensures
        backspace_spec(s) != s ==> undo_spec(backspace_spec(s)).doc == s.doc,
        backspace_spec(s) != s ==> undo_spec(backspace_spec(s)).row == s.row
            && undo_spec(backspace_spec(s)).col == s.col,
        delete_char_spec(s) != s ==> undo_spec(delete_char_spec(s)).doc == s.doc,
        delete_char_spec(s) != s ==> undo_spec(delete_char_spec(s)).row == s.row
            && undo_spec(delete_char_spec(s)).col == s.col,
        undo_spec(delete_to_eol_spec(s)).doc == s.doc,
        delete_word_before_spec(s) != s ==> undo_spec(delete_word_before_spec(s)).doc == s.doc,
        delete_selection_spec(s) != s ==> undo_spec(delete_selection_spec(s)).doc == s.doc,
{
    if backspace_spec(s) != s {
        law_undo_reverts_recorded_edit(s, backspace_spec(s));
    }
    if delete_char_spec(s) != s {
        law_undo_reverts_recorded_edit(s, delete_char_spec(s));
    }
    law_undo_reverts_recorded_edit(s, delete_to_eol_spec(s));
    if delete_word_before_spec(s) != s {
        law_undo_reverts_recorded_edit(s, delete_word_before_spec(s));
    }
    if delete_selection_spec(s) != s {
        law_undo_reverts_recorded_edit(s, delete_selection_spec(s));
    }
}

/// Pasting (with no selection) is undone by one undo.
pub proof fn law_undo_reverts_paste(s: EditState, clip: Seq<char>)
    requires
        cursor_valid(s),
        selection_of(s) is None,
    ensures
        undo_spec(paste_spec(s, clip)).doc == s.doc,
        undo_spec(paste_spec(s, clip)).row == s.row,
        undo_spec(paste_spec(s, clip)).col == s.col,
{
    law_undo_reverts_recorded_edit(s, paste_spec(s, clip));
}

/// Parsing the name of an action gives the action back.
pub proof fn law_action_name_round_trip(a: Action)
    ensures
        parse_action(action_name(a)) == Some(a),
{
    crate::config::lemma_parse_name(a);
}

/// Every action has a default binding, and each of its default keys is bound to it.
pub proof fn law_defaults_bind_every_action(a: Action, k: Seq<char>)
    ensures
        default_map().contains_key(a),
        default_map()[a].len() > 0,
        default_keys(a).contains(k) ==> bound_to(default_map(), a, k),
{
    match a {
        _ => {},
    }
}

/// A user entry named after an action replaces that action's keys.
pub proof fn law_user_entry_overrides(m: Map<Action, Seq<Seq<char>>>, a: Action, keys: Seq<Seq<char>>)
    ensures
        merge_user(m, seq![(action_name(a), keys)]) == m.insert(a, keys),
{
    crate::config::lemma_parse_name(a);
    let u = seq![(action_name(a), keys)];
    assert(u.drop_last() =~= Seq::<(Seq<char>, Seq<Seq<char>>)>::empty());
    assert(merge_user(m, u.drop_last()) == m);
    assert(u.last() == u[0]);
}

/// A user entry whose name is no action's changes nothing.
pub proof fn law_unknown_user_entry_ignored(
    m: Map<Action, Seq<Seq<char>>>,
    name: Seq<char>,
    keys: Seq<Seq<char>>,
)
    requires
        parse_action(name) is None,
    ensures
        merge_user(m, seq![(name, keys)]) == m,
{
    let u = seq![(name, keys)];
    assert(u.drop_last() =~= Seq::<(Seq<char>, Seq<Seq<char>>)>::empty());
    assert(merge_user(m, u.drop_last()) == m);
    assert(u.last() == u[0]);
}

/// The byte offset of a char index names that char index again.
pub proof fn law_char_byte_round_trip(s: Seq<char>, k: int)
    requires
        0 <= k <= s.len(),
    ensures
        is_boundary(s, byte_offset(s, k) as int),
        char_index(s, byte_offset(s, k) as int) == k,
        byte_offset(s, k) <= byte_len(s),
{
    crate::text::lemma_index_of_offset(s, k);
    crate::text::lemma_byte_offset_mono(s, k, s.len() as int);
    crate::text::lemma_byte_offset_full(s);
}

/// Actions that no user entry names keep the keys they had.
pub proof fn law_unnamed_actions_keep_keys(
    m: Map<Action, Seq<Seq<char>>>,
    user: Seq<(Seq<char>, Seq<Seq<char>>)>,
    a: Action,
)
    requires
        forall|i: int| 0 <= i < user.len() ==> #[trigger] user[i].0 != action_name(a),
    ensures
        merge_user(m, user).contains_key(a) == m.contains_key(a),
        m.contains_key(a) ==> merge_user(m, user)[a] == m[a],
    decreases user.len(),
{
    if user.len() > 0 {
        let t = user.drop_last();
        assert forall|i: int| 0 <= i < t.len() implies #[trigger] t[i].0 != action_name(a) by {
            assert(t[i] == user[i]);
        }
        law_unnamed_actions_keep_keys(m, t, a);
        let last = user.last();
        assert(last == user[user.len() - 1]);
        match parse_action(last.0) {
            Some(b) => {
                assert(action_name(b) == last.0);
                assert(b != a);
            },
            None => {},
        }
    }
}

/// The longest common prefix of some strings is a prefix of each of them, and
/// every string that is a prefix of each of them is a prefix of it.
pub proof fn law_common_prefix_is_longest(v: Seq<Seq<char>>, p: Seq<char>)
    requires
        v.len() > 0,
    ensures
        forall|i: int| 0 <= i < v.len() ==> prefix_of(common_prefix_spec(v), #[trigger] v[i]),
        (forall|i: int| 0 <= i < v.len() ==> prefix_of(p, #[trigger] v[i])) ==> prefix_of(
            p,
            common_prefix_spec(v),
        ),
{
    lemma_common_prefix_upto(v, v.len() as int, p);
}

/// Cycling back undoes cycling forward through the completions, and the other
/// way round.
pub proof fn law_cycle_back_undoes_forward(c: Option<usize>, n: nat)
    requires
        n > 0,
        n <= usize::MAX,
        c matches Some(i) ==> i < n,
    ensures
        cycle_back(cycle_forward(c, n), n) == c,
        cycle_forward(cycle_back(c, n), n) == c,
{
}

/// Toggling a setting twice leaves the settings as they were.
pub proof fn law_toggle_twice(c: Config, a: Action)
    requires
        a is ToggleLineNumbers || a is ToggleWordWrap || a is ToggleAutoIndent,
    ensures
        toggled(toggled(c, a), a) == c,
{
}

/// With more than one tab, going to the next tab and then to the previous
/// one comes back to the tab it started from.
pub proof fn law_next_then_prev_tab(t: int, n: int)
    requires
        0 <= t < n,
        n > 1,
    ensures
        ((t + 1) % n + n - 1) % n == t,
{
    if t + 1 < n {
        assert((t + 1) % n == t + 1) by (nonlinear_arith)
            requires
                0 <= t + 1 < n,
        ;
        assert((t + 1 + n - 1) % n == t) by (nonlinear_arith)
            requires
                0 <= t < n,
        ;
    } else {
        assert((t + 1) % n == 0) by (nonlinear_arith)
            requires
                t + 1 == n,
                n > 1,
        ;
        assert((0 + n - 1) % n == t) by (nonlinear_arith)
            requires
                t == n - 1,
                n > 1,
        ;
    }
}

/// Escape with no action bound to it does nothing but drop the selection of
/// the active buffer.
pub proof fn law_escape_drops_selection(old: App, mid: App, ev: KeyInput, cmd: Command)
    requires
        ev.code is Esc,
        !ev.release,
        unbound(old.kb@, key_name_spec(ev)),
        key_prelude(old, mid, ev),
        decided(old.kb@, ev, cmd),
    ensures
        cmd is Ignore,
        mid.active().selection_anchor is None,
        mid.same_but_active(&old),
{
    match cmd {
        Command::Run(a) => {
            assert(bound_to(old.kb@, a, key_name_spec(ev)));
        },
        _ => {},
    }
}

/// The prompt line always fills the width of the screen exactly.
pub proof fn law_prompt_line_fills_width(s: Seq<char>, w: nat)
    ensures
        fit(s, w).len() == w,
{
}

/// The completion popup has as many lines as `popup_rows` counts.
pub proof fn law_popup_has_popup_rows(cs: Seq<Seq<char>>, selected: Option<usize>, row: usize, w: usize)
    ensures
        popup_spec(cs, selected, row, w).len() == popup_rows_spec(cs.len()),
{
}

/// Total width of tab-bar pieces.
pub open spec fn pieces_width(ps: Seq<(Option<usize>, Seq<char>)>) -> nat
    decreases ps.len(),
{
    if ps.len() == 0 {
        0
    } else {
        pieces_width(ps.drop_last()) + ps.last().1.len()
    }
}

proof fn lemma_pieces_width_concat(a: Seq<(Option<usize>, Seq<char>)>, b: Seq<(Option<usize>, Seq<char>)>)
    ensures
        pieces_width(a + b) == pieces_width(a) + pieces_width(b),
    decreases b.len(),
{
    if b.len() > 0 {
        lemma_pieces_width_concat(a, b.drop_last());
        assert((a + b).drop_last() =~= a + b.drop_last());
    } else {
        assert(a + b =~= a);
    }
}

/// The tab bar never reaches the last column: the pieces laid out from column
/// `x` end at the column the layout reports, which stays before the last
/// column when any piece is laid out.
pub proof fn law_tab_bar_fits(texts: Seq<Seq<char>>, w: nat, i: int, x: nat)
    requires
        x < w,
    ensures
        tab_bar_from(texts, w, i, x).1 == x + pieces_width(tab_bar_from(texts, w, i, x).0),
        tab_bar_from(texts, w, i, x).1 < w,
    decreases texts.len() - i,
{
    reveal_strlit("\u{2502}");
    if !(i < 0 || i >= texts.len() || x + texts[i].len() >= w) {
        let x1 = x + texts[i].len();
        let sep = i + 1 < texts.len() && x1 + 1 < w;
        let nx: nat = if sep {
            x1 + 1
        } else {
            x1
        };
        law_tab_bar_fits(texts, w, i + 1, nx);
        let rest = tab_bar_from(texts, w, i + 1, nx);
        let head = seq![(Some(i as usize), texts[i])] + (if sep {
            seq![(None::<usize>, "\u{2502}"@)]
        } else {
            Seq::empty()
        });
        lemma_pieces_width_concat(head, rest.0);
        lemma_pieces_width_concat(seq![(Some(i as usize), texts[i])], if sep {
            seq![(None::<usize>, "\u{2502}"@)]
        } else {
            Seq::empty()
        });
        assert(pieces_width(seq![(Some(i as usize), texts[i])]) == texts[i].len()) by {
            assert(seq![(Some(i as usize), texts[i])].drop_last() =~= Seq::<(Option<usize>, Seq<char>)>::empty());
            assert(pieces_width(Seq::<(Option<usize>, Seq<char>)>::empty()) == 0);
        }
        if sep {
            assert(pieces_width(seq![(None::<usize>, "\u{2502}"@)]) == 1) by {
                assert(seq![(None::<usize>, "\u{2502}"@)].drop_last() =~= Seq::<(Option<usize>, Seq<char>)>::empty());
                assert(pieces_width(Seq::<(Option<usize>, Seq<char>)>::empty()) == 0);
            }
        }
    } else {
        assert(pieces_width(Seq::<(Option<usize>, Seq<char>)>::empty()) == 0);
    }
}

/// A buffer made new is saved in UTF-8 without a byte-order mark: the bytes
/// written are the UTF-8 bytes of its text.
pub proof fn law_new_buffer_saved_as_utf8(ed: Editor, filename: Option<String>)
    requires
        Editor::new_post(&ed, filename),
    ensures
        saved_bytes(ed) == encode_utf8(file_content(ed.doc())),
{
    reveal_strlit("UTF-8");
    reveal_strlit("UTF-16LE");
    reveal_strlit("UTF-16BE");
    assert("UTF-8"@ != "UTF-16LE"@) by {
        assert("UTF-8"@.len() != "UTF-16LE"@.len());
    }
    assert("UTF-8"@ != "UTF-16BE"@) by {
        assert("UTF-8"@.len() != "UTF-16BE"@.len());
    }
}

/// Saving a UTF-8 file that had a byte-order mark writes the mark again,
/// followed by the UTF-8 bytes of the text.
pub proof fn law_utf8_bom_kept(content: Seq<char>)
    ensures
        file_bytes_for("UTF-8"@, true, content) == seq![0xEFu8, 0xBBu8, 0xBFu8] + encode_utf8(content),
        file_bytes_for("UTF-8"@, true, content).take(3) == seq![0xEFu8, 0xBBu8, 0xBFu8],
{
    reveal_strlit("UTF-8");
    reveal_strlit("UTF-16LE");
    reveal_strlit("UTF-16BE");
    assert("UTF-8"@ != "UTF-16LE"@) by {
        assert("UTF-8"@.len() != "UTF-16LE"@.len());
    }
    assert("UTF-8"@ != "UTF-16BE"@) by {
        assert("UTF-8"@.len() != "UTF-16BE"@.len());
    }
    let b = seq![0xEFu8, 0xBBu8, 0xBFu8] + encode_utf8(content);
    assert(b.take(3) =~= seq![0xEFu8, 0xBBu8, 0xBFu8]);
}


/// Backspace right after typing a char (with no selection) takes the char out
/// again: the lines and the cursor are as before the char was typed.
pub proof fn law_backspace_undoes_insert(s: EditState, ch: char)
    requires
        cursor_valid(s),
        selection_of(s) is None,
        s.col + char_width(ch) <= usize::MAX,
    ensures
        ({
            let t = backspace_spec(insert_at_cursor_spec(delete_selection_spec(s), seq![ch]));
            &&& t.doc == s.doc
            &&& t.row == s.row
            &&& t.col == s.col
        }),
{
    let line = s.doc[s.row as int];
    let k = char_index(line, s.col as int);
    lemma_char_index(line, s.col as int);
    let nl = line.take(k) + seq![ch] + line.skip(k);
    let s1 = insert_at_cursor_spec(s, seq![ch]);
    assert(s1.doc[s.row as int] == nl);
    assert(byte_len(seq![ch]) == char_width(ch)) by {
        reveal_with_fuel(byte_len, 2);
        assert(seq![ch].drop_last() =~= Seq::<char>::empty());
    }
    assert(nl.take(k) =~= line.take(k));
    assert(nl.take(k + 1) =~= line.take(k) + seq![ch]);
    lemma_byte_len_concat(line.take(k), seq![ch]);
    assert(byte_offset(nl, k + 1) == s1.col);
    assert(byte_offset(nl, k) == s.col);
    lemma_index_of_offset(nl, k + 1);
    lemma_index_of_offset(nl, k);
    assert(nl.take(k) + nl.skip(k + 1) =~= line);
    match s.anchor {
        None => {
            assert(s1.doc.update(s.row as int, nl.take(k) + nl.skip(k + 1)) =~= s.doc);
        },
        Some(a) => {
            assert(a == (s.row, s.col));
            assert(selection_of(s1) == Some(((s.row, s.col), (s.row, s1.col))));
            assert(s1.doc.take(s.row as int) + seq![nl.take(k) + Seq::<char>::empty() + nl.skip(k + 1)]
                + s1.doc.skip(s.row + 1) =~= s.doc);
        },
    }
}

/// Backspace right after breaking a line (without auto-indent, with no
/// selection) joins the two halves again: the lines and the cursor are as before.
pub proof fn law_backspace_undoes_newline(s: EditState)
    requires
        cursor_valid(s),
        selection_of(s) is None,
        s.doc.len() < usize::MAX,
    ensures
        ({
            let t = backspace_spec(insert_newline_spec(delete_selection_spec(s), false));
            &&& t.doc == s.doc
            &&& t.row == s.row
            &&& t.col == s.col
        }),
{
    let line = s.doc[s.row as int];
    let k = char_index(line, s.col as int);
    lemma_char_index(line, s.col as int);
    let before = line.take(k);
    let after = line.skip(k);
    let s1 = insert_newline_spec(s, false);
    assert(Seq::<char>::empty() + after =~= after);
    assert(byte_len(Seq::<char>::empty()) == 0);
    assert(s1.doc[s.row as int] == before);
    assert(s1.doc[s.row + 1] == after);
    assert(byte_len(before) == s.col);
    assert(before + after =~= line);
    match s.anchor {
        None => {
            assert(s1.doc.update(s.row as int, before + s1.doc[s.row + 1]).remove(s.row + 1) =~= s.doc);
        },
        Some(a) => {
            assert(a == (s.row, s.col));
            assert(selection_of(s1) == Some(((s.row, s.col), ((s.row + 1) as usize, 0usize))));
            lemma_ends_are_boundaries(before);
            lemma_ends_are_boundaries(after);
            assert(before.take(k) =~= before);
            assert(after.skip(0) =~= after);
            assert(s1.doc.take(s.row as int) + seq![before.take(k) + Seq::<char>::empty() + after.skip(0)]
                + s1.doc.skip(s.row + 2) =~= s.doc);
        },
    }
}

/// With a selection, backspace deletes the selection.
pub proof fn law_backspace_deletes_selection(s: EditState)
    requires
        selection_of(s) is Some,
    ensures
        backspace_spec(s) == delete_selection_spec(s),
{
}


/// Bindings that bind every action, written to a key-binding file and read
/// back, are the same bindings.
pub proof fn law_saved_bindings_load_back(m: Map<Action, Seq<Seq<char>>>)
    requires
        forall|a: Action| m.contains_key(a),
    ensures
        with_file(names_map(m)) == m,
{
    assert forall|a: Action| #[trigger] with_file(names_map(m))[a] == m[a] by {
        crate::config::lemma_parse_name(a);
    }
    assert(with_file(names_map(m)) =~= m);
}

/// The exported default key-binding file reads back as the default bindings.
pub proof fn law_exported_defaults_load_back()
    ensures
        with_file(names_map(default_map())) == default_map(),
{
    law_saved_bindings_load_back(default_map());
}


/// On a buffer with no selection, typing a char and then pressing backspace
/// leaves the lines and the cursor as they were.
pub proof fn law_editor_backspace_after_insert_char(e0: Editor, e1: Editor, e2: Editor, ch: char)
    requires
        cursor_valid(e0.state()),
        selection_of(e0.state()) is None,
        e0.cursor_col + char_width(ch) <= usize::MAX,
        Editor::insert_char_post(&e0, &e1, ch),
        Editor::backspace_post(&e1, &e2),
    ensures
        e2.doc() == e0.doc(),
        e2.cursor_row == e0.cursor_row,
        e2.cursor_col == e0.cursor_col,
{
    law_backspace_undoes_insert(e0.state(), ch);
}

/// On a buffer with no selection, breaking the line (without auto-indent) and
/// then pressing backspace leaves the lines and the cursor as they were.
pub proof fn law_editor_backspace_after_newline(e0: Editor, e1: Editor, e2: Editor)
    requires
        cursor_valid(e0.state()),
        selection_of(e0.state()) is None,
        e0.lines@.len() < usize::MAX,
        Editor::insert_newline_post(&e0, &e1, false),
        Editor::backspace_post(&e1, &e2),
    ensures
        e2.doc() == e0.doc(),
        e2.cursor_row == e0.cursor_row,
        e2.cursor_col == e0.cursor_col,
{
    law_backspace_undoes_newline(e0.state());
}

/// On a buffer with a selection, backspace does what deleting the selection does.
pub proof fn law_editor_backspace_with_selection(e0: Editor, e1: Editor)
    requires
        selection_of(e0.state()) is Some,
        Editor::backspace_post(&e0, &e1),
    ensures
        e1.state() == delete_selection_spec(e0.state()),
        e1.same_aside(&e0),
        e1.status_msg == e0.status_msg,
        e1.clipboard == e0.clipboard,
{
    law_backspace_deletes_selection(e0.state());
}

} // verus!
