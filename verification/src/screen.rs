//! What the screen shows: the widths, texts and places of the tab bar, the
//! text area, the status line, the help lines, the prompt line and the
//! completion popup.  Colours and terminal output are left to the front end.
use crate::config::{Action, Config, KeyBindings};
use crate::editor::{Editor, cursor_index, cursor_valid};
use crate::completion::{file_name_of, path_file_name};
use crate::text::{
    byte_len, chars_of, decimal, push_all, push_char, push_decimal, string_from_chars, utf8_len,
};
use vstd::prelude::*;

verus! {

/// `n` spaces.
pub open spec fn blanks(n: nat) -> Seq<char> {
    Seq::new(n, |i: int| ' ')
}

/// The smaller of `a` and `b`.
pub open spec fn min_nat(a: nat, b: nat) -> nat {
    if a <= b {
        a
    } else {
        b
    }
}

/// A decimal numeral is no longer than the number is large (plus one, for 0).
pub proof fn lemma_decimal_len(n: nat)
    ensures
        decimal(n).len() <= n + 1,
        n >= 1 ==> decimal(n).len() <= n,
        n >= 2 ==> decimal(n).len() < n,
    decreases n,
{
    if n >= 10 {
        lemma_decimal_len(n / 10);
    }
}

/// Number of decimal digits of `n`.
pub fn decimal_len(n: usize) -> (k: usize)
    ensures
        k == decimal(n as nat).len(),
    decreases n,
{
    if n < 10 {
        1
    } else {
        proof {
            lemma_decimal_len((n / 10) as nat);
        }
        decimal_len(n / 10) + 1
    }
}

/// Width of the line-number gutter for a text of `n` lines: the digits of `n`
/// and one space, or nothing when line numbers are off.
pub open spec fn gutter_width(n: nat, on: bool) -> nat {
    if on {
        decimal(n).len() + 1
    } else {
        0
    }
}

/// Width (in columns) of the line-number gutter, or 0 if disabled.
pub fn line_number_width(editor: &Editor, config: &Config) -> (w: usize)
    ensures
        w == gutter_width(editor.lines@.len(), config.line_numbers),
{
    if config.line_numbers {
        proof {
            lemma_decimal_len(editor.lines@.len());
        }
        decimal_len(editor.lines.len()) + 1
    } else {
        0
    }
}

/// At most the first `max_chars` chars of `s`.
pub fn truncate_chars(s: &str, max_chars: usize) -> (r: String)
    ensures
        r@ == s@.take(min_nat(s@.len(), max_chars as nat) as int),
{
    let v = chars_of(s);
    let n = if v.len() <= max_chars {
        v.len()
    } else {
        max_chars
    };
    string_from_chars(&v.as_slice()[0..n])
}

/// `s` centred in `width` columns: cut to `width` chars when it does not fit,
/// else padded with spaces on both sides, the extra one on the right.
pub open spec fn centred(s: Seq<char>, width: nat) -> Seq<char> {
    if s.len() >= width {
        s.take(width as int)
    } else {
        let total = (width - s.len()) as nat;
        let left = total / 2;
        blanks(left) + s + blanks((total - left) as nat)
    }
}

/// Appends `n` spaces to `s`.
pub fn push_blanks(s: &mut String, n: usize)
    ensures
        final(s)@ == old(s)@ + blanks(n as nat),
{
    let mut i: usize = 0;
    while i < n
        invariant
            i <= n,
            s@ == old(s)@ + blanks(i as nat),
        decreases n - i,
    {
        push_char(s, ' ');
        i = i + 1;
        assert(s@ =~= old(s)@ + blanks(i as nat));
    }
}

/// `s` centred in `width` columns (see [`centred`]).
pub fn center_str(s: &str, width: usize) -> (r: String)
    ensures
        r@ == centred(s@, width as nat),
{
    let v = chars_of(s);
    let n = v.len();
    if n >= width {
        return truncate_chars(s, width);
    }
    let total = width - n;
    let left = total / 2;
    let mut r = String::new();
    push_blanks(&mut r, left);
    crate::text::push_all(&mut r, s);
    push_blanks(&mut r, total - left);
    assert(r@ =~= centred(s@, width as nat));
    r
}

/// Most completions the popup shows at once.
pub const COMPLETE_MAX: usize = 8;

/// Rows of the popup for `n` completions: the shown ones, and a counter line
/// when some are hidden.
pub open spec fn popup_rows_spec(n: nat) -> nat {
    if n > COMPLETE_MAX {
        COMPLETE_MAX as nat + 1
    } else {
        n
    }
}

/// How many screen rows the popup for `n` completions occupies.
pub fn popup_rows(n: usize) -> (r: usize)
    ensures
        r == popup_rows_spec(n as nat),
{
    let shown = if n < COMPLETE_MAX {
        n
    } else {
        COMPLETE_MAX
    };
    if n > COMPLETE_MAX {
        shown + 1
    } else {
        shown
    }
}

/// `p` is a prefix of `s`.
pub open spec fn prefix_of(p: Seq<char>, s: Seq<char>) -> bool {
    p.len() <= s.len() && s.take(p.len() as int) == p
}

/// The longest common prefix of `a` and `b`.
pub open spec fn shared_prefix(a: Seq<char>, b: Seq<char>) -> Seq<char>
    decreases a.len(),
{
    if a.len() == 0 || b.len() == 0 || a[0] != b[0] {
        Seq::empty()
    } else {
        seq![a[0]] + shared_prefix(a.drop_first(), b.drop_first())
    }
}

/// The longest common prefix of the first `n` strings of `v` (the first one
/// alone when `n` is 1).
pub open spec fn common_prefix_upto(v: Seq<Seq<char>>, n: int) -> Seq<char>
    decreases n,
{
    if n <= 1 {
        v[0]
    } else {
        shared_prefix(common_prefix_upto(v, n - 1), v[n - 1])
    }
}

/// The longest string that is a prefix of every string of `v` (empty for no strings).
pub open spec fn common_prefix_spec(v: Seq<Seq<char>>) -> Seq<char> {
    if v.len() == 0 {
        Seq::empty()
    } else {
        common_prefix_upto(v, v.len() as int)
    }
}

/// `shared_prefix(a, b)` is a prefix of both, and every common prefix of both is a prefix of it.
pub proof fn lemma_shared_prefix(a: Seq<char>, b: Seq<char>, p: Seq<char>)
    ensures
        prefix_of(shared_prefix(a, b), a),
        prefix_of(shared_prefix(a, b), b),
        prefix_of(p, a) && prefix_of(p, b) ==> prefix_of(p, shared_prefix(a, b)),
    decreases a.len(),
{
    let s = shared_prefix(a, b);
    if a.len() == 0 || b.len() == 0 || a[0] != b[0] {
        assert(a.take(0) =~= Seq::<char>::empty());
        assert(b.take(0) =~= Seq::<char>::empty());
        if prefix_of(p, a) && prefix_of(p, b) && p.len() > 0 {
            assert(a[0] == a.take(p.len() as int)[0]);
            assert(b[0] == b.take(p.len() as int)[0]);
        }
        if p.len() == 0 {
            assert(s.take(0) =~= p);
        }
    } else {
        let q = if p.len() > 0 {
            p.drop_first()
        } else {
            p
        };
        lemma_shared_prefix(a.drop_first(), b.drop_first(), q);
        let r = shared_prefix(a.drop_first(), b.drop_first());
        assert(a.take(s.len() as int) =~= seq![a[0]] + a.drop_first().take(r.len() as int));
        assert(b.take(s.len() as int) =~= seq![b[0]] + b.drop_first().take(r.len() as int));
        if prefix_of(p, a) && prefix_of(p, b) {
            if p.len() > 0 {
                assert(a.drop_first().take(q.len() as int) =~= a.take(p.len() as int).drop_first());
                assert(b.drop_first().take(q.len() as int) =~= b.take(p.len() as int).drop_first());
                assert(p[0] == a[0]) by {
                    assert(a.take(p.len() as int)[0] == a[0]);
                }
                assert(s.take(p.len() as int) =~= seq![a[0]] + r.take(q.len() as int));
                assert(p =~= seq![p[0]] + q);
            } else {
                assert(s.take(0) =~= p);
            }
        }
    }
}

/// A prefix of a prefix is a prefix.
pub proof fn lemma_prefix_trans(p: Seq<char>, q: Seq<char>, s: Seq<char>)
    requires
        prefix_of(p, q),
        prefix_of(q, s),
    ensures
        prefix_of(p, s),
{
    assert(s.take(p.len() as int) =~= s.take(q.len() as int).take(p.len() as int));
}

/// The common prefix of the first `n` strings is a prefix of each of them, and
/// every common prefix of them is a prefix of it.
pub proof fn lemma_common_prefix_upto(v: Seq<Seq<char>>, n: int, p: Seq<char>)
    requires
        1 <= n <= v.len(),
    ensures
        forall|i: int| 0 <= i < n ==> prefix_of(common_prefix_upto(v, n), #[trigger] v[i]),
        (forall|i: int| 0 <= i < n ==> prefix_of(p, #[trigger] v[i])) ==> prefix_of(
            p,
            common_prefix_upto(v, n),
        ),
    decreases n,
{
    if n == 1 {
        assert(v[0].take(v[0].len() as int) =~= v[0]);
        if prefix_of(p, v[0]) {
        }
    } else {
        lemma_common_prefix_upto(v, n - 1, p);
        let c = common_prefix_upto(v, n - 1);
        lemma_shared_prefix(c, v[n - 1], p);
        let s = common_prefix_upto(v, n);
        assert forall|i: int| 0 <= i < n implies prefix_of(s, #[trigger] v[i]) by {
            if i < n - 1 {
                lemma_prefix_trans(s, c, v[i]);
            }
        }
    }
}

/// The common prefix of the strings of `strs`, char by char.
pub fn common_prefix(strs: &[String]) -> (r: String)
    ensures
        r@ == common_prefix_spec(strs@.map_values(|s: String| s@)),
{
    let ghost v = strs@.map_values(|s: String| s@);
    if strs.len() == 0 {
        return String::new();
    }
    let mut prefix = chars_of(strs[0].as_str());
    let mut i: usize = 1;
    while i < strs.len()
        invariant
            1 <= i <= strs@.len(),
            v == strs@.map_values(|s: String| s@),
            prefix@ == common_prefix_upto(v, i as int),
        decreases strs@.len() - i,
    {
        let s = chars_of(strs[i].as_str());
        let mut k: usize = 0;
        assert(prefix@.skip(0) =~= prefix@);
        assert(s@.skip(0) =~= s@);
        assert(prefix@.take(0) + shared_prefix(prefix@, s@) =~= shared_prefix(prefix@, s@));
        while k < prefix.len() && k < s.len() && prefix[k] == s[k]
            invariant
                k <= prefix@.len(),
                k <= s@.len(),
                prefix@.take(k as int) == s@.take(k as int),
                shared_prefix(prefix@, s@) == prefix@.take(k as int) + shared_prefix(
                    prefix@.skip(k as int),
                    s@.skip(k as int),
                ),
            decreases prefix@.len() - k,
        {
            proof {
                let a = prefix@.skip(k as int);
                let b = s@.skip(k as int);
                assert(a.drop_first() =~= prefix@.skip(k + 1));
                assert(b.drop_first() =~= s@.skip(k + 1));
                assert(prefix@.take(k + 1) =~= prefix@.take(k as int) + seq![a[0]]);
                assert(s@.take(k + 1) =~= s@.take(k as int) + seq![b[0]]);
            }
            k = k + 1;
        }
        proof {
            let a = prefix@.skip(k as int);
            let b = s@.skip(k as int);
            assert(shared_prefix(a, b) =~= Seq::<char>::empty());
            assert(prefix@.take(k as int) + Seq::<char>::empty() =~= prefix@.take(k as int));
            assert(v[i as int] == s@);
        }
        prefix.truncate(k);
        i = i + 1;
    }
    string_from_chars(prefix.as_slice())
}

/// The name shown on a tab: the file name of its path, the whole path when it
/// has none, or "New Buffer" for a buffer without a path.
pub open spec fn tab_name(ed: Editor) -> Seq<char> {
    match ed.filename {
        None => "New Buffer"@,
        Some(p) => match path_file_name(p@) {
            Some(n) => n,
            None => p@,
        },
    }
}

/// The text of a tab: its name between spaces, after a `*` when modified.
pub open spec fn tab_text(ed: Editor) -> Seq<char> {
    " "@ + (if ed.modified {
        "*"@
    } else {
        " "@
    }) + tab_name(ed) + " "@
}

/// How a tab is drawn: the active tab stands out, an inactive tab with unsaved
/// changes is marked, other tabs are plain.
#[derive(Debug, Clone, Copy, PartialEq, Eq, Structural)]
pub enum TabStyle {
    Active,
    Modified,
    Plain,
}

/// The style of a tab: active when it is the active tab, else modified when its
/// buffer has unsaved changes, else plain.
pub open spec fn tab_style(active: bool, modified: bool) -> TabStyle {
    if active {
        TabStyle::Active
    } else if modified {
        TabStyle::Modified
    } else {
        TabStyle::Plain
    }
}

/// A piece of the tab bar: the tab of buffer `index` with its text and style,
/// or a separator.
pub enum TabPiece {
    Tab { index: usize, text: String, style: TabStyle },
    Separator,
}

/// Each tab among `pieces` shows a buffer of `editors`, in the style that its
/// buffer and the active tab `active` call for (see [`tab_style`]).
pub open spec fn tab_styles_ok(pieces: Seq<TabPiece>, editors: Seq<Editor>, active: usize) -> bool {
    forall|k: int|
        0 <= k < pieces.len() ==> match #[trigger] pieces[k] {
            TabPiece::Tab { index, style, .. } => index < editors.len() && style == tab_style(
                index == active,
                editors[index as int].modified,
            ),
            TabPiece::Separator => true,
        }
}

/// A tab-bar piece as plain values (`None` for a separator).
pub open spec fn tab_piece_view(p: TabPiece) -> (Option<usize>, Seq<char>) {
    match p {
        TabPiece::Tab { index, text, .. } => (Some(index), text@),
        TabPiece::Separator => (None, "\u{2502}"@),
    }
}

/// The pieces of the tab bar from tab `i` on, starting at column `x` of a bar
/// `w` wide, and the column after them: tabs are laid out left to right while
/// each fits before the last column, with a separator after each tab that is
/// followed by another when there is room for it.
pub open spec fn tab_bar_from(texts: Seq<Seq<char>>, w: nat, i: int, x: nat) -> (
    Seq<(Option<usize>, Seq<char>)>,
    nat,
)
    decreases texts.len() - i,
{
    if i < 0 || i >= texts.len() || x + texts[i].len() >= w {
        (Seq::empty(), x)
    } else {
        let x1 = x + texts[i].len();
        let sep = i + 1 < texts.len() && x1 + 1 < w;
        let rest = tab_bar_from(texts, w, i + 1, if sep {
            x1 + 1
        } else {
            x1
        });
        (seq![(Some(i as usize), texts[i])] + (if sep {
            seq![(None, "\u{2502}"@)]
        } else {
            Seq::empty()
        }) + rest.0, rest.1)
    }
}

/// The tab bar: its pieces, and whether the brand fits at its right end.
pub struct TabBar {
    pub pieces: Vec<TabPiece>,
    pub brand: bool,
}

/// The brand shown at the right end of the tab bar, ten columns wide.
pub fn brand_text() -> (s: &'static str)
    ensures
        s@ == " NanoLike "@,
        s@.len() == 10,
{
    proof {
        reveal_strlit(" NanoLike ");
    }
    " NanoLike "
}

/// The text of the tab of `ed`.
fn tab_label(ed: &Editor) -> (t: String)
    ensures
        t@ == tab_text(*ed),
{
    let name = match &ed.filename {
        None => String::from_str("New Buffer"),
        Some(p) => match file_name_of(p.as_str()) {
            Some(n) => n,
            None => p.clone(),
        },
    };
    let mut t = String::from_str(" ");
    push_all(&mut t, if ed.modified {
        "*"
    } else {
        " "
    });
    push_all(&mut t, name.as_str());
    push_all(&mut t, " ");
    assert(t@ =~= tab_text(*ed));
    t
}

/// The tab bar for `editors` on a screen `w` wide, where tab `active_tab` is
/// the active one (see [`tab_bar_from`] and [`tab_styles_ok`]); the brand shows
/// when it fits after the tabs.
pub fn draw_tab_bar(editors: &Vec<Editor>, active_tab: usize, w: usize) -> (bar: TabBar)
    ensures
        ({
            let texts = editors@.map_values(|e: Editor| tab_text(e));
            let (pieces, x) = tab_bar_from(texts, w as nat, 0, 0);
            &&& bar.pieces@.map_values(|p: TabPiece| tab_piece_view(p)) == pieces
            &&& bar.brand == (w > x + 10)
        }),
        tab_styles_ok(bar.pieces@, editors@, active_tab),
{
    let ghost texts = editors@.map_values(|e: Editor| tab_text(e));
    let mut pieces: Vec<TabPiece> = Vec::new();
    let mut x: usize = 0;
    let mut i: usize = 0;
    let n = editors.len();
    while i < n
        invariant
            n == editors@.len(),
            texts == editors@.map_values(|e: Editor| tab_text(e)),
            i <= n,
            x <= w,
            ({
                let r = tab_bar_from(texts, w as nat, i as int, x as nat);
                let all = tab_bar_from(texts, w as nat, 0, 0);
                &&& pieces@.map_values(|p: TabPiece| tab_piece_view(p)) + r.0 == all.0
                &&& r.1 == all.1
            }),
            tab_styles_ok(pieces@, editors@, active_tab),
        decreases n - i,
    {
        let text = tab_label(&editors[i]);
        let tw = chars_of(text.as_str()).len();
        assert(texts[i as int] == text@);
        if tw >= w - x {
            assert(tab_bar_from(texts, w as nat, i as int, x as nat).0 =~= Seq::empty());
            i = n;
        } else {
            let ghost before = pieces@.map_values(|p: TabPiece| tab_piece_view(p));
            let style = if i == active_tab {
                TabStyle::Active
            } else if editors[i].modified {
                TabStyle::Modified
            } else {
                TabStyle::Plain
            };
            pieces.push(TabPiece::Tab { index: i, text, style });
            x = x + tw;
            let sep = i + 1 < n && x + 1 < w;
            if sep {
                pieces.push(TabPiece::Separator);
                x = x + 1;
            }
            proof {
                let now = pieces@.map_values(|p: TabPiece| tab_piece_view(p));
                if sep {
                    assert(now =~= before + seq![(Some(i), texts[i as int])] + seq![(None::<usize>, "\u{2502}"@)]);
                } else {
                    assert(now =~= before + seq![(Some(i), texts[i as int])]);
                }
            }
            i = i + 1;
        }
    }
    proof {
        assert(tab_bar_from(texts, w as nat, i as int, x as nat).1 == x);
        let r = tab_bar_from(texts, w as nat, i as int, x as nat);
        assert(r.0 =~= Seq::empty());
        assert(pieces@.map_values(|p: TabPiece| tab_piece_view(p)) + r.0 =~= pieces@.map_values(
            |p: TabPiece| tab_piece_view(p),
        ));
    }
    let brand = w > x && w - x > 10;
    TabBar { pieces, brand }
}

/// The position part of the status line: line and column (from 1), the
/// encoding, and whether the file has a byte-order mark.
pub open spec fn col_info(ed: Editor) -> Seq<char> {
    " Ln "@ + decimal((ed.cursor_row + 1) as nat) + ", Col "@ + decimal(
        (cursor_index(ed.state()) + 1) as nat,
    ) + " | "@ + ed.encoding@ + (if ed.has_bom {
        " BOM"@
    } else {
        Seq::empty()
    }) + " "@
}

/// The message part of the status line: the status after a space, if there is one.
pub open spec fn status_message(ed: Editor) -> Seq<char> {
    if ed.status_msg@.len() > 0 {
        " "@ + ed.status_msg@
    } else {
        Seq::empty()
    }
}

/// The status line: its full text, and the message shown over its start in
/// the colour of `error` (none when there is no status).
pub struct StatusLine {
    pub text: String,
    pub message: String,
    pub error: bool,
}

/// `s` padded with spaces to at least `w` chars.
pub open spec fn pad_to(s: Seq<char>, w: nat) -> Seq<char> {
    if s.len() >= w {
        s
    } else {
        s + blanks((w - s.len()) as nat)
    }
}

/// The status line of `ed` on a screen `w` wide: its text, the message shown
/// over its start, and whether that is an error.  The message is cut to the
/// room that the position part leaves (counted in bytes) and padded to it, the
/// position part follows, and the whole is cut to `w` chars.
pub open spec fn status_line_spec(ed: Editor, w: usize) -> (Seq<char>, Seq<char>, bool) {
    let info = col_info(ed);
    let mw = if w >= byte_len(info) {
        (w - byte_len(info)) as nat
    } else {
        0
    };
    let msg = status_message(ed);
    let shown = msg.take(min_nat(msg.len(), mw) as int);
    let full = pad_to(shown, mw) + info;
    (full.take(min_nat(full.len(), w as nat) as int), shown, ed.status_error)
}

/// The status line of `editor` on a screen `w` wide: the message, cut to the
/// room left by the position part (counted in bytes) and padded to it, then
/// the position part, all cut to `w` chars.
pub fn draw_status_bar(editor: &Editor, w: usize) -> (st: StatusLine)
    requires
        cursor_valid(editor.state()),
        cursor_index(editor.state()) < usize::MAX,
    ensures
        (st.text@, st.message@, st.error) == status_line_spec(*editor, w),
{
    let mut info = String::from_str(" Ln ");
    assert(editor.doc().len() == editor.lines@.len());
    assert(editor.cursor_row < editor.lines.len());
    push_decimal(&mut info, editor.cursor_row + 1);
    push_all(&mut info, ", Col ");
    push_decimal(&mut info, editor.cursor_char_col() + 1);
    push_all(&mut info, " | ");
    push_all(&mut info, editor.encoding.name());
    if editor.has_bom {
        push_all(&mut info, " BOM");
    }
    push_all(&mut info, " ");
    assert(info@ =~= col_info(*editor));
    let ilen = utf8_len(info.as_str());
    let mw = if w >= ilen {
        w - ilen
    } else {
        0
    };
    let mut msg = String::new();
    if !editor.status_msg.as_str().is_empty() {
        msg = String::from_str(" ");
        push_all(&mut msg, editor.status_msg.as_str());
    }
    assert(msg@ =~= status_message(*editor));
    let shown = truncate_chars(msg.as_str(), mw);
    let mut full = shown.clone();
    let slen = chars_of(shown.as_str()).len();
    if slen < mw {
        push_blanks(&mut full, mw - slen);
    }
    push_all(&mut full, info.as_str());
    assert(full@ =~= pad_to(shown@, mw as nat) + info@);
    let text = truncate_chars(full.as_str(), w);
    StatusLine { text, message: shown, error: editor.status_error }
}

/// An entry of a help line: the separator before it, the key, the label
/// (after a space), and the padding that fills its column.
pub struct HelpEntry {
    pub sep: String,
    pub key: String,
    pub label: String,
    pub pad: usize,
}

/// A help entry as plain values.
pub open spec fn help_entry_view(e: HelpEntry) -> (Seq<char>, Seq<char>, Seq<char>, usize) {
    (e.sep@, e.key@, e.label@, e.pad)
}

/// The shortcuts of the first help line.
pub open spec fn help_row1() -> Seq<(Action, Seq<char>)> {
    seq![
        (Action::Quit, "Quit"@),
        (Action::Save, "Save"@),
        (Action::Search, "Search"@),
        (Action::Replace, "Replace"@),
        (Action::GotoLine, "GoTo"@),
        (Action::Undo, "Undo"@),
    ]
}

/// The shortcuts of the second help line.
pub open spec fn help_row2() -> Seq<(Action, Seq<char>)> {
    seq![
        (Action::CutLine, "Cut"@),
        (Action::CopyLine, "Copy"@),
        (Action::Paste, "Paste"@),
        (Action::SelectAll, "Sel All"@),
        (Action::Redo, "Redo"@),
        (Action::OpenFile, "Open"@),
        (Action::Help, "Help"@),
    ]
}

/// The first key bound to `a`, or nothing.
pub open spec fn first_key_of(kb: Map<Action, Seq<Seq<char>>>, a: Action) -> Seq<char> {
    if kb.contains_key(a) && kb[a].len() > 0 {
        kb[a][0]
    } else {
        Seq::empty()
    }
}

/// Columns an entry takes: its key, a space and its label.
pub open spec fn entry_width(kb: Map<Action, Seq<Seq<char>>>, e: (Action, Seq<char>)) -> nat {
    first_key_of(kb, e.0).len() + 1 + e.1.len()
}

/// The width of column `i` of the help lines: the wider of its two entries.
pub open spec fn help_col_width(kb: Map<Action, Seq<Seq<char>>>, i: int) -> nat {
    let a = if i < help_row1().len() {
        entry_width(kb, help_row1()[i])
    } else {
        0
    };
    let b = if i < help_row2().len() {
        entry_width(kb, help_row2()[i])
    } else {
        0
    };
    if a >= b {
        a
    } else {
        b
    }
}

/// The entries of a help line from entry `i` on, at column `x` (any column
/// past the end counting as the end) of a line `w` wide: each entry takes its
/// separator and its column, and entries stop before one that does not fit
/// before the last column.
pub open spec fn help_row_from(
    entries: Seq<(Action, Seq<char>)>,
    kb: Map<Action, Seq<Seq<char>>>,
    w: nat,
    widths: Seq<usize>,
    i: int,
    x: nat,
) -> Seq<(Seq<char>, Seq<char>, Seq<char>, usize)>
    decreases entries.len() - i,
{
    if i < 0 || i >= entries.len() {
        Seq::empty()
    } else {
        let key = first_key_of(kb, entries[i].0);
        let col_w = if i < widths.len() {
            widths[i] as nat
        } else {
            0
        };
        let entry_w = key.len() + 1 + entries[i].1.len();
        let pad = sat_sub(col_w as int, entry_w as int);
        let sep = if i == 0 {
            " "@
        } else {
            "  \u{2502}  "@
        };
        if x + sep.len() + col_w >= w {
            Seq::empty()
        } else {
            let x1 = x + sep.len() + entry_w + pad;
            seq![(sep, key, " "@ + entries[i].1, pad as usize)] + help_row_from(
                entries,
                kb,
                w,
                widths,
                i + 1,
                min_nat(x1, w),
            )
        }
    }
}

/// `a - b`, or 0 when `b` is larger.
pub open spec fn sat_sub(a: int, b: int) -> nat {
    if a >= b {
        (a - b) as nat
    } else {
        0
    }
}

/// The labels of the help lines are at most seven chars long.
pub proof fn lemma_help_label_lengths()
    ensures
        forall|i: int| 0 <= i < help_row1().len() ==> #[trigger] help_row1()[i].1.len() <= 7,
        forall|i: int| 0 <= i < help_row2().len() ==> #[trigger] help_row2()[i].1.len() <= 7,
        help_row1().len() == 6,
        help_row2().len() == 7,
{
    reveal_strlit("Quit");
    reveal_strlit("Save");
    reveal_strlit("Search");
    reveal_strlit("Replace");
    reveal_strlit("GoTo");
    reveal_strlit("Undo");
    reveal_strlit("Cut");
    reveal_strlit("Copy");
    reveal_strlit("Paste");
    reveal_strlit("Sel All");
    reveal_strlit("Redo");
    reveal_strlit("Open");
    reveal_strlit("Help");
    assert forall|i: int| 0 <= i < help_row1().len() implies #[trigger] help_row1()[i].1.len() <= 7 by {
        if i == 0 {
        } else if i == 1 {
        } else if i == 2 {
        } else if i == 3 {
        } else if i == 4 {
        } else {
        }
    }
    assert forall|i: int| 0 <= i < help_row2().len() implies #[trigger] help_row2()[i].1.len() <= 7 by {
        if i == 0 {
        } else if i == 1 {
        } else if i == 2 {
        } else if i == 3 {
        } else if i == 4 {
        } else if i == 5 {
        } else {
        }
    }
}

/// The shortcuts as actions and label texts.
pub open spec fn shortcuts_view(v: Seq<(Action, &str)>) -> Seq<(Action, Seq<char>)> {
    v.map_values(|e: (Action, &str)| (e.0, e.1@))
}

/// The shortcuts of the first (`true`) or second help line.
pub fn help_shortcuts(first: bool) -> (v: Vec<(Action, &'static str)>)
    ensures
        shortcuts_view(v@) == if first {
            help_row1()
        } else {
            help_row2()
        },
{
    let v = if first {
        vec![
            (Action::Quit, "Quit"),
            (Action::Save, "Save"),
            (Action::Search, "Search"),
            (Action::Replace, "Replace"),
            (Action::GotoLine, "GoTo"),
            (Action::Undo, "Undo"),
        ]
    } else {
        vec![
            (Action::CutLine, "Cut"),
            (Action::CopyLine, "Copy"),
            (Action::Paste, "Paste"),
            (Action::SelectAll, "Sel All"),
            (Action::Redo, "Redo"),
            (Action::OpenFile, "Open"),
            (Action::Help, "Help"),
        ]
    };
    assert(shortcuts_view(v@) =~= if first {
        help_row1()
    } else {
        help_row2()
    });
    v
}

/// The entries of a help line for `shortcuts` (see [`help_row_from`]).
#[verifier::rlimit(50)]
#[verifier::spinoff_prover]
pub fn draw_help_row(
    shortcuts: &Vec<(Action, &str)>,
    kb: &KeyBindings,
    w: usize,
    col_widths: &Vec<usize>,
) -> (r: Vec<HelpEntry>)
    ensures
        r@.map_values(|e: HelpEntry| help_entry_view(e)) == help_row_from(
            shortcuts_view(shortcuts@),
            kb@,
            w as nat,
            col_widths@,
            0,
            0,
        ),
{
    let ghost es = shortcuts_view(shortcuts@);
    let ghost all = help_row_from(es, kb@, w as nat, col_widths@, 0, 0);
    let mut out: Vec<HelpEntry> = Vec::new();
    let mut x: usize = 0;
    let mut i: usize = 0;
    let n = shortcuts.len();
    while i < n
        invariant
            n == shortcuts@.len(),
            es == shortcuts_view(shortcuts@),
            all == help_row_from(es, kb@, w as nat, col_widths@, 0, 0),
            i <= n,
            x <= w,
            out@.len() <= i,
            out@.map_values(|e: HelpEntry| help_entry_view(e)) + help_row_from(
                es,
                kb@,
                w as nat,
                col_widths@,
                i as int,
                x as nat,
            ) == all,
        decreases n - i,
    {
        proof {
            reveal_strlit(" ");
            reveal_strlit("  \u{2502}  ");
        }
        let (action, label) = shortcuts[i];
        assert(es[i as int] == (action, label@));
        let key = kb.first_key(action);
        let klen = chars_of(key).len();
        let llen = chars_of(label).len();
        let col_w = if i < col_widths.len() {
            col_widths[i]
        } else {
            0
        };
        let sep: &str = if i == 0 {
            " "
        } else {
            "  \u{2502}  "
        };
        let slen: usize = if i == 0 {
            1
        } else {
            5
        };
        let ghost rest_before = help_row_from(es, kb@, w as nat, col_widths@, i as int, x as nat);
        if slen >= w - x || col_w >= w - x - slen {
            assert(rest_before =~= Seq::empty());
            i = n;
        } else {
            let room = w - x - slen;
            let big = klen >= room || room - klen <= llen + 0 || room - klen - llen <= 1;
            let (pad, x1) = if big {
                (0, w)
            } else {
                let ew = klen + 1 + llen;
                let pad = if col_w >= ew {
                    col_w - ew
                } else {
                    0
                };
                (pad, x + slen + ew + pad)
            };
            let mut lab = String::from_str(" ");
            push_all(&mut lab, label);
            let ghost before = out@.map_values(|e: HelpEntry| help_entry_view(e));
            let entry = HelpEntry { sep: String::from_str(sep), key: String::from_str(key), label: lab, pad };
            let ghost ev = help_entry_view(entry);
            out.push(entry);
            proof {
                assert(out@.map_values(|e: HelpEntry| help_entry_view(e)) =~= before.push(ev));
                assert(rest_before == seq![ev] + help_row_from(
                    es,
                    kb@,
                    w as nat,
                    col_widths@,
                    i + 1,
                    x1 as nat,
                ));
                assert(before.push(ev) + help_row_from(
                    es,
                    kb@,
                    w as nat,
                    col_widths@,
                    i + 1,
                    x1 as nat,
                ) =~= before + rest_before);
            }
            x = x1;
            i = i + 1;
        }
    }
    proof {
        assert(help_row_from(es, kb@, w as nat, col_widths@, i as int, x as nat) =~= Seq::empty());
        assert(out@.map_values(|e: HelpEntry| help_entry_view(e)) + Seq::empty() =~= out@.map_values(
            |e: HelpEntry| help_entry_view(e),
        ));
    }
    out
}

/// The widths of the columns of the help lines, and the two lines on a
/// screen `w` wide.  Key names must be short enough for their widths to fit in
/// `usize`.
pub fn draw_help_bar(kb: &KeyBindings, w: usize) -> (r: (Vec<HelpEntry>, Vec<HelpEntry>))
    requires
        forall|a: Action| #[trigger] first_key_of(kb@, a).len() + 8 <= usize::MAX,
    ensures
        ({
            let widths = Seq::new(7, |i: int| help_col_width(kb@, i) as usize);
            &&& r.0@.map_values(|e: HelpEntry| help_entry_view(e)) == help_row_from(
                help_row1(),
                kb@,
                w as nat,
                widths,
                0,
                0,
            )
            &&& r.1@.map_values(|e: HelpEntry| help_entry_view(e)) == help_row_from(
                help_row2(),
                kb@,
                w as nat,
                widths,
                0,
                0,
            )
        }),
{
    let row1 = help_shortcuts(true);
    let row2 = help_shortcuts(false);
    proof {
        lemma_help_label_lengths();
        assert(shortcuts_view(row1@).len() == row1@.len());
        assert(shortcuts_view(row2@).len() == row2@.len());
    }
    let mut widths: Vec<usize> = Vec::new();
    let mut i: usize = 0;
    while i < 7
        invariant
            shortcuts_view(row1@) == help_row1(),
            shortcuts_view(row2@) == help_row2(),
            forall|a: Action| #[trigger] first_key_of(kb@, a).len() + 8 <= usize::MAX,
            row1@.len() == 6,
            row2@.len() == 7,
            forall|k: int| 0 <= k < help_row1().len() ==> #[trigger] help_row1()[k].1.len() <= 7,
            forall|k: int| 0 <= k < help_row2().len() ==> #[trigger] help_row2()[k].1.len() <= 7,
            i <= 7,
            widths@ == Seq::new(i as nat, |k: int| help_col_width(kb@, k) as usize),
        decreases 7 - i,
    {
        let a = if i < row1.len() {
            let (act, label) = row1[i];
            assert(help_row1()[i as int] == (act, label@));
            assert(first_key_of(kb@, act).len() + 8 <= usize::MAX);
            assert(help_row1()[i as int].1.len() <= 7);
            chars_of(kb.first_key(act)).len() + 1 + chars_of(label).len()
        } else {
            0
        };
        let b = {
            let (act, label) = row2[i];
            assert(help_row2()[i as int] == (act, label@));
            assert(first_key_of(kb@, act).len() + 8 <= usize::MAX);
            assert(help_row2()[i as int].1.len() <= 7);
            chars_of(kb.first_key(act)).len() + 1 + chars_of(label).len()
        };
        widths.push(if a >= b {
            a
        } else {
            b
        });
        i = i + 1;
        assert(widths@ =~= Seq::new(i as nat, |k: int| help_col_width(kb@, k) as usize));
    }
    let r1 = draw_help_row(&row1, kb, w, &widths);
    let r2 = draw_help_row(&row2, kb, w, &widths);
    (r1, r2)
}

} // verus!
