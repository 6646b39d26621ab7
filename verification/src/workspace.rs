//! The editing session: the open tabs, the settings and the key bindings, and
//! what a key press or the answer to a question does to them.
//!
//! The session does no terminal or file work itself.  A step returns a
//! [`Request`] for the outside work it needs (a question on the prompt line, a
//! file to write or to read, the settings to store, the help screen), and
//! [`App::resume`] takes the [`Reply`] to it and goes on from where it stopped.
use crate::config::{Action, Config, KeyBindings, bound_to, first_bound};
use crate::editor::{
    Editor, anchor_valid, cursor_index, cursor_valid, file_content, lemma_replace_count_mono,
    replace_count,
};
use crate::screen::{
    HelpEntry, StatusLine, TabBar, TabPiece, tab_styles_ok, draw_help_bar, draw_status_bar, draw_tab_bar, first_key_of,
    gutter_width, help_col_width, help_entry_view, help_row1, help_row2, help_row_from,
    line_number_width, status_line_spec, tab_bar_from, tab_piece_view, tab_text,
};
use crate::text_area::{
    TextRow, can_draw, cursor_place, cursor_place_spec, draw_ok, draw_text_area, last_visible,
    text_row_spec, text_row_view,
};
use crate::search::replace_in_line;
use crate::encoding::{file_bytes_for, str_eq};
use crate::keys::{Key, KeyInput, key_event_to_name, key_name_spec};
use crate::text::{
    decimal, byte_len, chars_of, index_of_offset, lemma_ends_are_boundaries, push_all, push_char,
    parse_usize, parse_usize_spec, push_decimal, trim, trim_str, lowercase, to_lowercase, utf8_len,
};
use vstd::prelude::*;

verus! {

/// A cursor motion.
pub enum Motion {
    Up,
    Down,
    Left,
    Right,
    PrevWord,
    NextWord,
    Home,
    End,
    FileTop,
    FileBottom,
    PageUp,
    PageDown,
}

/// What a key press asks for.
pub enum Command {
    /// A motion; with `true` it extends the selection, else it drops it.
    Move(Motion, bool),
    Newline,
    Backspace,
    Delete,
    /// The Tab key: spaces or a tab character, as the settings say.
    Indent,
    /// The action bound to the key.
    Run(Action),
    /// A printable char typed without Ctrl or Alt.
    Type(char),
    Ignore,
}

/// Outside work that a step needs before the session can go on.
pub enum Request {
    Nothing,
    /// Ask a question on the prompt line, with `default` as the initial answer.
    Prompt { message: String, default: String },
    /// Ask for a file path, with completion.
    FilePrompt { message: String, default: String },
    /// Write `bytes` to the file `path`.
    Write { path: String, bytes: Vec<u8> },
    /// Read the file `path`, if there is one.
    Open { path: String },
    /// Store the settings.
    SaveConfig,
    /// Show the help screen until a key is pressed.
    ShowHelp,
    /// The step cannot go on (see [`Fault`]).
    Fault(Fault),
}

/// Why a step cannot go on.
#[derive(Debug)]
pub enum Fault {
    /// An edit would use a selection whose anchor no longer lies in the text.
    StaleSelection,
    /// The cursor was moved onto a position that is not a char boundary of a line.
    CursorOffText,
    /// A position would go beyond the range of `usize`.
    Overflow,
    /// A highlight of the text area would start inside a char.
    Undrawable,
}

/// The outcome of a [`Request`].
pub enum Reply {
    Done,
    /// The answer, or `None` when the question was cancelled.
    Input(Option<String>),
    Written(Result<(), String>),
    /// `None` when there is no such file, else what reading it gave.
    Opened(Option<Result<Vec<u8>, String>>),
}

/// What follows a file write.
pub enum AfterSave {
    Stay,
    /// Quitting: the tabs to save, in order, and how many of them come before
    /// the one that is next.
    Quit(Vec<usize>, usize),
    /// Closing the active tab.
    Close,
}

/// The question or file operation that the session waits for.
pub enum Pending {
    Idle,
    SaveName(AfterSave),
    Writing(String, AfterSave),
    QuitChoice(Vec<usize>),
    CloseChoice,
    SearchTerm,
    ReplaceTerm,
    ReplaceWith(String),
    ReplaceConfirm(String, String),
    GotoLine,
    OpenName,
    Opening(String),
}

/// The editing session.
pub struct App {
    pub editors: Vec<Editor>,
    pub active_tab: usize,
    pub config: Config,
    pub kb: KeyBindings,
    pub running: bool,
    pub term_h: usize,
    pub term_w: usize,
    pub pending: Pending,
}

/// The command of a navigation or editing key that acts before any key binding.
pub open spec fn nav_command(ev: KeyInput) -> Option<Command> {
    let (c, a, s) = (ev.ctrl, ev.alt, ev.shift);
    match ev.code {
        Key::Up => if !c && !a {
            Some(Command::Move(Motion::Up, s))
        } else {
            None
        },
        Key::Down => if !c && !a {
            Some(Command::Move(Motion::Down, s))
        } else {
            None
        },
        Key::Left => if a {
            None
        } else if c {
            Some(Command::Move(Motion::PrevWord, s))
        } else {
            Some(Command::Move(Motion::Left, s))
        },
        Key::Right => if a {
            None
        } else if c {
            Some(Command::Move(Motion::NextWord, s))
        } else {
            Some(Command::Move(Motion::Right, s))
        },
        Key::Home => if c {
            Some(Command::Move(Motion::FileTop, s))
        } else {
            Some(Command::Move(Motion::Home, s))
        },
        Key::End => if c {
            Some(Command::Move(Motion::FileBottom, s))
        } else {
            Some(Command::Move(Motion::End, s))
        },
        Key::PageUp => Some(Command::Move(Motion::PageUp, s)),
        Key::PageDown => Some(Command::Move(Motion::PageDown, s)),
        Key::Enter => Some(Command::Newline),
        Key::Backspace => if !c && !a {
            Some(Command::Backspace)
        } else {
            None
        },
        Key::Delete => if !c && !a {
            Some(Command::Delete)
        } else {
            None
        },
        Key::Tab => Some(Command::Indent),
        _ => None,
    }
}

/// No action is bound to the key named `k`.
pub open spec fn unbound(kb: Map<Action, Seq<Seq<char>>>, k: Seq<char>) -> bool {
    forall|a: Action| !bound_to(kb, a, k)
}

/// `cmd` is what the key press `ev` asks for under the bindings `kb`: key
/// releases are ignored, navigation and editing keys act first, then a bound
/// action (the first one declared, where the key is bound to several), then a
/// printable char is typed.
pub open spec fn decided(kb: Map<Action, Seq<Seq<char>>>, ev: KeyInput, cmd: Command) -> bool {
    if ev.release {
        cmd == Command::Ignore
    } else if nav_command(ev) is Some {
        cmd == nav_command(ev).unwrap()
    } else {
        let name = key_name_spec(ev);
        match cmd {
            Command::Run(a) => first_bound(kb, a, name),
            Command::Type(ch) => unbound(kb, name) && ev.code == Key::Char(ch) && !ev.ctrl && !ev.alt,
            Command::Ignore => unbound(kb, name) && !(ev.code is Char && !ev.ctrl && !ev.alt),
            _ => false,
        }
    }
}

/// Rows of text on a terminal of height `h`: all but the tab bar, the status
/// line and the two help lines.
pub open spec fn text_height(h: usize) -> usize {
    if h >= 4 {
        (h - 4) as usize
    } else {
        0
    }
}

/// The buffer before a motion: with `extend` the selection anchor is dropped at
/// the cursor unless there already is one; without it the anchor is cleared.
pub open spec fn anchor_step(ed: Editor, extend: bool) -> Editor {
    Editor {
        selection_anchor: if !extend {
            None
        } else if ed.selection_anchor is None {
            Some((ed.cursor_row, ed.cursor_col))
        } else {
            ed.selection_anchor
        },
        ..ed
    }
}

/// `new` is `old` after the motion `m`, with `page` rows to a page.
pub open spec fn motion_post(old: Editor, new: Editor, m: Motion, page: usize) -> bool {
    match m {
        Motion::Up => Editor::move_up_post(&old, &new),
        Motion::Down => Editor::move_down_post(&old, &new),
        Motion::Left => Editor::move_left_post(&old, &new),
        Motion::Right => Editor::move_right_post(&old, &new),
        Motion::PrevWord => Editor::move_prev_word_post(&old, &new),
        Motion::NextWord => Editor::move_next_word_post(&old, &new),
        Motion::Home => Editor::move_home_post(&old, &new),
        Motion::End => Editor::move_end_post(&old, &new),
        Motion::PageUp => Editor::move_page_up_post(&old, &new, page),
        Motion::PageDown => Editor::move_page_down_post(&old, &new, page),
        Motion::FileTop => new == Editor { cursor_row: 0, cursor_col: 0, ..old },
        Motion::FileBottom => new == Editor {
            cursor_row: (old.lines@.len() - 1) as usize,
            cursor_col: byte_len(old.doc().last()) as usize,
            ..old
        },
    }
}

/// The selection anchor of `ed` no longer lies in its text.
pub open spec fn stale(ed: Editor) -> bool {
    !anchor_valid(ed.state())
}

/// The bytes that saving `ed` writes.
pub open spec fn saved_bytes(ed: Editor) -> Seq<u8> {
    file_bytes_for(ed.encoding@, ed.has_bom, file_content(ed.doc()))
}

/// Every index of `v` is below `n`.
pub open spec fn indices_below(v: Seq<usize>, n: int) -> bool {
    forall|i: int| 0 <= i < v.len() ==> #[trigger] v[i] < n
}

impl App {
    /// The active buffer.
    pub open spec fn active(&self) -> Editor {
        self.editors@[self.active_tab as int]
    }

    /// The tab indices that a pending step still refers to are those of open tabs.
    pub open spec fn pending_ok(&self) -> bool {
        let n = self.editors@.len() as int;
        match self.pending {
            Pending::SaveName(AfterSave::Quit(tabs, k)) => indices_below(tabs@, n) && k <= tabs@.len(),
            Pending::Writing(_, AfterSave::Quit(tabs, k)) => indices_below(tabs@, n) && k <= tabs@.len(),
            Pending::QuitChoice(m) => indices_below(m@, n),
            _ => true,
        }
    }

    /// The session is well formed: while it runs there is an active tab, and
    /// every buffer has its cursor on a char boundary of one of its lines.
    pub open spec fn inv(&self) -> bool {
        &&& self.running ==> self.editors@.len() > 0
        &&& self.editors@.len() > 0 ==> self.active_tab < self.editors@.len()
        &&& forall|i: int|
            0 <= i < self.editors@.len() ==> #[trigger] cursor_valid(self.editors@[i].state())
        &&& self.pending_ok()
    }

    /// Only the active buffer may differ from those of `o`; all else is the same.
    pub open spec fn same_but_active(&self, o: &App) -> bool {
        &&& self.editors@.len() == o.editors@.len()
        &&& self.active_tab == o.active_tab
        &&& forall|i: int|
            0 <= i < self.editors@.len() && i != self.active_tab ==> #[trigger] self.editors@[i]
                == o.editors@[i]
        &&& self.config == o.config
        &&& self.kb == o.kb
        &&& self.running == o.running
        &&& self.term_h == o.term_h
        &&& self.term_w == o.term_w
        &&& self.pending == o.pending
    }

    /// The command that the key press `ev` asks for.
    pub fn decide(&self, ev: &KeyInput) -> (cmd: Command)
        ensures
            decided(self.kb@, *ev, cmd),
    {
        if ev.release {
            return Command::Ignore;
        }
        let c = ev.ctrl;
        let a = ev.alt;
        let s = ev.shift;
        match &ev.code {
            Key::Up => {
                if !c && !a {
                    return Command::Move(Motion::Up, s);
                }
            },
            Key::Down => {
                if !c && !a {
                    return Command::Move(Motion::Down, s);
                }
            },
            Key::Left => {
                if !a {
                    if c {
                        return Command::Move(Motion::PrevWord, s);
                    } else {
                        return Command::Move(Motion::Left, s);
                    }
                }
            },
            Key::Right => {
                if !a {
                    if c {
                        return Command::Move(Motion::NextWord, s);
                    } else {
                        return Command::Move(Motion::Right, s);
                    }
                }
            },
            Key::Home => {
                if c {
                    return Command::Move(Motion::FileTop, s);
                } else {
                    return Command::Move(Motion::Home, s);
                }
            },
            Key::End => {
                if c {
                    return Command::Move(Motion::FileBottom, s);
                } else {
                    return Command::Move(Motion::End, s);
                }
            },
            Key::PageUp => {
                return Command::Move(Motion::PageUp, s);
            },
            Key::PageDown => {
                return Command::Move(Motion::PageDown, s);
            },
            Key::Enter => {
                return Command::Newline;
            },
            Key::Backspace => {
                if !c && !a {
                    return Command::Backspace;
                }
            },
            Key::Delete => {
                if !c && !a {
                    return Command::Delete;
                }
            },
            Key::Tab => {
                return Command::Indent;
            },
            _ => {},
        }
        let name = key_event_to_name(ev);
        match self.kb.get_action(name.as_str()) {
            Some(act) => Command::Run(act),
            None => match &ev.code {
                Key::Char(ch) => {
                    if !c && !a {
                        Command::Type(*ch)
                    } else {
                        Command::Ignore
                    }
                },
                _ => Command::Ignore,
            },
        }
    }
}

/// Drops or keeps the selection anchor before a motion (see [`anchor_step`]).
fn set_anchor(ed: &mut Editor, extend: bool)
    ensures
        *final(ed) == anchor_step(*old(ed), extend),
{
    if extend {
        if ed.selection_anchor.is_none() {
            ed.selection_anchor = Some((ed.cursor_row, ed.cursor_col));
        }
    } else {
        ed.selection_anchor = None;
    }
}

/// The motion can be made without overflow: a page down stays within `usize`.
pub open spec fn motion_fits(ed: Editor, m: Motion, page: usize) -> bool {
    m is PageDown ==> ed.cursor_row + page <= usize::MAX
}

/// Moves the cursor of `ed` by `m`.
fn apply_motion(ed: &mut Editor, m: Motion, page: usize)
    requires
        cursor_valid(old(ed).state()),
        motion_fits(*old(ed), m, page),
    ensures
        motion_post(*old(ed), *final(ed), m, page),
        cursor_valid(final(ed).state()),
{
    match m {
        Motion::Up => {
            ed.move_up();
        },
        Motion::Down => {
            ed.move_down();
        },
        Motion::Left => {
            ed.move_left();
        },
        Motion::Right => {
            ed.move_right();
        },
        Motion::PrevWord => {
            ed.move_prev_word();
        },
        Motion::NextWord => {
            ed.move_next_word();
        },
        Motion::Home => {
            ed.move_home();
        },
        Motion::End => {
            ed.move_end();
        },
        Motion::PageUp => {
            ed.move_page_up(page);
        },
        Motion::PageDown => {
            ed.move_page_down(page);
        },
        Motion::FileTop => {
            ed.cursor_row = 0;
            ed.cursor_col = 0;
            proof {
                lemma_ends_are_boundaries(ed.doc()[0]);
            }
        },
        Motion::FileBottom => {
            let last = ed.lines.len() - 1;
            let col = utf8_len(ed.lines[last].as_str());
            ed.cursor_row = last;
            ed.cursor_col = col;
            proof {
                lemma_ends_are_boundaries(ed.doc()[last as int]);
            }
        },
    }
}

/// `n` spaces.
pub open spec fn spaces(n: nat) -> Seq<char> {
    Seq::new(n, |i: int| ' ')
}

/// `new` is `old` after the editing command `cmd` under the settings `config`.
pub open spec fn edit_post(old: Editor, new: Editor, cmd: Command, config: Config) -> bool {
    match cmd {
        Command::Newline => Editor::insert_newline_post(&old, &new, config.auto_indent),
        Command::Backspace => Editor::backspace_post(&old, &new),
        Command::Delete => Editor::delete_char_post(&old, &new),
        Command::Indent => if config.use_spaces {
            Editor::insert_str_post(&old, &new, spaces(config.tab_size as nat))
        } else {
            Editor::insert_char_post(&old, &new, '\t')
        },
        Command::Type(c) => Editor::insert_char_post(&old, &new, c),
        _ => new == old,
    }
}

/// Whether the selection anchor of `ed`, if any, lies in its text.
pub fn anchor_in_text(ed: &Editor) -> (b: bool)
    ensures
        b == anchor_valid(ed.state()),
{
    match ed.selection_anchor {
        None => true,
        Some((r, c)) => {
            if r >= ed.lines.len() {
                return false;
            }
            let v = chars_of(ed.lines[r].as_str());
            index_of_offset(&v, c).is_some()
        },
    }
}

/// A string of `n` spaces.
fn spaces_string(n: usize) -> (s: String)
    ensures
        s@ == spaces(n as nat),
{
    let mut s = String::new();
    let mut i: usize = 0;
    while i < n
        invariant
            i <= n,
            s@ == spaces(i as nat),
        decreases n - i,
    {
        push_char(&mut s, ' ');
        i = i + 1;
        assert(s@ =~= spaces(i as nat));
    }
    s
}

/// Applies the editing command `cmd` to `ed`.
fn apply_edit(ed: &mut Editor, cmd: Command, config: Config)
    requires
        cursor_valid(old(ed).state()),
        anchor_valid(old(ed).state()),
    ensures
        edit_post(*old(ed), *final(ed), cmd, config),
        cursor_valid(final(ed).state()),
{
    match cmd {
        Command::Newline => {
            ed.insert_newline(config.auto_indent);
        },
        Command::Backspace => {
            ed.backspace();
        },
        Command::Delete => {
            ed.delete_char();
        },
        Command::Indent => {
            if config.use_spaces {
                let sp = spaces_string(config.tab_size);
                ed.insert_str(sp.as_str());
            } else {
                ed.insert_char('\t');
            }
        },
        Command::Type(c) => {
            ed.insert_char(c);
        },
        _ => {},
    }
}

/// `new` is `old` with the status message `msg`, an error one when `error`.
pub open spec fn status_set(old: Editor, new: Editor, msg: Seq<char>, error: bool) -> bool {
    &&& new.status_msg@ == msg
    &&& new.status_error == error
    &&& new.same_text(&old)
    &&& new.same_aside(&old)
    &&& new.clipboard == old.clipboard
}

/// `req` asks `message` on the prompt line, with `default` as the initial answer.
pub open spec fn asks(req: Request, message: Seq<char>, default: Seq<char>) -> bool {
    req matches Request::Prompt { message: m, default: d } && m@ == message && d@ == default
}

/// `req` asks for a file path with `message`, starting from `default`.
pub open spec fn asks_path(req: Request, message: Seq<char>, default: Seq<char>) -> bool {
    req matches Request::FilePrompt { message: m, default: d } && m@ == message && d@ == default
}

/// `req` writes the contents of `ed` to `path`.
pub open spec fn writes(req: Request, path: Seq<char>, ed: Editor) -> bool {
    req matches Request::Write { path: p, bytes: b } && p@ == path && b@ == saved_bytes(ed)
}

/// `new` is `old` after looking for the next match of its search term: the
/// matches are found again, the cursor goes to the next one, and without one
/// the status reports the term as not found.
pub open spec fn searched_next(old: Editor, new: Editor) -> bool {
    exists|e1: Editor, e2: Editor, hit: bool|
        #![trigger Editor::build_search_matches_post(&old, &e1), Editor::search_next_post(&e1, &e2, hit)]
        {
            &&& Editor::build_search_matches_post(&old, &e1)
            &&& Editor::search_next_post(&e1, &e2, hit)
            &&& hit ==> new == e2
            &&& !hit ==> status_set(e2, new, "Not found: "@ + old.search_term@, true)
        }
}

/// As [`searched_next`], for the previous match.
pub open spec fn searched_prev(old: Editor, new: Editor) -> bool {
    exists|e1: Editor, e2: Editor, hit: bool|
        #![trigger Editor::build_search_matches_post(&old, &e1), Editor::search_prev_post(&e1, &e2, hit)]
        {
            &&& Editor::build_search_matches_post(&old, &e1)
            &&& Editor::search_prev_post(&e1, &e2, hit)
            &&& hit ==> new == e2
            &&& !hit ==> status_set(e2, new, "Not found: "@ + old.search_term@, true)
        }
}

/// A step that leaves the buffer `ed` asks for nothing more, unless it left
/// the cursor off the text.
pub open spec fn settled(ed: Editor, req: Request) -> bool {
    if cursor_valid(ed.state()) {
        req is Nothing
    } else {
        req == Request::Fault(Fault::CursorOffText)
    }
}

/// The actions that change the active buffer alone.
pub open spec fn is_buffer_action(a: Action) -> bool {
    ||| a is CutLine
    ||| a is CopyLine
    ||| a is Paste
    ||| a is SearchNext
    ||| a is SearchPrev
    ||| a is PageUp
    ||| a is PageDown
    ||| a is FileTop
    ||| a is FileBottom
    ||| a is SelectAll
    ||| a is Undo
    ||| a is Redo
    ||| a is NextWord
    ||| a is PrevWord
    ||| a is DeleteWord
    ||| a is DeleteToEol
}

/// The actions that act on the selection, if there is one.
pub open spec fn uses_selection(a: Action) -> bool {
    a is CutLine || a is CopyLine || a is Paste
}

/// `new` is the buffer `ed` after the buffer action `a`, with `page` rows to a page.
pub open spec fn buffer_action_post(ed: Editor, new: Editor, a: Action, page: usize) -> bool {
    match a {
        Action::CutLine => Editor::cut_line_post(&ed, &new),
        Action::CopyLine => Editor::copy_line_post(&ed, &new),
        Action::Paste => Editor::paste_post(&ed, &new),
        Action::SearchNext => searched_next(ed, new),
        Action::SearchPrev => searched_prev(ed, new),
        Action::PageUp => motion_post(ed, new, Motion::PageUp, page),
        Action::PageDown => motion_post(ed, new, Motion::PageDown, page),
        Action::FileTop => motion_post(anchor_step(ed, false), new, Motion::FileTop, page),
        Action::FileBottom => motion_post(anchor_step(ed, false), new, Motion::FileBottom, page),
        Action::SelectAll => Editor::select_all_post(&ed, &new),
        Action::Undo => Editor::do_undo_post(&ed, &new),
        Action::Redo => Editor::do_redo_post(&ed, &new),
        Action::NextWord => motion_post(ed, new, Motion::NextWord, page),
        Action::PrevWord => motion_post(ed, new, Motion::PrevWord, page),
        Action::DeleteWord => Editor::delete_word_before_post(&ed, &new),
        Action::DeleteToEol => Editor::delete_to_eol_post(&ed, &new),
        _ => false,
    }
}

/// The tabs among the first `n` of `eds` whose buffers are modified, in order.
pub open spec fn modified_tabs(eds: Seq<Editor>, n: int) -> Seq<usize>
    decreases n,
{
    if n <= 0 {
        Seq::empty()
    } else if eds[n - 1].modified {
        modified_tabs(eds, n - 1).push((n - 1) as usize)
    } else {
        modified_tabs(eds, n - 1)
    }
}

/// The question asked before quitting with `n` modified tabs.
pub open spec fn quit_question(n: nat) -> Seq<char> {
    if n == 1 {
        "Save before quit? (y/n/[cancel]): "@
    } else {
        decimal(n) + " tabs have unsaved changes. Save all? (y/n/[cancel]): "@
    }
}

/// "on" or "off".
pub open spec fn on_off(b: bool) -> Seq<char> {
    if b {
        "on"@
    } else {
        "off"@
    }
}

/// The settings after the toggle action `a`, which is one of the three toggles.
pub open spec fn toggled(c: Config, a: Action) -> Config {
    match a {
        Action::ToggleLineNumbers => Config { line_numbers: !c.line_numbers, ..c },
        Action::ToggleWordWrap => Config { word_wrap: !c.word_wrap, ..c },
        _ => Config { auto_indent: !c.auto_indent, ..c },
    }
}

/// The status message that the toggle action `a` leaves, under the new settings `c`.
pub open spec fn toggle_message(c: Config, a: Action) -> Seq<char> {
    match a {
        Action::ToggleLineNumbers => "Line numbers "@ + on_off(c.line_numbers),
        Action::ToggleWordWrap => "Word wrap "@ + on_off(c.word_wrap),
        _ => "Auto-indent "@ + on_off(c.auto_indent),
    }
}

/// `new` is `old` with the active tab closed: the tab after it (or else the one
/// before) becomes active, and with no tab left the session stops.
pub open spec fn closed(old: App, new: App) -> bool {
    let eds = old.editors@.remove(old.active_tab as int);
    &&& new.editors@ == eds
    &&& new.active_tab == (if eds.len() == 0 || old.active_tab < eds.len() {
        old.active_tab
    } else {
        (eds.len() - 1) as usize
    })
    &&& new.running == (old.running && eds.len() > 0)
    &&& new == App { editors: new.editors, active_tab: new.active_tab, running: new.running, ..old }
}

/// What the action `a` does to the session `old`, which waits for nothing.
pub open spec fn action_post(old: App, new: App, a: Action, req: Request) -> bool {
    let ed = old.active();
    let page = text_height(old.term_h);
    let n = old.editors@.len();
    let t = old.active_tab as int;
    if (a is SearchNext || a is SearchPrev) && ed.search_term@.len() == 0 {
        new == App { pending: Pending::SearchTerm, ..old } && asks(req, "Search: "@, Seq::empty())
    } else if is_buffer_action(a) {
        if uses_selection(a) && stale(ed) {
            new == old && req == Request::Fault(Fault::StaleSelection)
        } else if a is PageDown && !motion_fits(ed, Motion::PageDown, page) {
            new == old && req == Request::Fault(Fault::Overflow)
        } else {
            &&& new.same_but_active(&old)
            &&& buffer_action_post(ed, new.active(), a, page)
            &&& settled(new.active(), req)
        }
    } else {
        match a {
            Action::Quit => {
                let m = modified_tabs(old.editors@, n as int);
                if m.len() == 0 {
                    new == App { running: false, ..old } && req is Nothing
                } else {
                    &&& new.pending matches Pending::QuitChoice(v) && v@ == m
                    &&& new == App { pending: new.pending, ..old }
                    &&& asks(req, quit_question(m.len()), Seq::empty())
                }
            },
            Action::Save => match ed.filename {
                Some(f) => new == App { pending: Pending::Writing(f, AfterSave::Stay), ..old }
                    && writes(req, f@, ed),
                None => new == App { pending: Pending::SaveName(AfterSave::Stay), ..old } && asks(
                    req,
                    "Save as: "@,
                    Seq::empty(),
                ),
            },
            Action::SaveAs => new == App { pending: Pending::SaveName(AfterSave::Stay), ..old }
                && asks(
                req,
                "Save as: "@,
                match ed.filename {
                    Some(f) => f@,
                    None => Seq::empty(),
                },
            ),
            Action::Help => new == old && req is ShowHelp,
            Action::Search => new == App { pending: Pending::SearchTerm, ..old } && asks(
                req,
                "Search: "@,
                ed.search_term@,
            ),
            Action::Replace => new == App { pending: Pending::ReplaceTerm, ..old } && asks(
                req,
                "Search: "@,
                ed.search_term@,
            ),
            Action::GotoLine => new == App { pending: Pending::GotoLine, ..old } && asks(
                req,
                "Go to line: "@,
                Seq::empty(),
            ),
            Action::OpenFile => new == App { pending: Pending::OpenName, ..old } && asks_path(
                req,
                "Open file: "@,
                Seq::empty(),
            ),
            Action::NextTab => new == App {
                active_tab: if n > 1 {
                    ((t + 1) % (n as int)) as usize
                } else {
                    old.active_tab
                },
                ..old
            } && req is Nothing,
            Action::PrevTab => new == App {
                active_tab: if n > 1 {
                    ((t + n - 1) % (n as int)) as usize
                } else {
                    old.active_tab
                },
                ..old
            } && req is Nothing,
            Action::NewTab => {
                &&& new.editors@.len() == n + 1
                &&& new.editors@.drop_last() == old.editors@
                &&& Editor::new_post(&new.editors@.last(), None)
                &&& new == App { editors: new.editors, active_tab: n as usize, ..old }
                &&& req is Nothing
            },
            Action::CloseTab => if ed.modified {
                &&& new == App { pending: Pending::CloseChoice, ..old }
                &&& asks(req, "Save before closing tab? (y/n/[cancel]): "@, Seq::empty())
            } else {
                closed(old, new) && req is Nothing
            },
            _ => {
                let c = toggled(old.config, a);
                &&& new.same_but_active(&App { config: c, ..old })
                &&& status_set(ed, new.active(), toggle_message(c, a), false)
                &&& req is SaveConfig
            },
        }
    }
}

/// Whether the cursor of `ed` lies on a char boundary of one of its lines.
pub fn cursor_in_text(ed: &Editor) -> (b: bool)
    ensures
        b == cursor_valid(ed.state()),
{
    let r = ed.cursor_row;
    if r >= ed.lines.len() {
        return false;
    }
    let v = chars_of(ed.lines[r].as_str());
    index_of_offset(&v, ed.cursor_col).is_some()
}

/// Reports the search term of `ed` as not found.
fn report_not_found(ed: &mut Editor)
    ensures
        status_set(*old(ed), *final(ed), "Not found: "@ + old(ed).search_term@, true),
{
    let mut msg = String::from_str("Not found: ");
    push_all(&mut msg, ed.search_term.as_str());
    ed.set_status(msg, true);
}

/// Finds the matches of the search term of `ed` again and goes to the next one.
fn find_next(ed: &mut Editor)
    ensures
        searched_next(*old(ed), *final(ed)),
{
    let ghost e0 = *ed;
    ed.build_search_matches();
    let ghost e1 = *ed;
    let hit = ed.search_next();
    let ghost e2 = *ed;
    if !hit {
        report_not_found(ed);
    }
    assert(Editor::build_search_matches_post(&e0, &e1));
    assert(Editor::search_next_post(&e1, &e2, hit));
}

/// Finds the matches of the search term of `ed` again and goes to the previous one.
fn find_prev(ed: &mut Editor)
    ensures
        searched_prev(*old(ed), *final(ed)),
{
    let ghost e0 = *ed;
    ed.build_search_matches();
    let ghost e1 = *ed;
    let hit = ed.search_prev();
    let ghost e2 = *ed;
    if !hit {
        report_not_found(ed);
    }
    assert(Editor::build_search_matches_post(&e0, &e1));
    assert(Editor::search_prev_post(&e1, &e2, hit));
}

impl App {
    /// Rows of text on the terminal (see [`text_height`]).
    pub fn text_height(&self) -> (h: usize)
        ensures
            h == text_height(self.term_h),
    {
        if self.term_h >= 4 {
            self.term_h - 4
        } else {
            0
        }
    }

    /// Takes the active buffer out, leaving a blank one in its place.
    fn take_active(&mut self) -> (ed: Editor)
        requires
            old(self).active_tab < old(self).editors@.len(),
        ensures
            ed == old(self).active(),
            final(self).editors@.len() == old(self).editors@.len(),
            forall|i: int|
                0 <= i < old(self).editors@.len() && i != old(self).active_tab
                    ==> #[trigger] final(self).editors@[i] == old(self).editors@[i],
            *final(self) == (App { editors: final(self).editors, ..*old(self) }),
    {
        let mut ed = Editor::new(None);
        let t = self.active_tab;
        self.editors.set_and_swap(t, &mut ed);
        ed
    }

    /// Puts `ed` in the place of the active buffer.
    fn put_active(&mut self, ed: Editor)
        requires
            old(self).active_tab < old(self).editors@.len(),
        ensures
            final(self).editors@ == old(self).editors@.update(old(self).active_tab as int, ed),
            *final(self) == (App { editors: final(self).editors, ..*old(self) }),
    {
        let t = self.active_tab;
        self.editors.set(t, ed);
    }

    /// An action that changes the active buffer alone.
    fn buffer_action(&mut self, a: Action) -> (req: Request)
        requires
            old(self).inv(),
            old(self).running,
            old(self).pending is Idle,
            is_buffer_action(a),
            !((a is SearchNext || a is SearchPrev) && old(self).active().search_term@.len() == 0),
        ensures
            action_post(*old(self), *final(self), a, req),
            !(req is Fault) ==> final(self).inv(),
    {
        let t = self.active_tab;
        let page = self.text_height();
        if matches!(a, Action::CutLine | Action::CopyLine | Action::Paste) {
            if !anchor_in_text(&self.editors[t]) {
                return Request::Fault(Fault::StaleSelection);
            }
        }
        if matches!(a, Action::PageDown) {
            if self.editors[t].cursor_row > usize::MAX - page {
                return Request::Fault(Fault::Overflow);
            }
        }
        let ghost old_app = *self;
        let mut ed = self.take_active();
        let ghost e0 = ed;
        assert(cursor_valid(e0.state()));
        match a {
            Action::CutLine => {
                ed.cut_line();
            },
            Action::CopyLine => {
                ed.copy_line();
            },
            Action::Paste => {
                ed.paste();
            },
            Action::SearchNext => {
                find_next(&mut ed);
            },
            Action::SearchPrev => {
                find_prev(&mut ed);
            },
            Action::PageUp => {
                apply_motion(&mut ed, Motion::PageUp, page);
            },
            Action::PageDown => {
                apply_motion(&mut ed, Motion::PageDown, page);
            },
            Action::FileTop => {
                set_anchor(&mut ed, false);
                apply_motion(&mut ed, Motion::FileTop, page);
            },
            Action::FileBottom => {
                set_anchor(&mut ed, false);
                apply_motion(&mut ed, Motion::FileBottom, page);
            },
            Action::SelectAll => {
                ed.select_all();
            },
            Action::Undo => {
                ed.do_undo();
            },
            Action::Redo => {
                ed.do_redo();
            },
            Action::NextWord => {
                apply_motion(&mut ed, Motion::NextWord, page);
            },
            Action::PrevWord => {
                apply_motion(&mut ed, Motion::PrevWord, page);
            },
            Action::DeleteWord => {
                ed.delete_word_before();
            },
            _ => {
                ed.delete_to_eol();
            },
        }
        let ok = cursor_in_text(&ed);
        self.put_active(ed);
        proof {
            assert(self.active() == ed);
            assert forall|i: int|
                0 <= i < self.editors@.len() && i != self.active_tab implies #[trigger] self.editors@[i]
                == old_app.editors@[i] by {}
            if ok {
                assert forall|i: int| 0 <= i < self.editors@.len() implies #[trigger] cursor_valid(
                    self.editors@[i].state(),
                ) by {
                    if i != t {
                        assert(self.editors@[i] == old_app.editors@[i]);
                    }
                }
            }
        }
        if ok {
            Request::Nothing
        } else {
            Request::Fault(Fault::CursorOffText)
        }
    }
}

/// `modified_tabs` only lists open tabs.
proof fn lemma_modified_tabs_below(eds: Seq<Editor>, n: int)
    requires
        n <= eds.len(),
    ensures
        indices_below(modified_tabs(eds, n), eds.len() as int),
    decreases n,
{
    if n > 0 {
        lemma_modified_tabs_below(eds, n - 1);
    }
}

/// A prompt request.
fn prompt(message: &str, default: String) -> (req: Request)
    ensures
        asks(req, message@, default@),
{
    Request::Prompt { message: String::from_str(message), default }
}

impl App {
    /// The tabs whose buffers are modified, in order.
    fn modified_list(&self) -> (v: Vec<usize>)
        ensures
            v@ == modified_tabs(self.editors@, self.editors@.len() as int),
    {
        let mut v: Vec<usize> = Vec::new();
        let mut i: usize = 0;
        while i < self.editors.len()
            invariant
                i <= self.editors@.len(),
                v@ == modified_tabs(self.editors@, i as int),
            decreases self.editors@.len() - i,
        {
            if self.editors[i].modified {
                v.push(i);
            }
            i = i + 1;
        }
        v
    }

    /// Closes the active tab (see [`closed`]).
    fn close_active(&mut self)
        requires
            old(self).active_tab < old(self).editors@.len(),
        ensures
            closed(*old(self), *final(self)),
    {
        let t = self.active_tab;
        let _gone = self.editors.remove(t);
        if self.editors.len() == 0 {
            self.running = false;
        } else if t >= self.editors.len() {
            self.active_tab = self.editors.len() - 1;
        }
    }

    /// Asks the question before quitting, or stops when no tab is modified.
    fn start_quit(&mut self) -> (req: Request)
        requires
            old(self).inv(),
            old(self).running,
            old(self).pending is Idle,
        ensures
            action_post(*old(self), *final(self), Action::Quit, req),
            final(self).inv(),
    {
        let m = self.modified_list();
        proof {
            lemma_modified_tabs_below(self.editors@, self.editors@.len() as int);
        }
        let n = m.len();
        if n == 0 {
            self.running = false;
            return Request::Nothing;
        }
        let message = if n == 1 {
            String::from_str("Save before quit? (y/n/[cancel]): ")
        } else {
            let mut msg = String::new();
            push_decimal(&mut msg, n);
            push_all(&mut msg, " tabs have unsaved changes. Save all? (y/n/[cancel]): ");
            assert(msg@ =~= decimal(n as nat) + " tabs have unsaved changes. Save all? (y/n/[cancel]): "@);
            msg
        };
        self.pending = Pending::QuitChoice(m);
        Request::Prompt { message, default: String::new() }
    }

    /// Runs the action `a`.
    pub fn run_action(&mut self, a: Action) -> (req: Request)
        requires
            old(self).inv(),
            old(self).running,
            old(self).pending is Idle,
        ensures
            action_post(*old(self), *final(self), a, req),
            !(req is Fault) ==> final(self).inv(),
    {
        let t = self.active_tab;
        let n = self.editors.len();
        if matches!(a, Action::SearchNext | Action::SearchPrev) && self.editors[t].search_term.as_str().is_empty() {
            self.pending = Pending::SearchTerm;
            return prompt("Search: ", String::new());
        }
        if matches!(
            a,
            Action::CutLine | Action::CopyLine | Action::Paste | Action::SearchNext | Action::SearchPrev
                | Action::PageUp | Action::PageDown | Action::FileTop | Action::FileBottom
                | Action::SelectAll | Action::Undo | Action::Redo | Action::NextWord | Action::PrevWord
                | Action::DeleteWord | Action::DeleteToEol
        ) {
            return self.buffer_action(a);
        }
        match a {
            Action::Quit => self.start_quit(),
            Action::Save => {
                match &self.editors[t].filename {
                    Some(f) => {
                        let bytes = self.editors[t].file_bytes();
                        let path = f.clone();
                        self.pending = Pending::Writing(f.clone(), AfterSave::Stay);
                        Request::Write { path, bytes }
                    },
                    None => {
                        self.pending = Pending::SaveName(AfterSave::Stay);
                        prompt("Save as: ", String::new())
                    },
                }
            },
            Action::SaveAs => {
                let default = match &self.editors[t].filename {
                    Some(f) => f.clone(),
                    None => String::new(),
                };
                self.pending = Pending::SaveName(AfterSave::Stay);
                prompt("Save as: ", default)
            },
            Action::Help => Request::ShowHelp,
            Action::Search => {
                let default = self.editors[t].search_term.clone();
                self.pending = Pending::SearchTerm;
                prompt("Search: ", default)
            },
            Action::Replace => {
                let default = self.editors[t].search_term.clone();
                self.pending = Pending::ReplaceTerm;
                prompt("Search: ", default)
            },
            Action::GotoLine => {
                self.pending = Pending::GotoLine;
                prompt("Go to line: ", String::new())
            },
            Action::OpenFile => {
                self.pending = Pending::OpenName;
                Request::FilePrompt { message: String::from_str("Open file: "), default: String::new() }
            },
            Action::NextTab => {
                if n > 1 {
                    self.active_tab = (t + 1) % n;
                }
                Request::Nothing
            },
            Action::PrevTab => {
                if n > 1 {
                    let p = if t == 0 {
                        n - 1
                    } else {
                        t - 1
                    };
                    assert(p as int == (t + n - 1) % (n as int)) by (nonlinear_arith)
                        requires
                            t < n,
                            1 < n,
                            p == (if t == 0 {
                                n - 1
                            } else {
                                t - 1
                            }),
                    ;
                    self.active_tab = p;
                }
                Request::Nothing
            },
            Action::NewTab => {
                let ghost old_eds = self.editors@;
                self.editors.push(Editor::new(None));
                self.active_tab = n;
                assert(self.editors@.drop_last() =~= old_eds);
                proof {
                    assert forall|i: int| 0 <= i < self.editors@.len() implies #[trigger] cursor_valid(
                        self.editors@[i].state(),
                    ) by {
                        if i < n {
                            assert(self.editors@[i] == old_eds[i]);
                        }
                    }
                }
                Request::Nothing
            },
            Action::CloseTab => {
                if self.editors[t].modified {
                    self.pending = Pending::CloseChoice;
                    prompt("Save before closing tab? (y/n/[cancel]): ", String::new())
                } else {
                    let ghost old_app = *self;
                    self.close_active();
                    proof {
                        assert forall|i: int| 0 <= i < self.editors@.len() implies #[trigger] cursor_valid(
                            self.editors@[i].state(),
                        ) by {
                            if i < t {
                                assert(self.editors@[i] == old_app.editors@[i]);
                            } else {
                                assert(self.editors@[i] == old_app.editors@[i + 1]);
                            }
                        }
                    }
                    Request::Nothing
                }
            },
            _ => self.toggle(a),
        }
    }

    /// Flips the setting of the toggle action `a` and reports it.
    fn toggle(&mut self, a: Action) -> (req: Request)
        requires
            old(self).inv(),
            old(self).running,
            old(self).pending is Idle,
            a is ToggleLineNumbers || a is ToggleWordWrap || a is ToggleAutoIndent,
        ensures
            action_post(*old(self), *final(self), a, req),
            final(self).inv(),
    {
        let ghost old_app = *self;
        let mut msg;
        match a {
            Action::ToggleLineNumbers => {
                self.config.line_numbers = !self.config.line_numbers;
                msg = String::from_str("Line numbers ");
                push_all(&mut msg, if self.config.line_numbers { "on" } else { "off" });
            },
            Action::ToggleWordWrap => {
                self.config.word_wrap = !self.config.word_wrap;
                msg = String::from_str("Word wrap ");
                push_all(&mut msg, if self.config.word_wrap { "on" } else { "off" });
            },
            _ => {
                self.config.auto_indent = !self.config.auto_indent;
                msg = String::from_str("Auto-indent ");
                push_all(&mut msg, if self.config.auto_indent { "on" } else { "off" });
            },
        }
        proof {
            reveal_strlit("on");
            reveal_strlit("off");
        }
        assert(msg@ =~= toggle_message(self.config, a));
        let t = self.active_tab;
        let ghost mid = *self;
        let mut ed = self.take_active();
        ed.set_status(msg, false);
        self.put_active(ed);
        proof {
            assert forall|i: int|
                0 <= i < self.editors@.len() && i != self.active_tab implies #[trigger] self.editors@[i]
                == old_app.editors@[i] by {}
            assert forall|i: int| 0 <= i < self.editors@.len() implies #[trigger] cursor_valid(
                self.editors@[i].state(),
            ) by {
                if i != t {
                    assert(self.editors@[i] == old_app.editors@[i]);
                }
            }
        }
        Request::SaveConfig
    }
}

/// What the command `cmd` does to the session `old`, which waits for nothing.
pub open spec fn command_post(old: App, new: App, cmd: Command, req: Request) -> bool {
    let ed = old.active();
    let page = text_height(old.term_h);
    match cmd {
        Command::Move(m, extend) => {
            let ed1 = anchor_step(ed, extend);
            if motion_fits(ed1, m, page) {
                &&& new.same_but_active(&old)
                &&& motion_post(ed1, new.active(), m, page)
                &&& req is Nothing
            } else {
                new == old && req == Request::Fault(Fault::Overflow)
            }
        },
        Command::Run(a) => action_post(old, new, a, req),
        Command::Ignore => new == old && req is Nothing,
        _ => if stale(ed) {
            new == old && req == Request::Fault(Fault::StaleSelection)
        } else {
            &&& new.same_but_active(&old)
            &&& edit_post(ed, new.active(), cmd, old.config)
            &&& req is Nothing
        },
    }
}

/// The session before the command of the key press `ev` runs: Escape first
/// drops the selection of the active buffer.
pub open spec fn key_prelude(old: App, mid: App, ev: KeyInput) -> bool {
    if ev.code is Esc && !ev.release {
        &&& mid.same_but_active(&old)
        &&& mid.active() == Editor { selection_anchor: None, ..old.active() }
    } else {
        mid == old
    }
}

impl App {
    /// Runs the command `cmd`.
    pub fn apply_command(&mut self, cmd: Command) -> (req: Request)
        requires
            old(self).inv(),
            old(self).running,
            old(self).pending is Idle,
        ensures
            command_post(*old(self), *final(self), cmd, req),
            !(req is Fault) ==> final(self).inv(),
    {
        let t = self.active_tab;
        match cmd {
            Command::Run(a) => {
                return self.run_action(a);
            },
            Command::Ignore => {
                return Request::Nothing;
            },
            _ => {},
        }
        let page = self.text_height();
        let ghost old_app = *self;
        match cmd {
            Command::Move(m, extend) => {
                if matches!(m, Motion::PageDown) && self.editors[t].cursor_row > usize::MAX - page {
                    return Request::Fault(Fault::Overflow);
                }
                assert(cursor_valid(old_app.editors@[t as int].state()));
                let mut ed = self.take_active();
                set_anchor(&mut ed, extend);
                apply_motion(&mut ed, m, page);
                self.put_active(ed);
            },
            _ => {
                if !anchor_in_text(&self.editors[t]) {
                    return Request::Fault(Fault::StaleSelection);
                }
                let config = self.config;
                let mut ed = self.take_active();
                apply_edit(&mut ed, cmd, config);
                self.put_active(ed);
            },
        }
        proof {
            assert forall|i: int|
                0 <= i < self.editors@.len() && i != self.active_tab implies #[trigger] self.editors@[i]
                == old_app.editors@[i] by {}
            assert forall|i: int| 0 <= i < self.editors@.len() implies #[trigger] cursor_valid(
                self.editors@[i].state(),
            ) by {
                if i != t {
                    assert(self.editors@[i] == old_app.editors@[i]);
                }
            }
        }
        Request::Nothing
    }

    /// Handles the key press `ev`: Escape drops the selection, then the
    /// command that the key asks for (see [`decided`]) runs.
    pub fn handle_key(&mut self, ev: &KeyInput) -> (req: Request)
        requires
            old(self).inv(),
            old(self).running,
            old(self).pending is Idle,
        ensures
            exists|mid: App, cmd: Command|
                #![trigger key_prelude(*old(self), mid, *ev), decided(old(self).kb@, *ev, cmd)]
                {
                    &&& key_prelude(*old(self), mid, *ev)
                    &&& decided(old(self).kb@, *ev, cmd)
                    &&& command_post(mid, *final(self), cmd, req)
                },
            !(req is Fault) ==> final(self).inv(),
    {
        let ghost old_app = *self;
        if !ev.release && matches!(ev.code, Key::Esc) {
            let t = self.active_tab;
            let mut ed = self.take_active();
            ed.selection_anchor = None;
            self.put_active(ed);
            proof {
                assert forall|i: int|
                    0 <= i < self.editors@.len() && i != self.active_tab implies #[trigger] self.editors@[i]
                    == old_app.editors@[i] by {}
                assert forall|i: int| 0 <= i < self.editors@.len() implies #[trigger] cursor_valid(
                    self.editors@[i].state(),
                ) by {
                    if i != t {
                        assert(self.editors@[i] == old_app.editors@[i]);
                    }
                }
            }
        }
        let ghost mid = *self;
        assert(key_prelude(old_app, mid, *ev));
        let cmd = self.decide(ev);
        let req = self.apply_command(cmd);
        assert(decided(old_app.kb@, *ev, cmd));
        req
    }
}

/// The answer to a yes/no question, trimmed and in lower case.
pub open spec fn answer(c: Seq<char>) -> Seq<char> {
    lowercase(trim(c))
}

/// The answer says yes.
pub open spec fn is_yes(a: Seq<char>) -> bool {
    a == "y"@ || a == "yes"@
}

/// The answer says no.
pub open spec fn is_no(a: Seq<char>) -> bool {
    a == "n"@ || a == "no"@
}

/// Saving `ed`, then doing `then`: with a file name the write is requested,
/// else the name is asked for.
pub open spec fn save_request(ed: Editor, pending: Pending, then: AfterSave, req: Request) -> bool {
    match ed.filename {
        Some(f) => pending == Pending::Writing(f, then) && writes(req, f@, ed),
        None => pending == Pending::SaveName(then) && asks(req, "Save as: "@, Seq::empty()),
    }
}

/// `new` goes on quitting from `old`: with all of `tabs` from `k` on saved the
/// session stops, else the next of them becomes active and is saved.
pub open spec fn quit_step(old: App, new: App, tabs: Vec<usize>, k: usize, req: Request) -> bool {
    if k >= tabs@.len() {
        new == App { running: false, pending: Pending::Idle, ..old } && req is Nothing
    } else {
        &&& new == App { active_tab: tabs@[k as int], pending: new.pending, ..old }
        &&& save_request(
            old.editors@[tabs@[k as int] as int],
            new.pending,
            AfterSave::Quit(tabs, (k + 1) as usize),
            req,
        )
    }
}

/// A buffer with no name and no change whose text is one empty line.
pub open spec fn pristine(ed: Editor) -> bool {
    ed.filename is None && !ed.modified && ed.doc() == seq![Seq::<char>::empty()]
}

/// A buffer for the file `path` as opening it makes one: a new file when there
/// is none, else the buffer of what reading it gave.
pub open spec fn opened_buffer(ed: Editor, path: String, read: Option<Result<Vec<u8>, String>>) -> bool {
    match read {
        None => Editor::new_post(&ed, Some(path)),
        Some(r) => Editor::open_post(&ed, path, r),
    }
}

/// `new` is `old` after searching for `term` by way of `e1`, the buffer with
/// `term` as its search term and its matches found, and `hit`, whether a next
/// match was found.
pub open spec fn looked_up_via(old: Editor, e1: Editor, new: Editor, term: String, hit: bool) -> bool {
    &&& Editor::build_search_matches_post(&Editor { search_term: term, ..old }, &e1)
    &&& e1.search_matches@.len() == 0 ==> status_set(e1, new, "Not found: "@ + term@, true)
    &&& e1.search_matches@.len() > 0 ==> Editor::search_next_post(&e1, &new, hit)
}

/// `new` is `old` after searching for `term`: it becomes the search term, its
/// matches are found, and the cursor goes to the next one or the status says
/// that there is none.
pub open spec fn looked_up(old: Editor, new: Editor, term: String) -> bool {
    exists|e1: Editor, hit: bool| #[trigger] looked_up_via(old, e1, new, term, hit)
}

/// `new` is `old` with the search term and its matches cleared.
pub open spec fn search_cleared(old: Editor, new: Editor) -> bool {
    &&& new.search_term@.len() == 0
    &&& new.search_matches@.len() == 0
    &&& new.status_msg@ == "Search cleared"@
    &&& !new.status_error
    &&& new.same_text(&old)
    &&& new.scroll_row == old.scroll_row
    &&& new.scroll_col == old.scroll_col
    &&& new.filename == old.filename
    &&& new.search_idx == old.search_idx
    &&& new.encoding == old.encoding
    &&& new.has_bom == old.has_bom
    &&& new.clipboard == old.clipboard
}

/// `new` is `old` after replacing every `term` with `rep` (see
/// `Editor::replace_all`), with the search matches cleared.
pub open spec fn replaced(old: Editor, new: Editor, term: String, rep: String) -> bool {
    exists|e1: Editor, count: usize|
        #![trigger Editor::replace_all_post(&Editor { search_term: term, ..old }, &e1, term@, rep@, count)]
        {
            &&& Editor::replace_all_post(&Editor { search_term: term, ..old }, &e1, term@, rep@, count)
            &&& new == Editor { search_matches: new.search_matches, ..e1 }
            &&& new.search_matches@.len() == 0
        }
}

/// `new` is `old` after making `term` the search term, finding its matches
/// and going to the next one (without a report when there is none).
pub open spec fn went_to_next(old: Editor, new: Editor, term: String) -> bool {
    exists|e1: Editor, hit: bool|
        #![trigger Editor::build_search_matches_post(&Editor { search_term: term, ..old }, &e1), Editor::search_next_post(&e1, &new, hit)]
        {
            &&& Editor::build_search_matches_post(&Editor { search_term: term, ..old }, &e1)
            &&& Editor::search_next_post(&e1, &new, hit)
        }
}

/// The number of replacements of `term` by `rep` in the text of `ed` fits in `usize`.
pub open spec fn replace_fits(ed: Editor, term: Seq<char>, rep: Seq<char>) -> bool {
    replace_count(ed.doc(), term, rep, ed.doc().len() as int) <= usize::MAX
}

/// What the reply `reply` does to the session `old`, given what it waits for.
pub open spec fn resume_post(old: App, new: App, reply: Reply, req: Request) -> bool {
    let ed = old.active();
    let t = old.active_tab as int;
    let idle = App { pending: Pending::Idle, ..old };
    let unchanged = new == idle && req is Nothing;
    let report = |msg: Seq<char>, error: bool|
        new.same_but_active(&idle) && status_set(ed, new.active(), msg, error) && req is Nothing;
    match old.pending {
        Pending::Idle => new == old && req is Nothing,
        Pending::SaveName(then) => match reply {
            Reply::Input(Some(f)) => if f@.len() > 0 {
                new == App { pending: Pending::Writing(f, then), ..old } && writes(req, f@, ed)
            } else if then is Stay {
                report("Save cancelled"@, false)
            } else {
                unchanged
            },
            Reply::Input(None) => if then is Stay {
                report("Save cancelled"@, false)
            } else {
                unchanged
            },
            _ => unchanged,
        },
        Pending::Writing(path, then) => match reply {
            Reply::Written(w) => {
                let saved = new.editors@[t];
                let ok = w is Ok;
                if then is Close && ok {
                    closed(idle, new) && req is Nothing
                } else {
                    &&& new.editors@.len() == old.editors@.len()
                    &&& forall|i: int|
                        0 <= i < old.editors@.len() && i != t ==> #[trigger] new.editors@[i]
                            == old.editors@[i]
                    &&& Editor::save_file_post(&ed, &saved, path@, w, ok)
                    &&& match then {
                        AfterSave::Quit(tabs, k) if ok => quit_step(
                            App { editors: new.editors, ..idle },
                            new,
                            tabs,
                            k,
                            req,
                        ),
                        _ => new == App { editors: new.editors, ..idle } && req is Nothing,
                    }
                }
            },
            _ => unchanged,
        },
        Pending::QuitChoice(tabs) => match reply {
            Reply::Input(Some(c)) => if is_yes(answer(c@)) {
                quit_step(idle, new, tabs, 0, req)
            } else if is_no(answer(c@)) {
                new == App { running: false, ..idle } && req is Nothing
            } else {
                unchanged
            },
            _ => unchanged,
        },
        Pending::CloseChoice => match reply {
            Reply::Input(Some(c)) => if is_yes(answer(c@)) {
                new == App { pending: new.pending, ..old } && save_request(
                    ed,
                    new.pending,
                    AfterSave::Close,
                    req,
                )
            } else if is_no(answer(c@)) {
                closed(idle, new) && req is Nothing
            } else {
                unchanged
            },
            _ => unchanged,
        },
        Pending::SearchTerm => match reply {
            Reply::Input(Some(term)) => if term@.len() > 0 {
                new.same_but_active(&idle) && looked_up(ed, new.active(), term) && settled(
                    new.active(),
                    req,
                )
            } else {
                new.same_but_active(&idle) && search_cleared(ed, new.active()) && req is Nothing
            },
            Reply::Input(None) => report("Search cancelled"@, false),
            _ => unchanged,
        },
        Pending::ReplaceTerm => match reply {
            Reply::Input(Some(term)) => if term@.len() > 0 {
                new == App { pending: Pending::ReplaceWith(term), ..old } && asks(
                    req,
                    "Replace with: "@,
                    Seq::empty(),
                )
            } else {
                report("Replace cancelled"@, false)
            },
            Reply::Input(None) => report("Replace cancelled"@, false),
            _ => unchanged,
        },
        Pending::ReplaceWith(term) => match reply {
            Reply::Input(Some(rep)) => new == App { pending: Pending::ReplaceConfirm(term, rep), ..old }
                && asks(req, "Replace all? (y/n): "@, Seq::empty()),
            Reply::Input(None) => report("Replace cancelled"@, false),
            _ => unchanged,
        },
        Pending::ReplaceConfirm(term, rep) => match reply {
            Reply::Input(Some(c)) => {
                let a = answer(c@);
                if a.len() > 0 && a[0] == 'y' {
                    if replace_fits(ed, term@, rep@) {
                        new.same_but_active(&idle) && replaced(ed, new.active(), term, rep) && settled(
                            new.active(),
                            req,
                        )
                    } else {
                        new == idle && req == Request::Fault(Fault::Overflow)
                    }
                } else {
                    new.same_but_active(&idle) && went_to_next(ed, new.active(), term) && settled(
                        new.active(),
                        req,
                    )
                }
            },
            Reply::Input(None) => report("Replace cancelled"@, false),
            _ => unchanged,
        },
        Pending::GotoLine => match reply {
            Reply::Input(Some(s)) => match parse_usize_spec(trim(s@)) {
                Some(n) => if n == 0 {
                    report("Invalid line number"@, true)
                } else if n > old.editors@[t].lines@.len() {
                    report("Line "@ + decimal(n) + " out of range"@, true)
                } else {
                    &&& new.same_but_active(&idle)
                    &&& Editor::goto_line_post(
                        &ed,
                        &Editor {
                            status_msg: ed.status_msg,
                            status_error: ed.status_error,
                            ..new.active()
                        },
                        (n - 1) as usize,
                    )
                    &&& new.active().status_msg@ == "Jumped to line "@ + decimal(n)
                    &&& !new.active().status_error
                    &&& req is Nothing
                },
                None => report("Invalid line number"@, true),
            },
            _ => unchanged,
        },
        Pending::OpenName => match reply {
            Reply::Input(Some(f)) => if f@.len() > 0 {
                new == App { pending: Pending::Opening(f), ..old } && req == Request::Open { path: f }
            } else {
                unchanged
            },
            _ => unchanged,
        },
        Pending::Opening(path) => match reply {
            Reply::Opened(r) => if pristine(ed) {
                new.same_but_active(&idle) && opened_buffer(new.active(), path, r) && req is Nothing
            } else {
                &&& new.editors@.len() == old.editors@.len() + 1
                &&& new.editors@.drop_last() == old.editors@
                &&& opened_buffer(new.editors@.last(), path, r)
                &&& new == App {
                    editors: new.editors,
                    active_tab: old.editors@.len() as usize,
                    ..idle
                }
                &&& req is Nothing
            },
            _ => unchanged,
        },
    }
}

/// The answer `c` trimmed and in lower case.
fn answer_of(c: &str) -> (a: String)
    ensures
        a@ == answer(c@),
{
    let t = trim_str(c);
    to_lowercase(t.as_str())
}

/// Whether the answer says yes.
fn says_yes(a: &str) -> (b: bool)
    ensures
        b == is_yes(a@),
{
    str_eq(a, "y") || str_eq(a, "yes")
}

/// Whether the answer says no.
fn says_no(a: &str) -> (b: bool)
    ensures
        b == is_no(a@),
{
    str_eq(a, "n") || str_eq(a, "no")
}

/// The buffer for the file `path` (see [`opened_buffer`]).
pub fn open_buffer(path: String, read: Option<Result<Vec<u8>, String>>) -> (ed: Editor)
    ensures
        opened_buffer(ed, path, read),
        cursor_valid(ed.state()),
{
    match read {
        None => Editor::new(Some(path)),
        Some(r) => Editor::open(path, r),
    }
}

/// Whether `ed` has no name, no change, and one empty line.
fn is_pristine(ed: &Editor) -> (b: bool)
    ensures
        b == pristine(*ed),
{
    let r = ed.filename.is_none() && !ed.modified && ed.lines.len() == 1 && ed.lines[0].as_str().is_empty();
    proof {
        assert(ed.doc().len() == ed.lines@.len());
        if ed.lines@.len() == 1 {
            assert(ed.doc()[0] == ed.lines@[0]@);
            if ed.lines@[0]@.len() == 0 {
                assert(ed.doc()[0] =~= Seq::<char>::empty());
                assert(ed.doc() =~= seq![Seq::<char>::empty()]);
            }
        }
    }
    r
}

/// The number of replacements of `term` by `rep` in the text of `ed`, if it fits in `usize`.
fn replacement_count(ed: &Editor, term: &str, rep: &str) -> (r: Option<usize>)
    ensures
        r matches Some(n) ==> n == replace_count(ed.doc(), term@, rep@, ed.doc().len() as int),
        r is None <==> !replace_fits(*ed, term@, rep@),
{
    let tv = chars_of(term);
    let rv = chars_of(rep);
    let ghost doc = ed.doc();
    if tv.len() == 0 {
        proof {
            assert forall|j: int| 0 <= j <= doc.len() implies replace_count(doc, term@, rep@, j) == 0 by {
                lemma_replace_count_empty_term(doc, term@, rep@, j);
            }
        }
        return Some(0);
    }
    let mut total: usize = 0;
    let mut i: usize = 0;
    while i < ed.lines.len()
        invariant
            doc == ed.doc(),
            tv@ == term@,
            rv@ == rep@,
            tv@.len() > 0,
            i <= ed.lines@.len(),
            total == replace_count(doc, term@, rep@, i as int),
        decreases ed.lines@.len() - i,
    {
        let (_, k) = replace_in_line(ed.lines[i].as_str(), &tv, &rv);
        assert(doc[i as int] == ed.lines@[i as int]@);
        if total > usize::MAX - k {
            proof {
                lemma_replace_count_mono(doc, term@, rep@, i + 1, doc.len() as int);
            }
            return None;
        }
        total = total + k;
        i = i + 1;
    }
    Some(total)
}

/// With an empty term nothing is replaced.
proof fn lemma_replace_count_empty_term(doc: Seq<Seq<char>>, term: Seq<char>, rep: Seq<char>, j: int)
    requires
        term.len() == 0,
    ensures
        replace_count(doc, term, rep, j) == 0,
    decreases j,
{
    if j > 0 {
        lemma_replace_count_empty_term(doc, term, rep, j - 1);
    }
}

impl App {
    /// Requests the save of the active buffer, then `then` (see [`save_request`]).
    fn request_save(&mut self, then: AfterSave) -> (req: Request)
        requires
            old(self).active_tab < old(self).editors@.len(),
        ensures
            save_request(old(self).active(), final(self).pending, then, req),
            *final(self) == (App { pending: final(self).pending, ..*old(self) }),
    {
        let t = self.active_tab;
        match &self.editors[t].filename {
            Some(f) => {
                let bytes = self.editors[t].file_bytes();
                let path = f.clone();
                self.pending = Pending::Writing(f.clone(), then);
                Request::Write { path, bytes }
            },
            None => {
                self.pending = Pending::SaveName(then);
                prompt("Save as: ", String::new())
            },
        }
    }

    /// Goes on quitting with `tabs[k..]` still to save (see [`quit_step`]).
    fn continue_quit(&mut self, tabs: Vec<usize>, k: usize) -> (req: Request)
        requires
            old(self).inv(),
            old(self).pending is Idle,
            indices_below(tabs@, old(self).editors@.len() as int),
            k <= tabs@.len(),
        ensures
            quit_step(*old(self), *final(self), tabs, k, req),
            final(self).inv(),
    {
        if k >= tabs.len() {
            self.running = false;
            return Request::Nothing;
        }
        let i = tabs[k];
        self.active_tab = i;
        let ghost tabs_v = tabs@;
        let req = self.request_save(AfterSave::Quit(tabs, k + 1));
        assert(indices_below(tabs_v, self.editors@.len() as int));
        req
    }

    /// Sets the status of the active buffer.
    fn report(&mut self, msg: String, error: bool)
        requires
            old(self).inv(),
            old(self).editors@.len() > 0,
        ensures
            final(self).same_but_active(old(self)),
            status_set(old(self).active(), final(self).active(), msg@, error),
            final(self).inv(),
    {
        let ghost old_app = *self;
        let t = self.active_tab;
        let mut ed = self.take_active();
        ed.set_status(msg, error);
        self.put_active(ed);
        proof {
            assert forall|i: int|
                0 <= i < self.editors@.len() && i != self.active_tab implies #[trigger] self.editors@[i]
                == old_app.editors@[i] by {}
            assert forall|i: int| 0 <= i < self.editors@.len() implies #[trigger] cursor_valid(
                self.editors@[i].state(),
            ) by {
                if i != t {
                    assert(self.editors@[i] == old_app.editors@[i]);
                }
            }
        }
    }
}

impl App {
    /// Takes the reply to the outside work that the session waits for, and goes on.
    pub fn resume(&mut self, reply: Reply) -> (req: Request)
        requires
            old(self).inv(),
            old(self).running,
        ensures
            resume_post(*old(self), *final(self), reply, req),
            !(req is Fault) ==> final(self).inv(),
    {
        let mut p = Pending::Idle;
        std::mem::swap(&mut p, &mut self.pending);
        match p {
            Pending::Idle => Request::Nothing,
            Pending::SaveName(then) => self.got_save_name(then, reply),
            Pending::Writing(path, then) => self.got_written(path, then, reply),
            Pending::QuitChoice(tabs) => self.got_quit_choice(tabs, reply),
            Pending::CloseChoice => self.got_close_choice(reply),
            Pending::SearchTerm => self.got_search_term(reply),
            Pending::ReplaceTerm => self.got_replace_term(reply),
            Pending::ReplaceWith(term) => self.got_replacement(term, reply),
            Pending::ReplaceConfirm(term, rep) => self.got_replace_choice(term, rep, reply),
            Pending::GotoLine => self.got_line_number(reply),
            Pending::OpenName => self.got_open_name(reply),
            Pending::Opening(path) => self.got_opened(path, reply),
        }
    }

    fn got_save_name(&mut self, then: AfterSave, reply: Reply) -> (req: Request)
        requires
            old(self).inv(),
            old(self).running,
            old(self).pending is Idle,
            (App { pending: Pending::SaveName(then), ..*old(self) }).pending_ok(),
        ensures
            resume_post(App { pending: Pending::SaveName(then), ..*old(self) }, *final(self), reply, req),
            final(self).inv(),
    {
        let stay = matches!(then, AfterSave::Stay);
        match reply {
            Reply::Input(Some(f)) => {
                if !f.as_str().is_empty() {
                    let t = self.active_tab;
                    let bytes = self.editors[t].file_bytes();
                    let path = f.clone();
                    self.pending = Pending::Writing(f, then);
                    return Request::Write { path, bytes };
                }
            },
            Reply::Input(None) => {},
            _ => {
                return Request::Nothing;
            },
        }
        if stay {
            self.report(String::from_str("Save cancelled"), false);
        }
        Request::Nothing
    }

    fn got_written(&mut self, path: String, then: AfterSave, reply: Reply) -> (req: Request)
        requires
            old(self).inv(),
            old(self).running,
            old(self).pending is Idle,
            (App { pending: Pending::Writing(path, then), ..*old(self) }).pending_ok(),
        ensures
            resume_post(App { pending: Pending::Writing(path, then), ..*old(self) }, *final(self), reply, req),
            final(self).inv(),
    {
        match reply {
            Reply::Written(w) => {
                let ghost old_app = *self;
                let t = self.active_tab;
                assert(cursor_valid(old_app.editors@[t as int].state()));
                let mut ed = self.take_active();
                let ok = ed.save_file(path.as_str(), w);
                self.put_active(ed);
                proof {
                    assert forall|i: int|
                        0 <= i < old_app.editors@.len() && i != t implies #[trigger] self.editors@[i]
                        == old_app.editors@[i] by {}
                    assert forall|i: int| 0 <= i < self.editors@.len() implies #[trigger] cursor_valid(
                        self.editors@[i].state(),
                    ) by {
                        if i != t {
                            assert(self.editors@[i] == old_app.editors@[i]);
                        }
                    }
                }
                match then {
                    AfterSave::Stay => Request::Nothing,
                    AfterSave::Close => {
                        if ok {
                            let ghost mid = *self;
                            self.close_active();
                            assert(mid.editors@.remove(t as int) =~= old_app.editors@.remove(t as int));
                            proof {
                                assert forall|i: int| 0 <= i < self.editors@.len() implies #[trigger] cursor_valid(
                                    self.editors@[i].state(),
                                ) by {
                                    if i < t {
                                        assert(self.editors@[i] == mid.editors@[i]);
                                    } else {
                                        assert(self.editors@[i] == mid.editors@[i + 1]);
                                    }
                                }
                            }
                        }
                        Request::Nothing
                    },
                    AfterSave::Quit(tabs, k) => {
                        if ok {
                            self.continue_quit(tabs, k)
                        } else {
                            Request::Nothing
                        }
                    },
                }
            },
            _ => Request::Nothing,
        }
    }

    fn got_quit_choice(&mut self, tabs: Vec<usize>, reply: Reply) -> (req: Request)
        requires
            old(self).inv(),
            old(self).running,
            old(self).pending is Idle,
            (App { pending: Pending::QuitChoice(tabs), ..*old(self) }).pending_ok(),
        ensures
            resume_post(App { pending: Pending::QuitChoice(tabs), ..*old(self) }, *final(self), reply, req),
            final(self).inv(),
    {
        match reply {
            Reply::Input(Some(c)) => {
                let a = answer_of(c.as_str());
                if says_yes(a.as_str()) {
                    self.continue_quit(tabs, 0)
                } else if says_no(a.as_str()) {
                    self.running = false;
                    Request::Nothing
                } else {
                    Request::Nothing
                }
            },
            _ => Request::Nothing,
        }
    }

    fn got_close_choice(&mut self, reply: Reply) -> (req: Request)
        requires
            old(self).inv(),
            old(self).running,
            old(self).pending is Idle,
        ensures
            resume_post(App { pending: Pending::CloseChoice, ..*old(self) }, *final(self), reply, req),
            final(self).inv(),
    {
        match reply {
            Reply::Input(Some(c)) => {
                let a = answer_of(c.as_str());
                if says_yes(a.as_str()) {
                    self.request_save(AfterSave::Close)
                } else if says_no(a.as_str()) {
                    let ghost old_app = *self;
                    let t = self.active_tab;
                    self.close_active();
                    proof {
                        assert forall|i: int| 0 <= i < self.editors@.len() implies #[trigger] cursor_valid(
                            self.editors@[i].state(),
                        ) by {
                            if i < t {
                                assert(self.editors@[i] == old_app.editors@[i]);
                            } else {
                                assert(self.editors@[i] == old_app.editors@[i + 1]);
                            }
                        }
                    }
                    Request::Nothing
                } else {
                    Request::Nothing
                }
            },
            _ => Request::Nothing,
        }
    }

    fn got_search_term(&mut self, reply: Reply) -> (req: Request)
        requires
            old(self).inv(),
            old(self).running,
            old(self).pending is Idle,
        ensures
            resume_post(App { pending: Pending::SearchTerm, ..*old(self) }, *final(self), reply, req),
            !(req is Fault) ==> final(self).inv(),
    {
        match reply {
            Reply::Input(Some(term)) => {
                let ghost old_app = *self;
                let t = self.active_tab;
                assert(cursor_valid(old_app.editors@[t as int].state()));
                let mut ed = self.take_active();
                let ghost e0 = ed;
                if term.as_str().is_empty() {
                    ed.search_term = String::new();
                    ed.search_matches = Vec::new();
                    ed.set_status(String::from_str("Search cleared"), false);
                } else {
                    let ghost t0 = term;
                    ed.search_term = term;
                    let ghost e00 = ed;
                    assert(e00 == Editor { search_term: t0, ..e0 });
                    ed.build_search_matches();
                    let ghost e1 = ed;
                    let ghost mut hit = false;
                    if ed.search_matches.len() == 0 {
                        report_not_found(&mut ed);
                    } else {
                        let h = ed.search_next();
                        proof {
                            hit = h;
                        }
                    }
                    assert(Editor::build_search_matches_post(&Editor { search_term: t0, ..e0 }, &e1));
                    assert(e1.search_matches@.len() > 0 ==> Editor::search_next_post(&e1, &ed, hit));
                    assert(looked_up_via(e0, e1, ed, t0, hit));
                }
                let ok = cursor_in_text(&ed);
                self.put_active(ed);
                proof {
                    assert forall|i: int|
                        0 <= i < self.editors@.len() && i != self.active_tab implies #[trigger] self.editors@[i]
                        == old_app.editors@[i] by {}
                    if ok {
                        assert forall|i: int| 0 <= i < self.editors@.len() implies #[trigger] cursor_valid(
                            self.editors@[i].state(),
                        ) by {
                            if i != t {
                                assert(self.editors@[i] == old_app.editors@[i]);
                            }
                        }
                    }
                }
                if ok {
                    Request::Nothing
                } else {
                    Request::Fault(Fault::CursorOffText)
                }
            },
            Reply::Input(None) => {
                self.report(String::from_str("Search cancelled"), false);
                Request::Nothing
            },
            _ => Request::Nothing,
        }
    }

    fn got_replace_term(&mut self, reply: Reply) -> (req: Request)
        requires
            old(self).inv(),
            old(self).running,
            old(self).pending is Idle,
        ensures
            resume_post(App { pending: Pending::ReplaceTerm, ..*old(self) }, *final(self), reply, req),
            final(self).inv(),
    {
        match reply {
            Reply::Input(Some(term)) => {
                if !term.as_str().is_empty() {
                    self.pending = Pending::ReplaceWith(term);
                    return prompt("Replace with: ", String::new());
                }
            },
            Reply::Input(None) => {},
            _ => {
                return Request::Nothing;
            },
        }
        self.report(String::from_str("Replace cancelled"), false);
        Request::Nothing
    }

    fn got_replacement(&mut self, term: String, reply: Reply) -> (req: Request)
        requires
            old(self).inv(),
            old(self).running,
            old(self).pending is Idle,
        ensures
            resume_post(App { pending: Pending::ReplaceWith(term), ..*old(self) }, *final(self), reply, req),
            final(self).inv(),
    {
        match reply {
            Reply::Input(Some(rep)) => {
                self.pending = Pending::ReplaceConfirm(term, rep);
                prompt("Replace all? (y/n): ", String::new())
            },
            Reply::Input(None) => {
                self.report(String::from_str("Replace cancelled"), false);
                Request::Nothing
            },
            _ => Request::Nothing,
        }
    }

    fn got_replace_choice(&mut self, term: String, rep: String, reply: Reply) -> (req: Request)
        requires
            old(self).inv(),
            old(self).running,
            old(self).pending is Idle,
        ensures
            resume_post(
                App { pending: Pending::ReplaceConfirm(term, rep), ..*old(self) },
                *final(self),
                reply,
                req,
            ),
            !(req is Fault) ==> final(self).inv(),
    {
        match reply {
            Reply::Input(Some(c)) => {
                let a = answer_of(c.as_str());
                let av = chars_of(a.as_str());
                let yes = av.len() > 0 && av[0] == 'y';
                let t = self.active_tab;
                if yes {
                    if replacement_count(&self.editors[t], term.as_str(), rep.as_str()).is_none() {
                        return Request::Fault(Fault::Overflow);
                    }
                }
                let ghost old_app = *self;
                let mut ed = self.take_active();
                let ghost e0 = ed;
                let ghost t0 = term;
                if yes {
                    ed.search_term = term.clone();
                    let ghost e00 = ed;
                    assert(e00 == Editor { search_term: t0, ..e0 });
                    let count = ed.replace_all(term.as_str(), rep.as_str());
                    let ghost e1 = ed;
                    ed.search_matches = Vec::new();
                    assert(Editor::replace_all_post(&Editor { search_term: t0, ..e0 }, &e1, term@, rep@, count));
                    assert(ed == Editor { search_matches: ed.search_matches, ..e1 });
                } else {
                    ed.search_term = term;
                    let ghost e00 = ed;
                    assert(e00 == Editor { search_term: t0, ..e0 });
                    ed.build_search_matches();
                    let ghost e1 = ed;
                    let hit = ed.search_next();
                    assert(Editor::build_search_matches_post(&Editor { search_term: t0, ..e0 }, &e1));
                    assert(Editor::search_next_post(&e1, &ed, hit));
                }
                let ok = cursor_in_text(&ed);
                self.put_active(ed);
                proof {
                    assert forall|i: int|
                        0 <= i < self.editors@.len() && i != self.active_tab implies #[trigger] self.editors@[i]
                        == old_app.editors@[i] by {}
                    if ok {
                        assert forall|i: int| 0 <= i < self.editors@.len() implies #[trigger] cursor_valid(
                            self.editors@[i].state(),
                        ) by {
                            if i != t {
                                assert(self.editors@[i] == old_app.editors@[i]);
                            }
                        }
                    }
                }
                if ok {
                    Request::Nothing
                } else {
                    Request::Fault(Fault::CursorOffText)
                }
            },
            Reply::Input(None) => {
                self.report(String::from_str("Replace cancelled"), false);
                Request::Nothing
            },
            _ => Request::Nothing,
        }
    }

    fn got_line_number(&mut self, reply: Reply) -> (req: Request)
        requires
            old(self).inv(),
            old(self).running,
            old(self).pending is Idle,
        ensures
            resume_post(App { pending: Pending::GotoLine, ..*old(self) }, *final(self), reply, req),
            final(self).inv(),
    {
        match reply {
            Reply::Input(Some(s)) => {
                let ts = trim_str(s.as_str());
                let t = self.active_tab;
                match parse_usize(ts.as_str()) {
                    Some(n) => {
                        if n == 0 {
                            self.report(String::from_str("Invalid line number"), true);
                        } else if n - 1 >= self.editors[t].lines.len() {
                            let mut msg = String::from_str("Line ");
                            push_decimal(&mut msg, n);
                            push_all(&mut msg, " out of range");
                            self.report(msg, true);
                        } else {
                            let ghost old_app = *self;
                            let mut msg = String::from_str("Jumped to line ");
                            push_decimal(&mut msg, n);
                            let mut ed = self.take_active();
                            ed.goto_line(n - 1);
                            let ghost e1 = ed;
                            ed.set_status(msg, false);
                            assert(e1 == Editor { status_msg: e1.status_msg, status_error: e1.status_error, ..ed });
                            self.put_active(ed);
                            proof {
                                assert forall|i: int|
                                    0 <= i < self.editors@.len() && i != self.active_tab implies #[trigger] self.editors@[i]
                                    == old_app.editors@[i] by {}
                                assert forall|i: int| 0 <= i < self.editors@.len() implies #[trigger] cursor_valid(
                                    self.editors@[i].state(),
                                ) by {
                                    if i != t {
                                        assert(self.editors@[i] == old_app.editors@[i]);
                                    }
                                }
                            }
                        }
                    },
                    None => {
                        self.report(String::from_str("Invalid line number"), true);
                    },
                }
                Request::Nothing
            },
            _ => Request::Nothing,
        }
    }

    fn got_open_name(&mut self, reply: Reply) -> (req: Request)
        requires
            old(self).inv(),
            old(self).running,
            old(self).pending is Idle,
        ensures
            resume_post(App { pending: Pending::OpenName, ..*old(self) }, *final(self), reply, req),
            final(self).inv(),
    {
        match reply {
            Reply::Input(Some(f)) => {
                if !f.as_str().is_empty() {
                    self.pending = Pending::Opening(f.clone());
                    return Request::Open { path: f };
                }
                Request::Nothing
            },
            _ => Request::Nothing,
        }
    }

    fn got_opened(&mut self, path: String, reply: Reply) -> (req: Request)
        requires
            old(self).inv(),
            old(self).running,
            old(self).pending is Idle,
        ensures
            resume_post(App { pending: Pending::Opening(path), ..*old(self) }, *final(self), reply, req),
            final(self).inv(),
    {
        match reply {
            Reply::Opened(r) => {
                let ghost old_app = *self;
                let t = self.active_tab;
                let n = self.editors.len();
                let ed = open_buffer(path, r);
                if is_pristine(&self.editors[t]) {
                    self.put_active(ed);
                    proof {
                        assert forall|i: int|
                            0 <= i < self.editors@.len() && i != self.active_tab implies #[trigger] self.editors@[i]
                            == old_app.editors@[i] by {}
                        assert forall|i: int| 0 <= i < self.editors@.len() implies #[trigger] cursor_valid(
                            self.editors@[i].state(),
                        ) by {
                            if i != t {
                                assert(self.editors@[i] == old_app.editors@[i]);
                            }
                        }
                    }
                } else {
                    self.editors.push(ed);
                    self.active_tab = n;
                    assert(self.editors@.drop_last() =~= old_app.editors@);
                    proof {
                        assert forall|i: int| 0 <= i < self.editors@.len() implies #[trigger] cursor_valid(
                            self.editors@[i].state(),
                        ) by {
                            if i < n {
                                assert(self.editors@[i] == old_app.editors@[i]);
                            }
                        }
                    }
                }
                Request::Nothing
            },
            _ => Request::Nothing,
        }
    }
}

/// Scrolling `ed` for a text area of `th` rows and `tw` columns stays within `usize`.
pub open spec fn scroll_fits(ed: Editor, th: usize, tw: usize) -> bool {
    let c = cursor_index(ed.state());
    &&& ed.cursor_row >= ed.scroll_row && th > 0 ==> ed.scroll_row + th <= usize::MAX
        && ed.cursor_row + 1 <= usize::MAX
    &&& c >= ed.scroll_col && tw > 0 ==> ed.scroll_col + tw <= usize::MAX && c + 1 <= usize::MAX
}

/// Columns of text on a terminal `w` wide next to the gutter of `ed` under `config`.
pub open spec fn text_width(ed: Editor, config: Config, w: usize) -> usize {
    let g = gutter_width(ed.lines@.len(), config.line_numbers);
    if w >= g {
        (w - g) as usize
    } else {
        0
    }
}

impl App {
    /// A session over the given files, each with what reading it gave (`None`
    /// when there is no such file); with no file, one empty buffer.
    pub fn start(
        files: Vec<(String, Option<Result<Vec<u8>, String>>)>,
        config: Config,
        kb: KeyBindings,
        term_w: usize,
        term_h: usize,
    ) -> (app: App)
        ensures
            app.inv(),
            app.running,
            app.pending is Idle,
            app.active_tab == 0,
            app.config == config,
            app.kb == kb,
            app.term_w == term_w,
            app.term_h == term_h,
            files@.len() == 0 ==> app.editors@.len() == 1 && Editor::new_post(&app.editors@[0], None),
            files@.len() > 0 ==> app.editors@.len() == files@.len() && forall|i: int|
                0 <= i < files@.len() ==> opened_buffer(
                    #[trigger] app.editors@[i],
                    files@[i].0,
                    files@[i].1,
                ),
    {
        let mut editors: Vec<Editor> = Vec::new();
        let ghost fs = files@;
        let mut files = files;
        while files.len() > 0
            invariant
                files@ == fs.skip(editors@.len() as int),
                editors@.len() <= fs.len(),
                forall|i: int|
                    0 <= i < editors@.len() ==> opened_buffer(#[trigger] editors@[i], fs[i].0, fs[i].1),
                forall|i: int| 0 <= i < editors@.len() ==> #[trigger] cursor_valid(editors@[i].state()),
            decreases files.len(),
        {
            let ghost k = editors@.len() as int;
            let (path, read) = files.remove(0);
            assert(fs[k] == (path, read));
            editors.push(open_buffer(path, read));
            assert(files@ =~= fs.skip(k + 1));
        }
        if editors.len() == 0 {
            editors.push(Editor::new(None));
        }
        App {
            editors,
            active_tab: 0,
            config,
            kb,
            running: true,
            term_h,
            term_w,
            pending: Pending::Idle,
        }
    }
}

impl App {
    /// Takes the terminal size and scrolls the active buffer so that its cursor
    /// is in view.  Fails, changing nothing but the size, when scrolling would
    /// go beyond the range of `usize`.
    pub fn prepare_frame(&mut self, w: usize, h: usize) -> (r: Result<(), Fault>)
        requires
            old(self).inv(),
            old(self).running,
        ensures
            ({
                let sized = App { term_w: w, term_h: h, ..*old(self) };
                let th = text_height(h);
                let tw = text_width(old(self).active(), old(self).config, w);
                &&& r is Ok <==> scroll_fits(old(self).active(), th, tw)
                &&& r is Ok ==> final(self).same_but_active(&sized) && Editor::update_scroll_post(
                    &old(self).active(),
                    &final(self).active(),
                    th,
                    tw,
                )
                &&& r is Err ==> *final(self) == sized && r == Err::<(), Fault>(Fault::Overflow)
            }),
            final(self).inv(),
    {
        self.term_w = w;
        self.term_h = h;
        let t = self.active_tab;
        let th = self.text_height();
        let lnw = line_number_width(&self.editors[t], &self.config);
        let tw = if w >= lnw {
            w - lnw
        } else {
            0
        };
        let ghost old_app = *self;
        assert(cursor_valid(old_app.editors@[t as int].state()));
        let ed = &self.editors[t];
        let c = ed.cursor_char_col();
        let rows_fit = !(ed.cursor_row >= ed.scroll_row && th > 0) || (ed.scroll_row <= usize::MAX - th
            && ed.cursor_row < usize::MAX);
        let cols_fit = !(c >= ed.scroll_col && tw > 0) || (ed.scroll_col <= usize::MAX - tw && c
            < usize::MAX);
        if !(rows_fit && cols_fit) {
            return Err(Fault::Overflow);
        }
        let mut ed = self.take_active();
        ed.update_scroll(th, tw);
        self.put_active(ed);
        proof {
            assert forall|i: int|
                0 <= i < self.editors@.len() && i != self.active_tab implies #[trigger] self.editors@[i]
                == old_app.editors@[i] by {}
            assert forall|i: int| 0 <= i < self.editors@.len() implies #[trigger] cursor_valid(
                self.editors@[i].state(),
            ) by {
                if i != t {
                    assert(self.editors@[i] == old_app.editors@[i]);
                }
            }
        }
        Ok(())
    }
}

/// Every action's first key is short enough for the help line widths to fit in `usize`.
pub open spec fn keys_fit_spec(kb: Map<Action, Seq<Seq<char>>>) -> bool {
    forall|a: Action| #[trigger] first_key_of(kb, a).len() + 8 <= usize::MAX
}

/// Drawing the session would go beyond the range of `usize`: the last text
/// row, the gutter and text widths, the cursor's column, or a key's width.
pub open spec fn render_overflows(app: App) -> bool {
    let ed = app.active();
    let th = app.term_h - 4;
    let lnw = gutter_width(ed.lines@.len(), app.config.line_numbers);
    let tw = text_width(ed, app.config, app.term_w);
    ||| ed.scroll_row + th > usize::MAX
    ||| lnw + tw > usize::MAX
    ||| cursor_index(ed.state()) == usize::MAX
    ||| !keys_fit_spec(app.kb@)
}

/// Everything the screen shows for one frame.
pub struct Frame {
    pub tabs: TabBar,
    pub rows: Vec<TextRow>,
    pub gutter_width: usize,
    pub status: StatusLine,
    /// The row of the status line.
    pub status_row: usize,
    pub help: (Vec<HelpEntry>, Vec<HelpEntry>),
    pub cursor: Option<(usize, usize)>,
}

impl App {
    /// What the screen shows for the session, on a terminal `term_w` wide and
    /// `term_h` high: nothing on a terminal under 5 rows or 10 columns; else
    /// the tab bar, the text area of the active buffer below it, the status
    /// line and the two help lines at the bottom, and the cursor.
    pub fn render(&self) -> (r: Result<Option<Frame>, Fault>)
        requires
            self.inv(),
            self.running,
        ensures
            ({
                let (w, h) = (self.term_w, self.term_h);
                let ed = self.active();
                let lnw = gutter_width(ed.lines@.len(), self.config.line_numbers);
                let th = (h - 4) as usize;
                let tw = text_width(ed, self.config, w);
                let widths = Seq::new(7, |i: int| help_col_width(self.kb@, i) as usize);
                if h < 5 || w < 10 {
                    r == Ok::<Option<Frame>, Fault>(None)
                } else if render_overflows(*self) {
                    r == Err::<Option<Frame>, Fault>(Fault::Overflow)
                } else if !draw_ok(ed, ed.scroll_row, last_visible(ed, th)) {
                    r == Err::<Option<Frame>, Fault>(Fault::Undrawable)
                } else {
                    r matches Ok(Some(f)) && {
                        &&& f.tabs.pieces@.map_values(|p: TabPiece| tab_piece_view(p)) == tab_bar_from(
                            self.editors@.map_values(|e: Editor| tab_text(e)),
                            w as nat,
                            0,
                            0,
                        ).0
                        &&& tab_styles_ok(f.tabs.pieces@, self.editors@, self.active_tab)
                        &&& f.tabs.brand == (w > tab_bar_from(
                            self.editors@.map_values(|e: Editor| tab_text(e)),
                            w as nat,
                            0,
                            0,
                        ).1 + 10)
                        &&& f.rows@.map_values(|r: TextRow| text_row_view(r)) == Seq::new(
                            th as nat,
                            |i: int| text_row_spec(ed, ed.scroll_row, last_visible(ed, th), i, tw, lnw as usize, w),
                        )
                        &&& f.gutter_width == lnw
                        &&& (f.status.text@, f.status.message@, f.status.error) == status_line_spec(ed, w)
                        &&& f.status_row == h - 3
                        &&& f.help.0@.map_values(|e: HelpEntry| help_entry_view(e)) == help_row_from(
                            help_row1(),
                            self.kb@,
                            w as nat,
                            widths,
                            0,
                            0,
                        )
                        &&& f.help.1@.map_values(|e: HelpEntry| help_entry_view(e)) == help_row_from(
                            help_row2(),
                            self.kb@,
                            w as nat,
                            widths,
                            0,
                            0,
                        )
                        &&& f.cursor == cursor_place_spec(ed, lnw as usize, w, h)
                    }
                }
            }),
    {
        let w = self.term_w;
        let h = self.term_h;
        if h < 5 || w < 10 {
            return Ok(None);
        }
        let t = self.active_tab;
        let ed = &self.editors[t];
        assert(cursor_valid(self.editors@[t as int].state()));
        let th = h - 4;
        let lnw = line_number_width(ed, &self.config);
        let tw = if w >= lnw {
            w - lnw
        } else {
            0
        };
        let ch = ed.cursor_char_col();
        if ed.scroll_row > usize::MAX - th || lnw > usize::MAX - tw || ch == usize::MAX || !self.keys_fit() {
            return Err(Fault::Overflow);
        }
        if !can_draw(ed, th) {
            return Err(Fault::Undrawable);
        }
        let tabs = draw_tab_bar(&self.editors, self.active_tab, w);
        let rows = draw_text_area(ed, th, tw, lnw, w);
        let status = draw_status_bar(ed, w);
        let help = draw_help_bar(&self.kb, w);
        let cursor = cursor_place(ed, lnw, w, h);
        Ok(Some(Frame { tabs, rows, gutter_width: lnw, status, status_row: h - 3, help, cursor }))
    }

    /// Every first key name is short enough for the help line widths to fit in `usize`.
    fn keys_fit(&self) -> (b: bool)
        ensures
            b == keys_fit_spec(self.kb@),
    {
        let es = self.kb.bindings.entries();
        proof {
            crate::config::lemma_entries_map(es@);
        }
        let mut i: usize = 0;
        while i < es.len()
            invariant
                i <= es@.len(),
                crate::config::entries_map(es@) == self.kb@,
                crate::config::unique_actions(es@),
                forall|x: int| 0 <= x < i ==> #[trigger] first_key_of(self.kb@, es@[x].0).len() + 8 <= usize::MAX,
            decreases es@.len() - i,
        {
            let keys = &es[i].1;
            if keys.len() > 0 {
                let n = crate::text::chars_of(keys[0].as_str()).len();
                if n > usize::MAX - 8 {
                    proof {
                        crate::config::lemma_entries_map(es@);
                        assert(self.kb@[es@[i as int].0] == crate::config::keys_view(keys@));
                        assert(first_key_of(self.kb@, es@[i as int].0).len() + 8 > usize::MAX);
                    }
                    return false;
                }
                proof {
                    crate::config::lemma_entries_map(es@);
                    assert(self.kb@[es@[i as int].0] == crate::config::keys_view(keys@));
                }
            } else {
                proof {
                    crate::config::lemma_entries_map(es@);
                    assert(self.kb@[es@[i as int].0] == crate::config::keys_view(keys@));
                }
            }
            i = i + 1;
        }
        proof {
            crate::config::lemma_entries_map(es@);
            assert forall|a: Action| #[trigger] first_key_of(self.kb@, a).len() + 8 <= usize::MAX by {
                if self.kb@.contains_key(a) {
                    let x = choose|x: int| 0 <= x < es@.len() && es@[x].0 == a;
                    assert(first_key_of(self.kb@, es@[x].0).len() + 8 <= usize::MAX);
                }
            }
        }
        true
    }
}

} // verus!
