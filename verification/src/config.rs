//! Editor actions, their names, the default key bindings and the settings.
use crate::encoding::str_eq;
use vstd::prelude::*;

verus! {

/// All named editor actions.
#[derive(Debug, Clone, Copy, PartialEq, Eq, Hash, Structural)]
pub enum Action {
    Quit,
    Save,
    SaveAs,
    Help,
    CutLine,
    CopyLine,
    Paste,
    SelectAll,
    Search,
    SearchNext,
    SearchPrev,
    Replace,
    GotoLine,
    PageUp,
    PageDown,
    FileTop,
    FileBottom,
    Undo,
    Redo,
    NextWord,
    PrevWord,
    DeleteWord,
    DeleteToEol,
    ToggleLineNumbers,
    ToggleWordWrap,
    ToggleAutoIndent,
    OpenFile,
    NextTab,
    PrevTab,
    CloseTab,
    NewTab,
}

/// The name of an action as written in the key-binding file.
pub open spec fn action_name(a: Action) -> Seq<char> {
    match a {
        Action::Quit => "quit"@,
        Action::Save => "save"@,
        Action::SaveAs => "save_as"@,
        Action::Help => "help"@,
        Action::CutLine => "cut_line"@,
        Action::CopyLine => "copy_line"@,
        Action::Paste => "paste"@,
        Action::SelectAll => "select_all"@,
        Action::Search => "search"@,
        Action::SearchNext => "search_next"@,
        Action::SearchPrev => "search_prev"@,
        Action::Replace => "replace"@,
        Action::GotoLine => "goto_line"@,
        Action::PageUp => "page_up"@,
        Action::PageDown => "page_down"@,
        Action::FileTop => "file_top"@,
        Action::FileBottom => "file_bottom"@,
        Action::Undo => "undo"@,
        Action::Redo => "redo"@,
        Action::NextWord => "next_word"@,
        Action::PrevWord => "prev_word"@,
        Action::DeleteWord => "delete_word"@,
        Action::DeleteToEol => "delete_to_eol"@,
        Action::ToggleLineNumbers => "toggle_line_numbers"@,
        Action::ToggleWordWrap => "toggle_word_wrap"@,
        Action::ToggleAutoIndent => "toggle_auto_indent"@,
        Action::OpenFile => "open_file"@,
        Action::NextTab => "next_tab"@,
        Action::PrevTab => "prev_tab"@,
        Action::CloseTab => "close_tab"@,
        Action::NewTab => "new_tab"@,
    }
}

/// The number of actions.
pub const ACTION_COUNT: usize = 31;

/// An action's place in the declaration order of [`Action`].
pub open spec fn action_index(a: Action) -> nat {
    match a {
        Action::Quit => 0,
        Action::Save => 1,
        Action::SaveAs => 2,
        Action::Help => 3,
        Action::CutLine => 4,
        Action::CopyLine => 5,
        Action::Paste => 6,
        Action::SelectAll => 7,
        Action::Search => 8,
        Action::SearchNext => 9,
        Action::SearchPrev => 10,
        Action::Replace => 11,
        Action::GotoLine => 12,
        Action::PageUp => 13,
        Action::PageDown => 14,
        Action::FileTop => 15,
        Action::FileBottom => 16,
        Action::Undo => 17,
        Action::Redo => 18,
        Action::NextWord => 19,
        Action::PrevWord => 20,
        Action::DeleteWord => 21,
        Action::DeleteToEol => 22,
        Action::ToggleLineNumbers => 23,
        Action::ToggleWordWrap => 24,
        Action::ToggleAutoIndent => 25,
        Action::OpenFile => 26,
        Action::NextTab => 27,
        Action::PrevTab => 28,
        Action::CloseTab => 29,
        Action::NewTab => 30,
    }
}

/// The action at place `i` of the declaration order (the last one past the end).
pub open spec fn action_of(i: nat) -> Action {
    if i == 0 {
        Action::Quit
    }
    else if i == 1 {
        Action::Save
    }
    else if i == 2 {
        Action::SaveAs
    }
    else if i == 3 {
        Action::Help
    }
    else if i == 4 {
        Action::CutLine
    }
    else if i == 5 {
        Action::CopyLine
    }
    else if i == 6 {
        Action::Paste
    }
    else if i == 7 {
        Action::SelectAll
    }
    else if i == 8 {
        Action::Search
    }
    else if i == 9 {
        Action::SearchNext
    }
    else if i == 10 {
        Action::SearchPrev
    }
    else if i == 11 {
        Action::Replace
    }
    else if i == 12 {
        Action::GotoLine
    }
    else if i == 13 {
        Action::PageUp
    }
    else if i == 14 {
        Action::PageDown
    }
    else if i == 15 {
        Action::FileTop
    }
    else if i == 16 {
        Action::FileBottom
    }
    else if i == 17 {
        Action::Undo
    }
    else if i == 18 {
        Action::Redo
    }
    else if i == 19 {
        Action::NextWord
    }
    else if i == 20 {
        Action::PrevWord
    }
    else if i == 21 {
        Action::DeleteWord
    }
    else if i == 22 {
        Action::DeleteToEol
    }
    else if i == 23 {
        Action::ToggleLineNumbers
    }
    else if i == 24 {
        Action::ToggleWordWrap
    }
    else if i == 25 {
        Action::ToggleAutoIndent
    }
    else if i == 26 {
        Action::OpenFile
    }
    else if i == 27 {
        Action::NextTab
    }
    else if i == 28 {
        Action::PrevTab
    }
    else if i == 29 {
        Action::CloseTab
    } else {
        Action::NewTab
    }
}

/// Each action comes back from its place, which lies below [`ACTION_COUNT`].
pub proof fn lemma_action_index(a: Action)
    ensures
        action_of(action_index(a)) == a,
        action_index(a) < ACTION_COUNT,
{
}

/// Two actions at the same place are the same action.
pub proof fn lemma_action_index_injective(a: Action, b: Action)
    ensures
        action_index(a) == action_index(b) ==> a == b,
{
    lemma_action_index(a);
    lemma_action_index(b);
}

/// The action at place `i` of the declaration order.
pub fn action_at(i: usize) -> (a: Action)
    requires
        i < ACTION_COUNT,
    ensures
        a == action_of(i as nat),
        action_index(a) == i,
{
    match i {
        0 => Action::Quit,
        1 => Action::Save,
        2 => Action::SaveAs,
        3 => Action::Help,
        4 => Action::CutLine,
        5 => Action::CopyLine,
        6 => Action::Paste,
        7 => Action::SelectAll,
        8 => Action::Search,
        9 => Action::SearchNext,
        10 => Action::SearchPrev,
        11 => Action::Replace,
        12 => Action::GotoLine,
        13 => Action::PageUp,
        14 => Action::PageDown,
        15 => Action::FileTop,
        16 => Action::FileBottom,
        17 => Action::Undo,
        18 => Action::Redo,
        19 => Action::NextWord,
        20 => Action::PrevWord,
        21 => Action::DeleteWord,
        22 => Action::DeleteToEol,
        23 => Action::ToggleLineNumbers,
        24 => Action::ToggleWordWrap,
        25 => Action::ToggleAutoIndent,
        26 => Action::OpenFile,
        27 => Action::NextTab,
        28 => Action::PrevTab,
        29 => Action::CloseTab,
        _ => Action::NewTab,
    }
}

/// No two actions share a name.
pub proof fn lemma_action_names_distinct(a: Action, b: Action)
    ensures
        action_name(a) == action_name(b) ==> a == b,
{
    reveal_strlit("quit");
    reveal_strlit("save");
    reveal_strlit("save_as");
    reveal_strlit("help");
    reveal_strlit("cut_line");
    reveal_strlit("copy_line");
    reveal_strlit("paste");
    reveal_strlit("select_all");
    reveal_strlit("search");
    reveal_strlit("search_next");
    reveal_strlit("search_prev");
    reveal_strlit("replace");
    reveal_strlit("goto_line");
    reveal_strlit("page_up");
    reveal_strlit("page_down");
    reveal_strlit("file_top");
    reveal_strlit("file_bottom");
    reveal_strlit("undo");
    reveal_strlit("redo");
    reveal_strlit("next_word");
    reveal_strlit("prev_word");
    reveal_strlit("delete_word");
    reveal_strlit("delete_to_eol");
    reveal_strlit("toggle_line_numbers");
    reveal_strlit("toggle_word_wrap");
    reveal_strlit("toggle_auto_indent");
    reveal_strlit("open_file");
    reveal_strlit("next_tab");
    reveal_strlit("prev_tab");
    reveal_strlit("close_tab");
    reveal_strlit("new_tab");
    if action_name(a) == action_name(b) && a != b {
        let x = action_name(a);
        let y = action_name(b);
        assert(x.len() == y.len());
        assert(x[0] == y[0]);
        assert(x[1] == y[1]);
        assert(x[2] == y[2]);
        assert(x[3] == y[3]);
        assert(x.len() > 4 ==> x[4] == y[4]);
        assert(x.len() > 5 ==> x[5] == y[5]);
        assert(x.len() > 6 ==> x[6] == y[6]);
        assert(x.len() > 7 ==> x[7] == y[7]);
        assert(x.len() > 8 ==> x[8] == y[8]);
        assert(x.len() > 9 ==> x[9] == y[9]);
        assert(x.len() > 10 ==> x[10] == y[10]);
    }
}


/// The action with the given name, if any.
pub open spec fn parse_action(s: Seq<char>) -> Option<Action> {
    if exists|a: Action| action_name(a) == s {
        Some(choose|a: Action| action_name(a) == s)
    } else {
        None
    }
}

/// Parsing an action's name gives the action back.
pub proof fn lemma_parse_name(a: Action)
    ensures
        parse_action(action_name(a)) == Some(a),
{
    let b = choose|b: Action| action_name(b) == action_name(a);
    lemma_action_names_distinct(a, b);
}

impl Action {
    /// The action's name (what `Display` would print).
    pub fn name(&self) -> (s: &'static str)
        ensures
            s@ == action_name(*self),
    {
        match self {
            Action::Quit => "quit",
            Action::Save => "save",
            Action::SaveAs => "save_as",
            Action::Help => "help",
            Action::CutLine => "cut_line",
            Action::CopyLine => "copy_line",
            Action::Paste => "paste",
            Action::SelectAll => "select_all",
            Action::Search => "search",
            Action::SearchNext => "search_next",
            Action::SearchPrev => "search_prev",
            Action::Replace => "replace",
            Action::GotoLine => "goto_line",
            Action::PageUp => "page_up",
            Action::PageDown => "page_down",
            Action::FileTop => "file_top",
            Action::FileBottom => "file_bottom",
            Action::Undo => "undo",
            Action::Redo => "redo",
            Action::NextWord => "next_word",
            Action::PrevWord => "prev_word",
            Action::DeleteWord => "delete_word",
            Action::DeleteToEol => "delete_to_eol",
            Action::ToggleLineNumbers => "toggle_line_numbers",
            Action::ToggleWordWrap => "toggle_word_wrap",
            Action::ToggleAutoIndent => "toggle_auto_indent",
            Action::OpenFile => "open_file",
            Action::NextTab => "next_tab",
            Action::PrevTab => "prev_tab",
            Action::CloseTab => "close_tab",
            Action::NewTab => "new_tab",
        }
    }

    /// The action's name as a `String`.
    pub fn to_string(&self) -> (s: String)
        ensures
            s@ == action_name(*self),
    {
        String::from_str(self.name())
    }

    /// Parses an action name (case-sensitive); `Err(())` for unknown names.
    pub fn from_name(s: &str) -> (r: Result<Action, ()>)
        ensures
            r == match parse_action(s@) {
                Some(a) => Ok::<Action, ()>(a),
                None => Err(()),
            },
    {
        if str_eq(s, "quit") {
            proof {
                lemma_parse_name(Action::Quit);
            }
            return Ok(Action::Quit);
        }
        if str_eq(s, "save") {
            proof {
                lemma_parse_name(Action::Save);
            }
            return Ok(Action::Save);
        }
        if str_eq(s, "save_as") {
            proof {
                lemma_parse_name(Action::SaveAs);
            }
            return Ok(Action::SaveAs);
        }
        if str_eq(s, "help") {
            proof {
                lemma_parse_name(Action::Help);
            }
            return Ok(Action::Help);
        }
        if str_eq(s, "cut_line") {
            proof {
                lemma_parse_name(Action::CutLine);
            }
            return Ok(Action::CutLine);
        }
        if str_eq(s, "copy_line") {
            proof {
                lemma_parse_name(Action::CopyLine);
            }
            return Ok(Action::CopyLine);
        }
        if str_eq(s, "paste") {
            proof {
                lemma_parse_name(Action::Paste);
            }
            return Ok(Action::Paste);
        }
        if str_eq(s, "select_all") {
            proof {
                lemma_parse_name(Action::SelectAll);
            }
            return Ok(Action::SelectAll);
        }
        if str_eq(s, "search") {
            proof {
                lemma_parse_name(Action::Search);
            }
            return Ok(Action::Search);
        }
        if str_eq(s, "search_next") {
            proof {
                lemma_parse_name(Action::SearchNext);
            }
            return Ok(Action::SearchNext);
        }
        if str_eq(s, "search_prev") {
            proof {
                lemma_parse_name(Action::SearchPrev);
            }
            return Ok(Action::SearchPrev);
        }
        if str_eq(s, "replace") {
            proof {
                lemma_parse_name(Action::Replace);
            }
            return Ok(Action::Replace);
        }
        if str_eq(s, "goto_line") {
            proof {
                lemma_parse_name(Action::GotoLine);
            }
            return Ok(Action::GotoLine);
        }
        if str_eq(s, "page_up") {
            proof {
                lemma_parse_name(Action::PageUp);
            }
            return Ok(Action::PageUp);
        }
        if str_eq(s, "page_down") {
            proof {
                lemma_parse_name(Action::PageDown);
            }
            return Ok(Action::PageDown);
        }
        if str_eq(s, "file_top") {
            proof {
                lemma_parse_name(Action::FileTop);
            }
            return Ok(Action::FileTop);
        }
        if str_eq(s, "file_bottom") {
            proof {
                lemma_parse_name(Action::FileBottom);
            }
            return Ok(Action::FileBottom);
        }
        if str_eq(s, "undo") {
            proof {
                lemma_parse_name(Action::Undo);
            }
            return Ok(Action::Undo);
        }
        if str_eq(s, "redo") {
            proof {
                lemma_parse_name(Action::Redo);
            }
            return Ok(Action::Redo);
        }
        if str_eq(s, "next_word") {
            proof {
                lemma_parse_name(Action::NextWord);
            }
            return Ok(Action::NextWord);
        }
        if str_eq(s, "prev_word") {
            proof {
                lemma_parse_name(Action::PrevWord);
            }
            return Ok(Action::PrevWord);
        }
        if str_eq(s, "delete_word") {
            proof {
                lemma_parse_name(Action::DeleteWord);
            }
            return Ok(Action::DeleteWord);
        }
        if str_eq(s, "delete_to_eol") {
            proof {
                lemma_parse_name(Action::DeleteToEol);
            }
            return Ok(Action::DeleteToEol);
        }
        if str_eq(s, "toggle_line_numbers") {
            proof {
                lemma_parse_name(Action::ToggleLineNumbers);
            }
            return Ok(Action::ToggleLineNumbers);
        }
        if str_eq(s, "toggle_word_wrap") {
            proof {
                lemma_parse_name(Action::ToggleWordWrap);
            }
            return Ok(Action::ToggleWordWrap);
        }
        if str_eq(s, "toggle_auto_indent") {
            proof {
                lemma_parse_name(Action::ToggleAutoIndent);
            }
            return Ok(Action::ToggleAutoIndent);
        }
        if str_eq(s, "open_file") {
            proof {
                lemma_parse_name(Action::OpenFile);
            }
            return Ok(Action::OpenFile);
        }
        if str_eq(s, "next_tab") {
            proof {
                lemma_parse_name(Action::NextTab);
            }
            return Ok(Action::NextTab);
        }
        if str_eq(s, "prev_tab") {
            proof {
                lemma_parse_name(Action::PrevTab);
            }
            return Ok(Action::PrevTab);
        }
        if str_eq(s, "close_tab") {
            proof {
                lemma_parse_name(Action::CloseTab);
            }
            return Ok(Action::CloseTab);
        }
        if str_eq(s, "new_tab") {
            proof {
                lemma_parse_name(Action::NewTab);
            }
            return Ok(Action::NewTab);
        }
        Err(())
    }
}

impl std::str::FromStr for Action {
    type Err = ();

    fn from_str(s: &str) -> (r: Result<Self, ()>)
        ensures
            r == match parse_action(s@) {
                Some(a) => Ok::<Action, ()>(a),
                None => Err(()),
            },
    {
        Action::from_name(s)
    }
}


/// The editor settings.
#[derive(Debug, Clone, Copy, PartialEq, Eq, Structural)]
pub struct Config {
    pub tab_size: usize,
    pub use_spaces: bool,
    pub auto_indent: bool,
    pub word_wrap: bool,
    pub line_numbers: bool,
}

impl Default for Config {
    fn default() -> (c: Self)
        ensures
            c == (Config {
                tab_size: 4,
                use_spaces: true,
                auto_indent: true,
                word_wrap: false,
                line_numbers: true,
            }),
    {
        Config { tab_size: 4, use_spaces: true, auto_indent: true, word_wrap: false, line_numbers: true }
    }
}

/// Key names as char sequences.
pub open spec fn keys_view(keys: Seq<String>) -> Seq<Seq<char>> {
    keys.map_values(|k: String| k@)
}

/// The map that a list of `(action, keys)` entries stands for.
pub open spec fn entries_map(es: Seq<(Action, Vec<String>)>) -> Map<Action, Seq<Seq<char>>>
    decreases es.len(),
{
    if es.len() == 0 {
        Map::empty()
    } else {
        entries_map(es.drop_last()).insert(es.last().0, keys_view(es.last().1@))
    }
}

/// No action has two entries.
pub open spec fn unique_actions(es: Seq<(Action, Vec<String>)>) -> bool {
    forall|i: int, j: int| 0 <= i < j < es.len() ==> es[i].0 != es[j].0
}

/// With distinct actions, the map holds exactly the entries' actions, each with its keys.
pub proof fn lemma_entries_map(es: Seq<(Action, Vec<String>)>)
    requires
        unique_actions(es),
    ensures
        forall|a: Action| #[trigger] entries_map(es).contains_key(a) <==> exists|i: int|
            0 <= i < es.len() && es[i].0 == a,
        forall|i: int| 0 <= i < es.len() ==> #[trigger] entries_map(es)[es[i].0] == keys_view(es[i].1@),
    decreases es.len(),
{
    if es.len() > 0 {
        let t = es.drop_last();
        lemma_entries_map(t);
        assert forall|a: Action| #[trigger] entries_map(es).contains_key(a) <==> exists|i: int|
            0 <= i < es.len() && es[i].0 == a by {
            if entries_map(es).contains_key(a) && a != es.last().0 {
                assert(entries_map(t).contains_key(a));
                let i = choose|i: int| 0 <= i < t.len() && t[i].0 == a;
                assert(t[i] == es[i]);
                assert(es[i].0 == a);
            }
            if exists|i: int| 0 <= i < es.len() && es[i].0 == a {
                let i = choose|i: int| 0 <= i < es.len() && es[i].0 == a;
                if i < t.len() {
                    assert(t[i] == es[i]);
                    assert(t[i].0 == a);
                    assert(entries_map(t).contains_key(a));
                }
            }
        }
        assert forall|i: int| 0 <= i < es.len() implies #[trigger] entries_map(es)[es[i].0]
            == keys_view(es[i].1@) by {
            if i < t.len() {
                assert(t[i] == es[i]);
                assert(es[i].0 != es[es.len() - 1].0);
                assert(entries_map(t)[t[i].0] == keys_view(t[i].1@));
            }
        }
    }
}

/// Key bindings: for each bound action, its list of key names.
pub struct BindingMap {
    entries: Vec<(Action, Vec<String>)>,
}

impl View for BindingMap {
    type V = Map<Action, Seq<Seq<char>>>;

    closed spec fn view(&self) -> Map<Action, Seq<Seq<char>>> {
        entries_map(self.entries@)
    }
}

impl BindingMap {
    #[verifier::type_invariant]
    spec fn distinct(self) -> bool {
        unique_actions(self.entries@)
    }

    pub fn new() -> (m: Self)
        ensures
            m@ == Map::<Action, Seq<Seq<char>>>::empty(),
    {
        BindingMap { entries: Vec::new() }
    }

    /// The entries, each action once.
    pub fn entries(&self) -> (es: &Vec<(Action, Vec<String>)>)
        ensures
            entries_map(es@) == self@,
            unique_actions(es@),
    {
        proof {
            use_type_invariant(self);
        }
        &self.entries
    }

    fn find(&self, a: Action) -> (r: Option<usize>)
        ensures
            r matches Some(i) ==> i < self.entries@.len() && self.entries@[i as int].0 == a,
            r is None ==> forall|i: int| 0 <= i < self.entries@.len() ==> self.entries@[i].0 != a,
    {
        let mut i: usize = 0;
        while i < self.entries.len()
            invariant
                i <= self.entries@.len(),
                forall|j: int| 0 <= j < i ==> self.entries@[j].0 != a,
            decreases self.entries.len() - i,
        {
            if self.entries[i].0 == a {
                return Some(i);
            }
            i = i + 1;
        }
        None
    }

    pub fn contains_key(&self, a: Action) -> (b: bool)
        ensures
            b == self@.contains_key(a),
    {
        proof {
            use_type_invariant(self);
            lemma_entries_map(self.entries@);
        }
        self.find(a).is_some()
    }

    pub fn get(&self, a: Action) -> (r: Option<&Vec<String>>)
        ensures
            r is Some == self@.contains_key(a),
            r matches Some(keys) ==> keys_view(keys@) == self@[a],
    {
        proof {
            use_type_invariant(self);
            lemma_entries_map(self.entries@);
        }
        match self.find(a) {
            Some(i) => Some(&self.entries[i].1),
            None => None,
        }
    }

    /// Binds `a` to `keys`, replacing its previous keys.
    pub fn insert(&mut self, a: Action, keys: Vec<String>)
        ensures
            final(self)@ == old(self)@.insert(a, keys_view(keys@)),
    {
        proof {
            use_type_invariant(&*self);
            lemma_entries_map(self.entries@);
        }
        let ghost kv = keys_view(keys@);
        let ghost m0 = self@;
        let ghost e0 = self.entries@;
        let mut es: Vec<(Action, Vec<String>)> = Vec::new();
        std::mem::swap(&mut es, &mut self.entries);
        match self.find_in(&es, a) {
            Some(i) => {
                es.set(i, (a, keys));
                proof {
                    assert(unique_actions(es@));
                    lemma_entries_map(es@);
                    assert(entries_map(es@) =~= m0.insert(a, kv)) by {
                        assert forall|b: Action| #[trigger] entries_map(es@).contains_key(b) == m0.insert(a, kv).contains_key(b) by {
                            if m0.contains_key(b) {
                                let j = choose|j: int| 0 <= j < e0.len() && e0[j].0 == b;
                                assert(es@[j].0 == b);
                            }
                            if entries_map(es@).contains_key(b) {
                                let j = choose|j: int| 0 <= j < es@.len() && es@[j].0 == b;
                                assert(e0[j].0 == b);
                            }
                        }
                        assert forall|b: Action| #[trigger] entries_map(es@).contains_key(b) implies entries_map(es@)[b] == m0.insert(a, kv)[b] by {
                            let j = choose|j: int| 0 <= j < es@.len() && es@[j].0 == b;
                            assert(entries_map(es@)[es@[j].0] == keys_view(es@[j].1@));
                            if b != a {
                                assert(e0[j] == es@[j]);
                                assert(m0[e0[j].0] == keys_view(e0[j].1@));
                            }
                        }
                    }
                }
            },
            None => {
                es.push((a, keys));
                proof {
                    assert(es@.drop_last() =~= e0);
                }
            },
        }
        self.entries = es;
    }

    fn find_in(&self, es: &Vec<(Action, Vec<String>)>, a: Action) -> (r: Option<usize>)
        ensures
            r matches Some(i) ==> i < es@.len() && es@[i as int].0 == a,
            r is None ==> forall|i: int| 0 <= i < es@.len() ==> es@[i].0 != a,
    {
        let mut i: usize = 0;
        while i < es.len()
            invariant
                i <= es@.len(),
                forall|j: int| 0 <= j < i ==> es@[j].0 != a,
            decreases es.len() - i,
        {
            if es[i].0 == a {
                return Some(i);
            }
            i = i + 1;
        }
        None
    }

    /// Unbinds `a`.
    pub fn remove(&mut self, a: Action)
        ensures
            final(self)@ == old(self)@.remove(a),
    {
        proof {
            use_type_invariant(&*self);
            lemma_entries_map(self.entries@);
        }
        let ghost m0 = self@;
        let ghost e0 = self.entries@;
        let mut es: Vec<(Action, Vec<String>)> = Vec::new();
        std::mem::swap(&mut es, &mut self.entries);
        match self.find_in(&es, a) {
            Some(i) => {
                es.remove(i);
                proof {
                    assert(es@ =~= e0.remove(i as int));
                    assert(unique_actions(es@));
                    lemma_entries_map(es@);
                    assert(entries_map(es@) =~= m0.remove(a)) by {
                        assert forall|b: Action| #[trigger] entries_map(es@).contains_key(b) == m0.remove(a).contains_key(b) by {
                            if m0.contains_key(b) && b != a {
                                let j = choose|j: int| 0 <= j < e0.len() && e0[j].0 == b;
                                if j < i {
                                    assert(es@[j].0 == b);
                                } else {
                                    assert(es@[j - 1].0 == b);
                                }
                            }
                            if entries_map(es@).contains_key(b) {
                                let j = choose|j: int| 0 <= j < es@.len() && es@[j].0 == b;
                                if j < i {
                                    assert(e0[j].0 == b);
                                } else {
                                    assert(e0[j + 1].0 == b);
                                }
                            }
                        }
                        assert forall|b: Action| #[trigger] entries_map(es@).contains_key(b) implies entries_map(es@)[b] == m0.remove(a)[b] by {
                            let j = choose|j: int| 0 <= j < es@.len() && es@[j].0 == b;
                            assert(entries_map(es@)[es@[j].0] == keys_view(es@[j].1@));
                            if j < i {
                                assert(e0[j] == es@[j]);
                                assert(m0[e0[j].0] == keys_view(e0[j].1@));
                            } else {
                                assert(e0[j + 1] == es@[j]);
                                assert(m0[e0[j + 1].0] == keys_view(e0[j + 1].1@));
                            }
                        }
                    }
                }
            },
            None => {
                proof {
                    assert(!m0.contains_key(a));
                    assert(m0.remove(a) =~= m0);
                }
            },
        }
        self.entries = es;
    }

    /// Number of bound actions.
    pub fn len(&self) -> (n: usize)
        ensures
            n == self@.dom().len(),
    {
        proof {
            use_type_invariant(self);
            lemma_entries_len(self.entries@);
        }
        self.entries.len()
    }
}

/// With distinct actions, the map has one key per entry.
pub proof fn lemma_entries_len(es: Seq<(Action, Vec<String>)>)
    requires
        unique_actions(es),
    ensures
        entries_map(es).dom().finite(),
        entries_map(es).dom().len() == es.len(),
    decreases es.len(),
{
    if es.len() > 0 {
        let t = es.drop_last();
        lemma_entries_len(t);
        lemma_entries_map(t);
        assert(!entries_map(t).contains_key(es.last().0)) by {
            if entries_map(t).contains_key(es.last().0) {
                let i = choose|i: int| 0 <= i < t.len() && t[i].0 == es.last().0;
                assert(es[i].0 == es[es.len() - 1].0);
            }
        }
    }
}

/// The keys bound to each action by default.
pub open spec fn default_keys(a: Action) -> Seq<Seq<char>> {
    match a {
        Action::Quit => seq!["ctrl+x"@, "ctrl+q"@],
        Action::Save => seq!["ctrl+s"@, "ctrl+o"@],
        Action::SaveAs => seq!["ctrl+shift+s"@],
        Action::Help => seq!["ctrl+g"@, "f1"@],
        Action::CutLine => seq!["ctrl+k"@],
        Action::Paste => seq!["ctrl+u"@, "ctrl+v"@],
        Action::CopyLine => seq!["alt+c"@, "ctrl+c"@],
        Action::SelectAll => seq!["ctrl+a"@],
        Action::Search => seq!["ctrl+f"@, "ctrl+w"@],
        Action::SearchNext => seq!["f3"@],
        Action::SearchPrev => seq!["ctrl+p"@],
        Action::Replace => seq!["ctrl+r"@, "ctrl+h"@],
        Action::GotoLine => seq!["ctrl+l"@],
        Action::PageUp => seq!["pageup"@],
        Action::PageDown => seq!["pagedown"@],
        Action::FileTop => seq!["ctrl+home"@],
        Action::FileBottom => seq!["ctrl+end"@],
        Action::Undo => seq!["ctrl+z"@],
        Action::Redo => seq!["ctrl+y"@, "ctrl+shift+z"@],
        Action::NextWord => seq!["alt+right"@, "ctrl+right"@],
        Action::PrevWord => seq!["alt+left"@, "ctrl+left"@],
        Action::DeleteWord => seq!["ctrl+backspace"@, "alt+backspace"@],
        Action::DeleteToEol => seq!["alt+d"@],
        Action::ToggleLineNumbers => seq!["alt+n"@],
        Action::ToggleWordWrap => seq!["alt+w"@],
        Action::ToggleAutoIndent => seq!["alt+i"@],
        Action::OpenFile => seq!["alt+o"@],
        Action::NextTab => seq!["alt+."@],
        Action::PrevTab => seq!["alt+,"@],
        Action::CloseTab => seq!["ctrl+w"@],
        Action::NewTab => seq!["ctrl+t"@],
    }
}

/// One key name.
fn keys1(k: &str) -> (v: Vec<String>)
    ensures
        keys_view(v@) == seq![k@],
{
    let mut v: Vec<String> = Vec::new();
    v.push(String::from_str(k));
    assert(keys_view(v@) =~= seq![k@]);
    v
}

/// Two key names.
fn keys2(k1: &str, k2: &str) -> (v: Vec<String>)
    ensures
        keys_view(v@) == seq![k1@, k2@],
{
    let mut v: Vec<String> = Vec::new();
    v.push(String::from_str(k1));
    v.push(String::from_str(k2));
    assert(keys_view(v@) =~= seq![k1@, k2@]);
    v
}

/// The default key bindings: every action is bound, to the keys of [`default_keys`].
pub fn default_keybindings() -> (m: BindingMap)
    ensures
        m@ == Map::new(|a: Action| true, |a: Action| default_keys(a)),
{
    let mut m = BindingMap::new();
    m.insert(Action::Quit, keys2("ctrl+x", "ctrl+q"));
    m.insert(Action::Save, keys2("ctrl+s", "ctrl+o"));
    m.insert(Action::SaveAs, keys1("ctrl+shift+s"));
    m.insert(Action::Help, keys2("ctrl+g", "f1"));
    m.insert(Action::CutLine, keys1("ctrl+k"));
    m.insert(Action::Paste, keys2("ctrl+u", "ctrl+v"));
    m.insert(Action::CopyLine, keys2("alt+c", "ctrl+c"));
    m.insert(Action::SelectAll, keys1("ctrl+a"));
    m.insert(Action::Search, keys2("ctrl+f", "ctrl+w"));
    m.insert(Action::SearchNext, keys1("f3"));
    m.insert(Action::SearchPrev, keys1("ctrl+p"));
    m.insert(Action::Replace, keys2("ctrl+r", "ctrl+h"));
    m.insert(Action::GotoLine, keys1("ctrl+l"));
    m.insert(Action::PageUp, keys1("pageup"));
    m.insert(Action::PageDown, keys1("pagedown"));
    m.insert(Action::FileTop, keys1("ctrl+home"));
    m.insert(Action::FileBottom, keys1("ctrl+end"));
    m.insert(Action::Undo, keys1("ctrl+z"));
    m.insert(Action::Redo, keys2("ctrl+y", "ctrl+shift+z"));
    m.insert(Action::NextWord, keys2("alt+right", "ctrl+right"));
    m.insert(Action::PrevWord, keys2("alt+left", "ctrl+left"));
    m.insert(Action::DeleteWord, keys2("ctrl+backspace", "alt+backspace"));
    m.insert(Action::DeleteToEol, keys1("alt+d"));
    m.insert(Action::ToggleLineNumbers, keys1("alt+n"));
    m.insert(Action::ToggleWordWrap, keys1("alt+w"));
    m.insert(Action::ToggleAutoIndent, keys1("alt+i"));
    m.insert(Action::OpenFile, keys1("alt+o"));
    m.insert(Action::NextTab, keys1("alt+."));
    m.insert(Action::PrevTab, keys1("alt+,"));
    m.insert(Action::CloseTab, keys1("ctrl+w"));
    m.insert(Action::NewTab, keys1("ctrl+t"));
    assert(m@ =~= Map::new(|a: Action| true, |a: Action| default_keys(a)));
    m
}

/// Copies a list of key names.
pub(crate) fn clone_keys(v: &Vec<String>) -> (r: Vec<String>)
    ensures
        keys_view(r@) == keys_view(v@),
{
    let mut r: Vec<String> = Vec::new();
    let mut i: usize = 0;
    while i < v.len()
        invariant
            i <= v.len(),
            keys_view(r@) == keys_view(v@.take(i as int)),
        decreases v.len() - i,
    {
        let c = v[i].clone();
        let ghost r0 = r@;
        r.push(c);
        assert(keys_view(r@) =~= keys_view(r0).push(v@[i as int]@));
        assert(keys_view(v@.take(i + 1)) =~= keys_view(v@.take(i as int)).push(v@[i as int]@));
        i = i + 1;
    }
    assert(v@.take(v.len() as int) =~= v@);
    r
}

/// Key `k` is bound to action `a`.
pub open spec fn bound_to(m: Map<Action, Seq<Seq<char>>>, a: Action, k: Seq<char>) -> bool {
    m.contains_key(a) && m[a].contains(k)
}

/// Key `k` is bound to action `a`, and to no action declared before `a`.
pub open spec fn first_bound(m: Map<Action, Seq<Seq<char>>>, a: Action, k: Seq<char>) -> bool {
    &&& bound_to(m, a, k)
    &&& forall|b: Action| action_index(b) < action_index(a) ==> !bound_to(m, b, k)
}

/// User overrides applied in order: an entry whose name is an action's replaces
/// that action's keys; other entries are skipped.
pub open spec fn merge_user(
    m: Map<Action, Seq<Seq<char>>>,
    user: Seq<(Seq<char>, Seq<Seq<char>>)>,
) -> Map<Action, Seq<Seq<char>>>
    decreases user.len(),
{
    if user.len() == 0 {
        m
    } else {
        let m1 = merge_user(m, user.drop_last());
        match parse_action(user.last().0) {
            Some(a) => m1.insert(a, user.last().1),
            None => m1,
        }
    }
}

/// User entries as names and key names.
pub open spec fn user_view(user: Seq<(String, Vec<String>)>) -> Seq<(Seq<char>, Seq<Seq<char>>)> {
    user.map_values(|e: (String, Vec<String>)| (e.0@, keys_view(e.1@)))
}

/// The default key bindings as a map.
pub open spec fn default_map() -> Map<Action, Seq<Seq<char>>> {
    Map::new(|a: Action| true, |a: Action| default_keys(a))
}

/// The key bindings in use.
pub struct KeyBindings {
    pub bindings: BindingMap,
}

impl View for KeyBindings {
    type V = Map<Action, Seq<Seq<char>>>;

    /// The bound keys of each action.
    open spec fn view(&self) -> Map<Action, Seq<Seq<char>>> {
        self.bindings@
    }
}

impl KeyBindings {
    /// Key bindings made of `bindings`.
    pub fn new(bindings: BindingMap) -> (kb: Self)
        ensures
            kb@ == bindings@,
    {
        KeyBindings { bindings }
    }

    /// The default bindings with the user's overrides applied (see [`merge_user`]).
    pub fn load(user: Vec<(String, Vec<String>)>) -> (kb: Self)
        ensures
            kb@ == merge_user(default_map(), user_view(user@)),
    {
        let mut merged = default_keybindings();
        let ghost u = user_view(user@);
        let mut i: usize = 0;
        assert(u.take(0) =~= Seq::<(Seq<char>, Seq<Seq<char>>)>::empty());
        while i < user.len()
            invariant
                u == user_view(user@),
                i <= user@.len(),
                merged@ == merge_user(default_map(), u.take(i as int)),
            decreases user.len() - i,
        {
            proof {
                assert(u.take(i + 1).drop_last() =~= u.take(i as int));
                assert(u.take(i + 1).last() == u[i as int]);
            }
            match Action::from_name(user[i].0.as_str()) {
                Ok(a) => {
                    let keys = clone_keys(&user[i].1);
                    merged.insert(a, keys);
                },
                Err(()) => {},
            }
            i = i + 1;
        }
        assert(u.take(user.len() as int) =~= u);
        KeyBindings::new(merged)
    }

    /// The action bound to the key named `key_name`, if any.  Where the key is
    /// bound to several actions, the first of them in the declaration order of
    /// [`Action`] wins (see [`first_bound`]).
    pub fn get_action(&self, key_name: &str) -> (r: Option<Action>)
        ensures
            r matches Some(a) ==> first_bound(self@, a, key_name@),
            r is None ==> forall|a: Action| !bound_to(self@, a, key_name@),
    {
        let mut i: usize = 0;
        while i < ACTION_COUNT
            invariant
                i <= ACTION_COUNT,
                forall|b: Action| action_index(b) < i ==> !bound_to(self@, b, key_name@),
            decreases ACTION_COUNT - i,
        {
            let a = action_at(i);
            if let Some(keys) = self.bindings.get(a) {
                let mut j: usize = 0;
                while j < keys.len()
                    invariant
                        keys_view(keys@) == self@[a],
                        self@.contains_key(a),
                        action_index(a) == i,
                        forall|b: Action| action_index(b) < i ==> !bound_to(self@, b, key_name@),
                        j <= keys@.len(),
                        forall|y: int| 0 <= y < j ==> (#[trigger] keys@[y])@ != key_name@,
                    decreases keys.len() - j,
                {
                    if str_eq(keys[j].as_str(), key_name) {
                        proof {
                            assert(keys_view(keys@)[j as int] == key_name@);
                            assert(self@[a].contains(key_name@));
                        }
                        return Some(a);
                    }
                    j = j + 1;
                }
                proof {
                    assert(!self@[a].contains(key_name@)) by {
                        if self@[a].contains(key_name@) {
                            let y = choose|y: int| 0 <= y < self@[a].len() && self@[a][y] == key_name@;
                            assert(keys@[y]@ == key_name@);
                        }
                    }
                }
            }
            proof {
                assert forall|b: Action| action_index(b) < i + 1 implies !bound_to(self@, b, key_name@) by {
                    if action_index(b) == i {
                        lemma_action_index_injective(a, b);
                    }
                }
            }
            i = i + 1;
        }
        proof {
            assert forall|a: Action| !bound_to(self@, a, key_name@) by {
                lemma_action_index(a);
            }
        }
        None
    }

    /// The first key bound to `action`, or the empty string.
    pub fn first_key(&self, action: Action) -> (k: &str)
        ensures
            (self@.contains_key(action) && self@[action].len() > 0) ==> k@
                == self@[action][0],
            !(self@.contains_key(action) && self@[action].len() > 0) ==> k@
                == Seq::<char>::empty(),
    {
        match self.bindings.get(action) {
            Some(keys) => {
                if keys.len() > 0 {
                    proof {
                        assert(keys_view(keys@)[0] == keys@[0]@);
                    }
                    keys[0].as_str()
                } else {
                    proof {
                        reveal_strlit("");
                    }
                    ""
                }
            },
            None => {
                proof {
                    reveal_strlit("");
                }
                ""
            },
        }
    }
}

/// `base` joined with the relative component `part`, as a path: a separator
/// goes between them unless `base` is empty or already ends with one.
pub open spec fn path_join(base: Seq<char>, part: Seq<char>) -> Seq<char> {
    if base.len() == 0 {
        part
    } else if base.last() == '/' {
        base + part
    } else {
        base + seq!['/'] + part
    }
}

fn join_path(base: &str, part: &str) -> (p: String)
    ensures
        p@ == path_join(base@, part@),
{
    let b = crate::text::chars_of(base);
    let mut p = String::from_str(base);
    if b.len() > 0 && b[b.len() - 1] != '/' {
        crate::text::push_char(&mut p, '/');
    }
    crate::text::push_all(&mut p, part);
    p
}

/// The directory of the configuration files: `.config/nanolike` under the home
/// directory, or under the current directory when there is no home directory.
pub open spec fn config_dir_spec(home: Option<Seq<char>>) -> Seq<char> {
    let base = match home {
        Some(h) => h,
        None => "."@,
    };
    path_join(path_join(base, ".config"@), "nanolike"@)
}

pub fn config_dir(home: Option<&str>) -> (d: String)
    ensures
        d@ == config_dir_spec(match home {
            Some(h) => Some(h@),
            None => None,
        }),
{
    let base = match home {
        Some(h) => h,
        None => ".",
    };
    let c = join_path(base, ".config");
    join_path(c.as_str(), "nanolike")
}

/// `config.json` in the configuration directory.
pub fn config_path(home: Option<&str>) -> (p: String)
    ensures
        p@ == path_join(
            config_dir_spec(match home {
                Some(h) => Some(h@),
                None => None,
            }),
            "config.json"@,
        ),
{
    let d = config_dir(home);
    join_path(d.as_str(), "config.json")
}

/// `keybindings.json` in the configuration directory.
pub fn keybindings_path(home: Option<&str>) -> (p: String)
    ensures
        p@ == path_join(
            config_dir_spec(match home {
                Some(h) => Some(h@),
                None => None,
            }),
            "keybindings.json"@,
        ),
{
    let d = config_dir(home);
    join_path(d.as_str(), "keybindings.json")
}
} // verus!
