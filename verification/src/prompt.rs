//! The prompt line: a question answered with a line of input, and the
//! question for a file path, with completion of the path and a popup of the
//! completions above the prompt line.
use crate::keys::{Key, KeyInput};
use crate::screen::{
    COMPLETE_MAX, blanks, common_prefix, common_prefix_spec, min_nat, popup_rows, popup_rows_spec,
    push_blanks,
};
use crate::text::{
    byte_len, chars_of, decimal, push_all, push_char, push_decimal, string_from_chars, utf8_len,
};
use vstd::prelude::*;

verus! {

/// `s` cut or padded with spaces to exactly `w` chars.
pub open spec fn fit(s: Seq<char>, w: nat) -> Seq<char> {
    if s.len() >= w {
        s.take(w as int)
    } else {
        s + blanks((w - s.len()) as nat)
    }
}

/// `s` cut or padded with spaces to exactly `w` chars.
pub fn fit_to(s: &str, w: usize) -> (r: String)
    ensures
        r@ == fit(s@, w as nat),
{
    let v = chars_of(s);
    if v.len() >= w {
        string_from_chars(&v.as_slice()[0..w])
    } else {
        let mut r = string_from_chars(v.as_slice());
        push_blanks(&mut r, w - v.len());
        r
    }
}

/// `a - b`, or 0 when `b` is larger.
pub open spec fn sat_sub(a: int, b: int) -> nat {
    if a >= b {
        (a - b) as nat
    } else {
        0
    }
}

/// `s` without its last char, if it has one.
pub open spec fn popped(s: Seq<char>) -> Seq<char> {
    if s.len() > 0 {
        s.drop_last()
    } else {
        s
    }
}

/// Removes the last char of `s`, if it has one.
pub fn pop_char(s: &mut String)
    ensures
        final(s)@ == popped(old(s)@),
{
    let v = chars_of(s.as_str());
    if v.len() > 0 {
        *s = string_from_chars(&v.as_slice()[0..v.len() - 1]);
        assert(s@ =~= popped(old(s)@));
    }
}

/// How a prompt goes on after a key: still editing, or done with the answer
/// (`None` when the question was cancelled).
pub enum PromptStep {
    Editing,
    Done(Option<String>),
}

/// A question on the prompt line with its answer being typed.
pub struct LinePrompt {
    pub message: String,
    pub buf: String,
}

impl LinePrompt {
    /// The question `message`, with `default` as the initial answer.
    pub fn new(message: &str, default: &str) -> (p: LinePrompt)
        ensures
            p.message@ == message@,
            p.buf@ == default@,
    {
        LinePrompt { message: String::from_str(message), buf: String::from_str(default) }
    }

    /// Takes a key: Enter answers, Escape cancels, Backspace removes the last
    /// char, and a char typed without Ctrl is added.
    pub fn key(&mut self, ev: &KeyInput) -> (step: PromptStep)
        ensures
            final(self).message == old(self).message,
            match ev.code {
                Key::Enter => step matches PromptStep::Done(Some(a)) && a@ == old(self).buf@
                    && final(self).buf == old(self).buf,
                Key::Esc => step matches PromptStep::Done(None) && final(self).buf == old(self).buf,
                Key::Backspace => step is Editing && final(self).buf@ == popped(old(self).buf@),
                Key::Char(c) => step is Editing && final(self).buf@ == (if ev.ctrl {
                    old(self).buf@
                } else {
                    old(self).buf@.push(c)
                }),
                _ => step is Editing && final(self).buf == old(self).buf,
            },
    {
        match &ev.code {
            Key::Enter => PromptStep::Done(Some(self.buf.clone())),
            Key::Esc => PromptStep::Done(None),
            Key::Backspace => {
                pop_char(&mut self.buf);
                PromptStep::Editing
            },
            Key::Char(c) => {
                if !ev.ctrl {
                    push_char(&mut self.buf, *c);
                }
                PromptStep::Editing
            },
            _ => PromptStep::Editing,
        }
    }

    /// The prompt line, `w` chars wide: the question and the answer so far.
    pub fn line(&self, w: usize) -> (s: String)
        ensures
            s@ == fit(self.message@ + self.buf@, w as nat),
    {
        let mut d = self.message.clone();
        push_all(&mut d, self.buf.as_str());
        fit_to(d.as_str(), w)
    }

    /// The cursor column: after the question and the answer (counted in
    /// bytes), and at most the last column.
    pub fn cursor_x(&self, w: usize) -> (x: usize)
        ensures
            x == min_nat(byte_len(self.message@) + byte_len(self.buf@), sat_sub(w as int, 1)),
    {
        let a = utf8_len(self.message.as_str());
        let b = utf8_len(self.buf.as_str());
        let last = if w >= 1 {
            w - 1
        } else {
            0
        };
        if a > last || b > last - a {
            last
        } else {
            a + b
        }
    }
}

/// A line of the completion popup: its screen row, its text, whether it is
/// the selected completion, and whether it is the counter line.
pub struct PopupLine {
    pub row: usize,
    pub text: String,
    pub selected: bool,
    pub counter: bool,
}

/// A popup line as plain values.
pub open spec fn popup_line_view(l: PopupLine) -> (usize, Seq<char>, bool, bool) {
    (l.row, l.text@, l.selected, l.counter)
}

/// How many completions the popup shows.
pub open spec fn shown_count(n: nat) -> nat {
    min_nat(n, COMPLETE_MAX as nat)
}

/// The first completion shown: the window scrolls so that the selected one is
/// the last visible, without running past the end.
pub open spec fn popup_offset(n: nat, selected: Option<usize>) -> nat {
    let shown = shown_count(n);
    match selected {
        Some(s) => min_nat(sat_sub(s as int, shown - 1), sat_sub(n as int, shown as int)),
        None => 0,
    }
}

/// The screen row of the popup line `i` (from the top) of a popup of `total`
/// rows above `prompt_row`, and at least row 1.
pub open spec fn popup_row(prompt_row: usize, total: nat, i: int) -> usize {
    if prompt_row - total + i >= 1 {
        (prompt_row - total + i) as usize
    } else {
        1
    }
}

/// The lines of the popup for the completions `cs` with `selected` selected,
/// above `prompt_row` on a screen `w` wide: the shown completions, each
/// padded with a space on both sides, then a counter line when some are hidden.
pub open spec fn popup_spec(
    cs: Seq<Seq<char>>,
    selected: Option<usize>,
    prompt_row: usize,
    w: usize,
) -> Seq<(usize, Seq<char>, bool, bool)> {
    let n = cs.len();
    let shown = shown_count(n);
    let total = popup_rows_spec(n);
    let off = popup_offset(n, selected);
    let items = Seq::new(
        shown,
        |i: int|
            (
                popup_row(prompt_row, total, i),
                fit(" "@ + cs[off + i] + " "@, w as nat),
                selected == Some((off + i) as usize),
                false,
            ),
    );
    if n > COMPLETE_MAX {
        items.push(
            (
                popup_row(prompt_row, 1, 0),
                fit("  "@ + decimal(off + shown) + "/"@ + decimal(n) + " matches"@, w as nat),
                false,
                true,
            ),
        )
    } else {
        items
    }
}

/// The lines of the completion popup (see [`popup_spec`]); none for no completions.
pub fn draw_completion_popup(
    completions: &Vec<String>,
    selected: Option<usize>,
    prompt_row: usize,
    w: usize,
) -> (lines: Vec<PopupLine>)
    ensures
        lines@.map_values(|l: PopupLine| popup_line_view(l)) == popup_spec(
            completions@.map_values(|s: String| s@),
            selected,
            prompt_row,
            w,
        ),
{
    let ghost cs = completions@.map_values(|s: String| s@);
    let n = completions.len();
    let shown = if n < COMPLETE_MAX {
        n
    } else {
        COMPLETE_MAX
    };
    let total = popup_rows(n);
    let mut lines: Vec<PopupLine> = Vec::new();
    if n == 0 {
        assert(lines@.map_values(|l: PopupLine| popup_line_view(l)) =~= popup_spec(cs, selected, prompt_row, w));
        return lines;
    }
    let offset = match selected {
        Some(s) => {
            let a = if s >= shown - 1 {
                s - (shown - 1)
            } else {
                0
            };
            let b = n - shown;
            if a <= b {
                a
            } else {
                b
            }
        },
        None => 0,
    };
    let ghost spec = popup_spec(cs, selected, prompt_row, w);
    let mut i: usize = 0;
    while i < shown
        invariant
            n == completions@.len(),
            cs == completions@.map_values(|s: String| s@),
            spec == popup_spec(cs, selected, prompt_row, w),
            n > 0,
            shown == shown_count(n as nat),
            total == popup_rows_spec(n as nat),
            offset == popup_offset(n as nat, selected),
            offset + shown <= n,
            i <= shown,
            lines@.map_values(|l: PopupLine| popup_line_view(l)) == spec.take(i as int),
        decreases shown - i,
    {
        let idx = offset + i;
        let row = if prompt_row >= total && prompt_row - total + i >= 1 {
            prompt_row - total + i
        } else if prompt_row < total && i >= total - prompt_row + 1 {
            i - (total - prompt_row)
        } else {
            1
        };
        let mut label = String::from_str(" ");
        push_all(&mut label, completions[idx].as_str());
        push_char(&mut label, ' ');
        proof {
            reveal_strlit(" ");
            assert(label@ =~= " "@ + cs[idx as int] + " "@);
        }
        let text = fit_to(label.as_str(), w);
        let is_sel = match selected {
            Some(s) => s == idx,
            None => false,
        };
        let ghost before = lines@.map_values(|l: PopupLine| popup_line_view(l));
        lines.push(PopupLine { row, text, selected: is_sel, counter: false });
        assert(lines@.map_values(|l: PopupLine| popup_line_view(l)) =~= spec.take(i + 1)) by {
            assert(lines@.map_values(|l: PopupLine| popup_line_view(l)) =~= before.push(
                popup_line_view(lines@[i as int]),
            ));
        }
        i = i + 1;
    }
    if n > COMPLETE_MAX {
        let row = if prompt_row >= 2 {
            prompt_row - 1
        } else {
            1
        };
        let mut msg = String::from_str("  ");
        push_decimal(&mut msg, offset + shown);
        push_char(&mut msg, '/');
        push_decimal(&mut msg, n);
        push_all(&mut msg, " matches");
        proof {
            reveal_strlit("/");
            assert(msg@ =~= "  "@ + decimal((offset + shown) as nat) + "/"@ + decimal(n as nat)
                + " matches"@);
        }
        let text = fit_to(msg.as_str(), w);
        let ghost before = lines@.map_values(|l: PopupLine| popup_line_view(l));
        lines.push(PopupLine { row, text, selected: false, counter: true });
        assert(lines@.map_values(|l: PopupLine| popup_line_view(l)) =~= spec) by {
            assert(lines@.map_values(|l: PopupLine| popup_line_view(l)) =~= before.push(
                popup_line_view(lines@[shown as int]),
            ));
        }
    } else {
        assert(spec.take(shown as int) =~= spec);
    }
    lines
}

/// How the file prompt goes on after a key: still editing, waiting for the
/// completions of the partial path (see `completion::completions_from`), or
/// done with the answer (`None` when cancelled).
pub enum FileStep {
    Editing,
    Complete(String),
    Done(Option<String>),
}

/// What to draw for the file prompt: the rows to clear above the prompt line,
/// the prompt line, the cursor column, and the popup lines.
pub struct PromptFrame {
    pub clear: Vec<usize>,
    pub line: String,
    pub cursor_x: usize,
    pub popup: Vec<PopupLine>,
}

/// The question for a file path, with completion: Tab completes the longest
/// common prefix of the completions, and further Tabs open the popup and go
/// through them; Shift+Tab goes back; typing starts over.
pub struct FilePrompt {
    pub message: String,
    pub buf: String,
    pub completions: Vec<String>,
    /// The longest common prefix of the completions.
    pub lcp: String,
    /// The completion chosen by cycling, or `None` at the common prefix.
    pub cycle: Option<usize>,
    pub show_popup: bool,
    pub prev_popup_rows: usize,
}

/// The choice after cycling forward among `n` completions: the next one, and
/// after the last one the common prefix (`None`), then the first again.
pub open spec fn cycle_forward(c: Option<usize>, n: nat) -> Option<usize> {
    let next = match c {
        Some(i) => i + 1,
        None => 0,
    };
    if next < n {
        Some(next as usize)
    } else {
        None
    }
}

/// The choice after cycling back among `n` completions: the previous one, the
/// common prefix (`None`) before the first, and the last one before that.
pub open spec fn cycle_back(c: Option<usize>, n: nat) -> Option<usize> {
    match c {
        None => Some((n - 1) as usize),
        Some(i) => if i == 0 {
            None
        } else {
            Some((i - 1) as usize)
        },
    }
}

/// The chars of each string.
pub open spec fn texts(v: Seq<String>) -> Seq<Seq<char>> {
    v.map_values(|s: String| s@)
}

impl FilePrompt {
    /// The chosen completion, if any, is one of the completions.
    pub open spec fn wf(&self) -> bool {
        self.cycle matches Some(i) ==> i < self.completions@.len()
    }

    /// The question `message` with `default` as the initial path.
    pub fn new(message: &str, default: &str) -> (p: FilePrompt)
        ensures
            p.wf(),
            p.message@ == message@,
            p.buf@ == default@,
            p.completions@.len() == 0,
            p.lcp@.len() == 0,
            p.cycle is None,
            !p.show_popup,
            p.prev_popup_rows == 0,
    {
        FilePrompt {
            message: String::from_str(message),
            buf: String::from_str(default),
            completions: Vec::new(),
            lcp: String::new(),
            cycle: None,
            show_popup: false,
            prev_popup_rows: 0,
        }
    }

    /// The text that cycling to `c` puts in the prompt: that completion, or
    /// the common prefix for `None`.
    pub open spec fn choice(&self, c: Option<usize>) -> Seq<char> {
        match c {
            Some(i) => self.completions@[i as int]@,
            None => self.lcp@,
        }
    }

    /// Takes a key (releases are ignored): Enter answers, Escape cancels, Tab
    /// asks for completions or cycles forward through them, Shift+Tab cycles
    /// back, and Backspace or a char typed without Ctrl edits the path and
    /// drops the completions.
    pub fn key(&mut self, ev: &KeyInput) -> (step: FileStep)
        requires
            old(self).wf(),
        ensures
            final(self).wf(),
            final(self).message == old(self).message,
            final(self).prev_popup_rows == old(self).prev_popup_rows,
            ({
                let o = *old(self);
                let f = *final(self);
                let n = o.completions@.len();
                let reset = f.completions@.len() == 0 && f.cycle is None && !f.show_popup
                    && f.lcp == o.lcp;
                if ev.release {
                    step is Editing && f == o
                } else {
                    match ev.code {
                        Key::Enter => step matches FileStep::Done(Some(a)) && a@ == o.buf@ && f
                            == o,
                        Key::Esc => step matches FileStep::Done(None) && f == o,
                        Key::Tab => if n == 0 {
                            step matches FileStep::Complete(p) && p@ == o.buf@ && f == o
                        } else {
                            let c = cycle_forward(o.cycle, n);
                            &&& step is Editing
                            &&& f.cycle == c
                            &&& f.show_popup
                            &&& f.buf@ == o.choice(c)
                            &&& f.completions == o.completions
                            &&& f.lcp == o.lcp
                        },
                        Key::BackTab => if n == 0 {
                            step is Editing && f == o
                        } else {
                            let c = cycle_back(o.cycle, n);
                            &&& step is Editing
                            &&& f.cycle == c
                            &&& f.show_popup
                            &&& f.buf@ == o.choice(c)
                            &&& f.completions == o.completions
                            &&& f.lcp == o.lcp
                        },
                        Key::Backspace => step is Editing && reset && f.buf@ == popped(o.buf@),
                        Key::Char(ch) => if ev.ctrl {
                            step is Editing && f == o
                        } else {
                            step is Editing && reset && f.buf@ == o.buf@.push(ch)
                        },
                        _ => step is Editing && f == o,
                    }
                }
            }),
    {
        if ev.release {
            return FileStep::Editing;
        }
        let n = self.completions.len();
        match &ev.code {
            Key::Enter => FileStep::Done(Some(self.buf.clone())),
            Key::Esc => FileStep::Done(None),
            Key::Tab => {
                if n == 0 {
                    return FileStep::Complete(self.buf.clone());
                }
                self.show_popup = true;
                let next = match self.cycle {
                    Some(i) => i + 1,
                    None => 0,
                };
                if next < n {
                    self.cycle = Some(next);
                    self.buf = self.completions[next].clone();
                } else {
                    self.cycle = None;
                    self.buf = self.lcp.clone();
                }
                FileStep::Editing
            },
            Key::BackTab => {
                if n == 0 {
                    return FileStep::Editing;
                }
                self.show_popup = true;
                let c = match self.cycle {
                    None => Some(n - 1),
                    Some(i) => {
                        if i == 0 {
                            None
                        } else {
                            Some(i - 1)
                        }
                    },
                };
                self.cycle = c;
                match c {
                    Some(i) => {
                        self.buf = self.completions[i].clone();
                    },
                    None => {
                        self.buf = self.lcp.clone();
                    },
                }
                FileStep::Editing
            },
            Key::Backspace => {
                pop_char(&mut self.buf);
                self.completions = Vec::new();
                self.show_popup = false;
                self.cycle = None;
                FileStep::Editing
            },
            Key::Char(ch) => {
                if !ev.ctrl {
                    push_char(&mut self.buf, *ch);
                    self.completions = Vec::new();
                    self.show_popup = false;
                    self.cycle = None;
                }
                FileStep::Editing
            },
            _ => FileStep::Editing,
        }
    }

    /// Takes the completions of the path asked for by Tab: a single one
    /// replaces the path; with several, the path goes to their longest common
    /// prefix when that is longer, else the popup opens.
    pub fn completed(&mut self, results: Vec<String>)
        requires
            old(self).wf(),
            old(self).completions@.len() == 0,
        ensures
            final(self).wf(),
            final(self).message == old(self).message,
            final(self).prev_popup_rows == old(self).prev_popup_rows,
            ({
                let o = *old(self);
                let f = *final(self);
                let n = results@.len();
                if n == 0 {
                    f == o
                } else if n == 1 {
                    &&& f.buf == results@[0]
                    &&& f.completions@.len() == 0
                    &&& f.cycle == o.cycle
                    &&& f.show_popup == o.show_popup
                    &&& f.lcp == o.lcp
                } else {
                    let lcp = common_prefix_spec(texts(results@));
                    &&& f.completions@ == results@
                    &&& f.lcp@ == lcp
                    &&& if byte_len(lcp) > byte_len(o.buf@) {
                        &&& f.buf@ == lcp
                        &&& f.cycle == o.cycle
                        &&& f.show_popup == o.show_popup
                    } else {
                        &&& f.buf == o.buf
                        &&& f.cycle is None
                        &&& f.show_popup
                    }
                }
            }),
    {
        let n = results.len();
        if n == 0 {
            return;
        }
        if n == 1 {
            let mut results = results;
            self.buf = results.remove(0);
            self.completions = Vec::new();
            return;
        }
        let lcp = common_prefix(results.as_slice());
        assert(results@.map_values(|s: String| s@) == texts(results@));
        self.completions = results;
        self.lcp = lcp;
        if utf8_len(self.lcp.as_str()) > utf8_len(self.buf.as_str()) {
            self.buf = self.lcp.clone();
        } else {
            self.show_popup = true;
            self.cycle = None;
        }
    }

    /// What to draw for the prompt on a screen `w` wide and `h` high, the
    /// prompt line being row `h - 3`: the rows of the popup drawn last time or
    /// now are cleared, the prompt line shows the question and the path, and
    /// the popup shows when it is open and there are completions.  Remembers
    /// how many popup rows it drew.
    pub fn frame(&mut self, w: usize, h: usize) -> (fr: PromptFrame)
        requires
            old(self).wf(),
            h >= 3,
        ensures
            ({
                let o = *old(self);
                let prompt_row = (h - 3) as usize;
                let n = o.completions@.len();
                let on = o.show_popup && n > 0;
                let cur = if on {
                    popup_rows_spec(n)
                } else {
                    0
                };
                let clear = if o.prev_popup_rows >= cur {
                    o.prev_popup_rows as nat
                } else {
                    cur
                };
                &&& fr.clear@ == Seq::new(clear, |i: int| popup_row(prompt_row, clear, i))
                &&& fr.line@ == fit(o.message@ + o.buf@, w as nat)
                &&& fr.cursor_x == min_nat(o.message@.len() + o.buf@.len(), sat_sub(w as int, 1))
                &&& on ==> fr.popup@.map_values(|l: PopupLine| popup_line_view(l)) == popup_spec(
                    texts(o.completions@),
                    o.cycle,
                    prompt_row,
                    w,
                )
                &&& !on ==> fr.popup@.len() == 0
                &&& *final(self) == FilePrompt { prev_popup_rows: cur as usize, ..o }
            }),
    {
        let prompt_row = h - 3;
        let n = self.completions.len();
        let on = self.show_popup && n > 0;
        let cur = if on {
            popup_rows(n)
        } else {
            0
        };
        let clear_rows = if self.prev_popup_rows >= cur {
            self.prev_popup_rows
        } else {
            cur
        };
        let mut clear: Vec<usize> = Vec::new();
        let mut i: usize = 0;
        while i < clear_rows
            invariant
                i <= clear_rows,
                clear@ == Seq::new(i as nat, |k: int| popup_row(prompt_row, clear_rows as nat, k)),
            decreases clear_rows - i,
        {
            let row = if prompt_row >= clear_rows && prompt_row - clear_rows + i >= 1 {
                prompt_row - clear_rows + i
            } else if prompt_row < clear_rows && i > clear_rows - prompt_row {
                i - (clear_rows - prompt_row)
            } else {
                1
            };
            clear.push(row);
            i = i + 1;
            assert(clear@ =~= Seq::new(i as nat, |k: int| popup_row(prompt_row, clear_rows as nat, k)));
        }
        let mut d = self.message.clone();
        push_all(&mut d, self.buf.as_str());
        let line = fit_to(d.as_str(), w);
        let a = chars_of(self.message.as_str()).len();
        let b = chars_of(self.buf.as_str()).len();
        let last = if w >= 1 {
            w - 1
        } else {
            0
        };
        let cursor_x = if a > last || b > last - a {
            last
        } else {
            a + b
        };
        let popup = if on {
            assert(self.completions@.map_values(|s: String| s@) == texts(self.completions@));
            draw_completion_popup(&self.completions, self.cycle, prompt_row, w)
        } else {
            Vec::new()
        };
        self.prev_popup_rows = cur;
        PromptFrame { clear, line, cursor_x, popup }
    }
}

} // verus!
