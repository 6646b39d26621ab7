//! Key presses and their names in the key-binding file.
use crate::text::{decimal, first_lowercase, lowercase_first, push_all, push_char, push_decimal};
use vstd::prelude::*;

verus! {

/// The key of a key press.
pub enum Key {
    Char(char),
    F(u8),
    Up,
    Down,
    Left,
    Right,
    Home,
    End,
    PageUp,
    PageDown,
    Backspace,
    Delete,
    Tab,
    BackTab,
    Enter,
    Esc,
    /// Any other key, with the terminal library's description of it.
    Other(String),
}

/// A key press: the key, the modifiers held, and whether it is a key release.
pub struct KeyInput {
    pub code: Key,
    pub ctrl: bool,
    pub alt: bool,
    pub shift: bool,
    pub release: bool,
}

/// Name of an arrow-like key that takes Ctrl or Alt: `ctrl+<base>`, `alt+<base>` or `<base>`.
pub open spec fn modified_name(base: Seq<char>, ctrl: bool, alt: bool) -> Seq<char> {
    if ctrl {
        "ctrl+"@ + base
    } else if alt {
        "alt+"@ + base
    } else {
        base
    }
}

/// The name of a key press, as key bindings write it.
pub open spec fn key_name_spec(ev: KeyInput) -> Seq<char> {
    match ev.code {
        Key::Char(c) => {
            let lc = match first_lowercase(c) {
                Some(l) => l,
                None => c,
            };
            if ev.ctrl && ev.shift {
                "ctrl+shift+"@ + seq![lc]
            } else if ev.ctrl {
                "ctrl+"@ + seq![lc]
            } else if ev.alt {
                "alt+"@ + seq![c]
            } else {
                seq![c]
            }
        },
        Key::F(n) => "f"@ + decimal(n as nat),
        Key::Up => modified_name("up"@, ev.ctrl, ev.alt),
        Key::Down => modified_name("down"@, ev.ctrl, ev.alt),
        Key::Left => modified_name("left"@, ev.ctrl, ev.alt),
        Key::Right => modified_name("right"@, ev.ctrl, ev.alt),
        Key::Home => modified_name("home"@, ev.ctrl, false),
        Key::End => modified_name("end"@, ev.ctrl, false),
        Key::PageUp => "pageup"@,
        Key::PageDown => "pagedown"@,
        Key::Backspace => modified_name("backspace"@, ev.ctrl, ev.alt),
        Key::Delete => modified_name("delete"@, ev.ctrl, false),
        Key::Tab => if ev.shift {
            "shift+tab"@
        } else {
            "tab"@
        },
        Key::BackTab => "shift+tab"@,
        Key::Enter => "enter"@,
        Key::Esc => "escape"@,
        Key::Other(d) => "unknown:"@ + d@,
    }
}

fn modified(base: &str, ctrl: bool, alt: bool) -> (s: String)
    ensures
        s@ == modified_name(base@, ctrl, alt),
{
    let mut s = if ctrl {
        String::from_str("ctrl+")
    } else if alt {
        String::from_str("alt+")
    } else {
        String::new()
    };
    push_all(&mut s, base);
    s
}

/// The name of a key press (see [`key_name_spec`]).
pub fn key_event_to_name(ev: &KeyInput) -> (s: String)
    ensures
        s@ == key_name_spec(*ev),
{
    let ctrl = ev.ctrl;
    let alt = ev.alt;
    let shift = ev.shift;
    match &ev.code {
        Key::Char(c) => {
            let c = *c;
            let lc = match lowercase_first(c) {
                Some(l) => l,
                None => c,
            };
            let mut s = if ctrl && shift {
                String::from_str("ctrl+shift+")
            } else if ctrl {
                String::from_str("ctrl+")
            } else if alt {
                String::from_str("alt+")
            } else {
                String::new()
            };
            if ctrl {
                push_char(&mut s, lc);
            } else {
                push_char(&mut s, c);
            }
            s
        },
        Key::F(n) => {
            let mut s = String::from_str("f");
            push_decimal(&mut s, *n as usize);
            s
        },
        Key::Up => modified("up", ctrl, alt),
        Key::Down => modified("down", ctrl, alt),
        Key::Left => modified("left", ctrl, alt),
        Key::Right => modified("right", ctrl, alt),
        Key::Home => modified("home", ctrl, false),
        Key::End => modified("end", ctrl, false),
        Key::PageUp => String::from_str("pageup"),
        Key::PageDown => String::from_str("pagedown"),
        Key::Backspace => modified("backspace", ctrl, alt),
        Key::Delete => modified("delete", ctrl, false),
        Key::Tab => if shift {
            String::from_str("shift+tab")
        } else {
            String::from_str("tab")
        },
        Key::BackTab => String::from_str("shift+tab"),
        Key::Enter => String::from_str("enter"),
        Key::Esc => String::from_str("escape"),
        Key::Other(d) => {
            let mut s = String::from_str("unknown:");
            push_all(&mut s, d.as_str());
            s
        },
    }
}

} // verus!
