//! Editing one line of text with a cursor between its characters.
use super::{Key, KeyCode};
use crate::text;
use vstd::prelude::*;

pub mod laws;

verus! {

/// A line and the number of characters before the cursor.
#[verifier::ext_equal]
pub struct LineView {
    pub value: Seq<char>,
    pub cursor: nat,
}

/// Whether a key is text rather than a command.
pub open spec fn types(key: Key) -> bool {
    key.code matches KeyCode::Char(c) && !key.control && !key.alt && !text::control(c)
}

pub fn is_typed(key: Key) -> (r: Option<char>)
    ensures
        match r {
            Some(c) => types(key) && key.code == KeyCode::Char(c),
            None => !types(key),
        },
{
    match key.code {
        KeyCode::Char(c) => if !key.control && !key.alt && !text::is_control(c) {
            Some(c)
        } else {
            None
        },
        _ => None,
    }
}

impl LineView {
    /// What a key makes of a line. A cursor past the end counts as at it, and
    /// a line as long as memory allows takes no more.
    pub open spec fn after(self, key: Key) -> LineView {
        let at = if self.cursor <= self.value.len() {
            self.cursor
        } else {
            self.value.len()
        };
        let v = self.value;
        match key.code {
            KeyCode::Home => LineView { value: v, cursor: 0 },
            KeyCode::End => LineView { value: v, cursor: v.len() },
            KeyCode::Left => LineView {
                value: v,
                cursor: if at > 0 {
                    (at - 1) as nat
                } else {
                    0
                },
            },
            KeyCode::Right => LineView {
                value: v,
                cursor: if at < v.len() {
                    at + 1
                } else {
                    at
                },
            },
            KeyCode::Backspace => if at > 0 {
                LineView { value: v.remove(at - 1), cursor: (at - 1) as nat }
            } else {
                self
            },
            KeyCode::Delete => if at < v.len() {
                LineView { value: v.remove(at as int), cursor: self.cursor }
            } else {
                self
            },
            KeyCode::Char(c) => if c == 'u' && key.control {
                LineView { value: Seq::empty(), cursor: 0 }
            } else if types(key) && v.len() < usize::MAX {
                LineView { value: v.insert(at as int, c), cursor: at + 1 }
            } else {
                self
            },
            _ => self,
        }
    }
}

/// Let a key act on a line. Says the line afterwards.
pub fn edit_line(value: &str, cursor: usize, key: Key) -> (r: (String, usize))
    ensures
        (LineView { value: r.0@, cursor: r.1 as nat }) == (LineView {
            value: value@,
            cursor: cursor as nat,
        }).after(key),
{
    let mut v = text::chars(value);
    let at: usize = if cursor <= v.len() {
        cursor
    } else {
        v.len()
    };
    match key.code {
        KeyCode::Home => (value.to_owned(), 0),
        KeyCode::End => (value.to_owned(), v.len()),
        KeyCode::Left => (
            value.to_owned(),
            if at > 0 {
                at - 1
            } else {
                0
            },
        ),
        KeyCode::Right => (
            value.to_owned(),
            if at < v.len() {
                at + 1
            } else {
                at
            },
        ),
        KeyCode::Backspace => if at > 0 {
            v.remove(at - 1);
            (text::string(v.as_slice()), at - 1)
        } else {
            (value.to_owned(), cursor)
        },
        KeyCode::Delete => if at < v.len() {
            v.remove(at);
            (text::string(v.as_slice()), cursor)
        } else {
            (value.to_owned(), cursor)
        },
        KeyCode::Char(c) => if c == 'u' && key.control {
            (String::new(), 0)
        } else if is_typed(key).is_some() && v.len() < usize::MAX {
            v.insert(at, c);
            (text::string(v.as_slice()), at + 1)
        } else {
            (value.to_owned(), cursor)
        },
        _ => (value.to_owned(), cursor),
    }
}

} // verus!
