//! Clipboard synchronisation decisions (text).
//!
//! A single owner handles both directions: it polls the local clipboard and
//! applies the texts received from the other machines. Keeping the last known
//! value in one place avoids echoes (broadcasting back a text that was just
//! written locally): every write records the value that polling then compares
//! against.

use vstd::prelude::*;

verus! {

/// Command sent to the clipboard owner.
#[derive(Debug)]
pub enum ClipCmd {
    /// Write this text to the local clipboard (it comes from another node).
    SetText(String),
}

/// Last clipboard text known to the owner.
pub struct ClipState {
    last: Option<String>,
}

/// The text of an optional string.
pub open spec fn text_of(s: Option<String>) -> Option<Seq<char>> {
    match s {
        Some(t) => Some(t@),
        None => None,
    }
}

impl View for ClipState {
    type V = Option<Seq<char>>;

    closed spec fn view(&self) -> Option<Seq<char>> {
        text_of(self.last)
    }
}

fn same_text(last: &Option<String>, text: &String) -> (r: bool)
    ensures
        r == (text_of(*last) == Some(text@)),
{
    match last {
        Some(s) => *s == *text,
        None => false,
    }
}

impl ClipState {
    /// Starts from the clipboard content read at startup (`None` when it
    /// could not be read).
    pub fn new(initial: Option<String>) -> (c: ClipState)
        ensures
            c@ == text_of(initial),
    {
        ClipState { last: initial }
    }

    /// A text received from another node must be written locally unless it
    /// is the last known value already.
    pub fn wants_write(&self, text: &String) -> (w: bool)
        ensures
            w == (self@ != Some(text@)),
    {
        !same_text(&self.last, text)
    }

    /// Records a text successfully written to the local clipboard.
    pub fn wrote(&mut self, text: String)
        ensures
            final(self)@ == Some(text@),
    {
        self.last = Some(text);
    }

    /// Compares a polled clipboard content with the last known value: a
    /// non-empty new text is recorded and returned (to be broadcast);
    /// anything else is ignored.
    pub fn on_poll(&mut self, current: String) -> (changed: Option<String>)
        ensures
            current@.len() > 0 && old(self)@ != Some(current@) ==> (changed matches Some(t) && t@
                == current@) && final(self)@ == Some(current@),
            !(current@.len() > 0 && old(self)@ != Some(current@)) ==> changed is None
                && final(self)@ == old(self)@,
    {
        if !current.as_str().is_empty() && !same_text(&self.last, &current) {
            self.last = Some(current.clone());
            Some(current)
        } else {
            None
        }
    }
}

/// Law (no echo): once a received text has been written locally, polling
/// that same text reports no change, and receiving it again asks for no
/// write; likewise for a text just reported by polling.
pub proof fn lemma_no_echo(last: Option<Seq<char>>, t: Seq<char>)
    requires
        last == Some(t),
    ensures
        !(t.len() > 0 && last != Some(t)),
        !(last != Some(t)),
{
}

} // verus!
