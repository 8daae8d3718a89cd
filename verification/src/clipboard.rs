//! The clipboard accessor's own bookkeeping: the last content it knows of.
//! Reading and writing the system clipboard is left to the caller, who hands
//! over what was read and says what was written.

use vstd::prelude::*;
use crate::text::opt_view;

verus! {

/// What a read of the clipboard came to.
#[derive(Debug)]
pub enum Reading {
    /// The clipboard holds this text.
    Text(String),
    /// The clipboard holds no text.
    Absent,
    /// The clipboard could not be read; this is why.
    Failed(String),
}

impl Reading {
    /// The text that was read, if any.  A failed read counts as none.
    pub open spec fn content(self) -> Option<Seq<char>> {
        match self {
            Reading::Text(t) => Some(t@),
            _ => None,
        }
    }

    /// The text that was read, if any.  A failed read counts as none.
    pub fn text(self) -> (r: Option<String>)
        ensures
            opt_view(r) == self.content(),
    {
        match self {
            Reading::Text(t) => Some(t),
            _ => None,
        }
    }
}

/// The clipboard could not be read or written; this is why.
#[derive(Debug)]
pub struct AccessError {
    pub message: String,
}

/// Whether `reading` brings content other than `last`.
pub open spec fn differs(last: Option<Seq<char>>, reading: Option<Seq<char>>) -> bool {
    reading is Some && reading != last
}

/// The content known after `reading` was seen.
pub open spec fn known_after(last: Option<Seq<char>>, reading: Option<Seq<char>>) -> Option<
    Seq<char>,
> {
    if reading is Some {
        reading
    } else {
        last
    }
}

/// The last content of the clipboard that the accessor knows of.
pub struct ClipboardManager {
    last_content: Option<String>,
}

/// A shorter name for the accessor.
pub type Clipboard = ClipboardManager;

impl View for ClipboardManager {
    type V = Option<Seq<char>>;

    closed spec fn view(&self) -> Option<Seq<char>> {
        opt_view(self.last_content)
    }
}

impl ClipboardManager {
    /// An accessor that knows of no content yet.
    pub fn new() -> (m: ClipboardManager)
        ensures
            m@ is None,
    {
        ClipboardManager { last_content: None }
    }

    /// What a read of the clipboard gives: the text, nothing where the
    /// clipboard holds no text, and an error only where the read failed.
    pub fn get_text(&self, reading: Reading) -> (r: Result<Option<String>, AccessError>)
        ensures
            match reading {
                Reading::Text(t) => r == Ok::<Option<String>, AccessError>(Some(t)),
                Reading::Absent => r == Ok::<Option<String>, AccessError>(None),
                Reading::Failed(why) => r == Err::<Option<String>, AccessError>(
                    AccessError { message: why },
                ),
            },
    {
        match reading {
            Reading::Text(t) => Ok(Some(t)),
            Reading::Absent => Ok(None),
            Reading::Failed(why) => Err(AccessError { message: why }),
        }
    }

    /// Notes that `text` was written to the clipboard, so that reading it
    /// back does not count as a change.
    pub fn set_text(&mut self, text: &str)
        ensures
            final(self)@ == Some(text@),
    {
        self.last_content = Some(text.to_owned());
    }

    /// Whether what was read brings content other than the last known, which
    /// it then replaces.
    pub fn has_changed(&mut self, reading: Reading) -> (changed: bool)
        ensures
            changed == differs(old(self)@, reading.content()),
            final(self)@ == known_after(old(self)@, reading.content()),
    {
        self.monitor_changes(reading).is_some()
    }

    /// One step of watching the clipboard: the content that was read where it
    /// differs from the last known, which it then replaces.
    pub fn monitor_changes(&mut self, reading: Reading) -> (news: Option<String>)
        ensures
            final(self)@ == known_after(old(self)@, reading.content()),
            match news {
                Some(content) => differs(old(self)@, reading.content()) && Some(content@)
                    == reading.content(),
                None => !differs(old(self)@, reading.content()),
            },
    {
        match reading.text() {
            None => None,
            Some(content) => {
                let same = match &self.last_content {
                    Some(last) => *last == content,
                    None => false,
                };
                if same {
                    None
                } else {
                    self.last_content = Some(content.clone());
                    Some(content)
                }
            },
        }
    }
}

} // verus!
