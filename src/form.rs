use vstd::prelude::*;

use crate::key::TextInputKey;
use crate::value::Value;

verus! {

/// Form whose Escape has nowhere to go back to.
pub const FRONT_PAGE_FORM_ID: u16 = 0x7600;

/// Action code: nothing to do, poll again.
pub const BROWSER_ACTION_NONE: u32 = 0x1_0000;

/// Action code: leave the current form.
pub const BROWSER_ACTION_FORM_EXIT: u32 = 0x2_0000;

/// An ordered list of entries handed over by the configuration engine.
pub struct ListHead<T> {
    entries: Vec<T>,
}

impl<T> View for ListHead<T> {
    type V = Seq<T>;

    closed spec fn view(&self) -> Seq<T> {
        self.entries@
    }
}

impl<T> ListHead<T> {
    pub fn new(entries: Vec<T>) -> (r: Self)
        ensures
            r@ == entries@,
    {
        ListHead { entries }
    }

    pub fn len(&self) -> (r: usize)
        ensures
            r == self@.len(),
    {
        self.entries.len()
    }

    pub fn get(&self, i: usize) -> (r: &T)
        requires
            i < self@.len(),
        ensures
            *r == self@[i as int],
    {
        &self.entries[i]
    }

    /// Walks the entries from the first on.
    pub fn iter(&self) -> (r: ListEntryIter<'_, T>)
        ensures
            r.entries() == self@,
            r.position() == 0,
    {
        ListEntryIter { entries: &self.entries, pos: 0 }
    }
}

/// A cursor over the entries of a [`ListHead`].
pub struct ListEntryIter<'a, T> {
    entries: &'a Vec<T>,
    pos: usize,
}

impl<'a, T> ListEntryIter<'a, T> {
    pub closed spec fn entries(&self) -> Seq<T> {
        self.entries@
    }

    pub closed spec fn position(&self) -> nat {
        self.pos as nat
    }

    /// The entry under the cursor, which then moves on; `None` past the last.
    pub fn next(&mut self) -> (r: Option<&'a T>)
        ensures
            final(self).entries() == old(self).entries(),
            old(self).position() < old(self).entries().len() ==> {
                &&& r matches Some(e)
                &&& *e == old(self).entries()[old(self).position() as int]
                &&& final(self).position() == old(self).position() + 1
            },
            old(self).position() >= old(self).entries().len() ==> {
                &&& r is None
                &&& final(self).position() == old(self).position()
            },
    {
        if self.pos < self.entries.len() {
            let e = &self.entries[self.pos];
            self.pos = self.pos + 1;
            Some(e)
        } else {
            None
        }
    }
}

/// The IFR operation that defines a statement.
#[derive(Clone, Copy, Debug, PartialEq, Eq, Structural)]
pub enum OpCode {
    Action,
    Checkbox,
    Numeric,
    OneOf,
    OrderedList,
    Ref,
    Subtitle,
    /// Any other operation, by its IFR code.
    Other(u8),
}

/// One choice of a one-of or ordered-list question.
pub struct QuestionOption {
    /// The option's value; `None` when its operation could not be read.
    pub value: Option<Value>,
    /// The option's text; `None` when it could not be resolved.
    pub prompt: Option<String>,
}

/// Error shown by a validation callback.
#[derive(Clone, Copy, Debug, PartialEq, Eq, Structural)]
pub struct StatementErrorInfo {
    pub string_id: u16,
    pub time_out: u8,
}

/// One question or row of a form.
pub struct Statement {
    /// The defining operation; `None` when it is absent or too short to read.
    pub op_code: Option<OpCode>,
    /// The question's text; `None` when it could not be resolved.
    pub prompt: Option<String>,
    /// The question's help text; `None` when it could not be resolved.
    pub help: Option<String>,
    pub current_value: Value,
    /// Backing buffer of an ordered-list question.
    pub buffer: Option<Vec<u8>>,
    pub options: ListHead<QuestionOption>,
}

/// Screen area reserved for the form.
#[derive(Clone, Copy, Debug, PartialEq, Eq, Structural)]
pub struct ScreenDescriptor {
    pub left_column: usize,
    pub right_column: usize,
    pub top_row: usize,
    pub bottom_row: usize,
}

/// A global key binding, active while no value is being edited.
pub struct HotKey {
    pub key_data: TextInputKey,
    pub action: u32,
    pub default_id: u16,
    pub help: String,
}

/// One configuration screen.
pub struct Form {
    pub form_id: u16,
    /// The form's title; `None` when it could not be resolved.
    pub title: Option<String>,
    pub statements: ListHead<Statement>,
    /// Position in `statements` of the statement to highlight first.
    pub highlighted: Option<usize>,
    pub hot_keys: ListHead<HotKey>,
    /// Whether the configuration engine can signal a refresh.
    pub refresh_event: bool,
    pub screen_dimensions: Option<ScreenDescriptor>,
}

/// What the user decided on a form.
pub struct UserInput {
    /// Position in the form of the statement the user finalized on.
    pub selected_statement: Option<usize>,
    pub input_value: Value,
    /// New contents of that statement's ordered-list buffer.
    pub buffer: Option<Vec<u8>>,
    pub action: u32,
    pub default_id: u16,
}

} // verus!
