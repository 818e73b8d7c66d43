//! Errors of the parser: a message and, where known, a byte offset into the input.
use vstd::prelude::*;
use vstd::string::StringExecFns;
use crate::text::{decimal, decimal_string};

verus! {

/// A JSON syntax or conversion error with a zero-based input byte offset.
#[derive(Debug)]
pub struct Error {
    message: String,
    offset: Option<usize>,
}

/// What a failing operation reports, as the grammar states it, with its
/// offset counted from the start of the parsed bytes.
pub enum Fault {
    /// The message and the byte offset, both exact.
    At(Seq<char>, int),
    /// An error at the offset whose message another component writes: the
    /// standard library's UTF-8 error, or brz_io's I/O error for a short read.
    Message(int),
}

/// An offset that saturates at the largest `usize`.
pub open spec fn clamp(x: int) -> int {
    if x > usize::MAX {
        usize::MAX as int
    } else {
        x
    }
}

impl View for Error {
    type V = (Seq<char>, Option<usize>);

    closed spec fn view(&self) -> Self::V {
        (self.message@, self.offset)
    }
}

/// The offset in the original input of byte `offset` of parsed bytes that
/// start at byte `base` of it, saturated at the largest `usize`; unknown when
/// the start is.
pub open spec fn placed(base: Option<usize>, offset: int) -> Option<usize> {
    match base {
        Some(b) => Some(clamp(b + offset) as usize),
        None => None,
    }
}

impl Error {
    /// This error is the report that `fault` describes, for parsed bytes that
    /// start at byte `base` of the original input, where that start is known:
    /// the offset is the fault's offset placed after `base`, and none when
    /// `base` is unknown.
    pub open spec fn reports(self, fault: Fault, base: Option<usize>) -> bool {
        match fault {
            Fault::At(message, offset) => self@.0 == message && self@.1 == placed(base, offset)
                && 0 <= offset,
            Fault::Message(offset) => self@.1 == placed(base, offset) && 0 <= offset,
        }
    }

    /// An error with a message, located at `offset`.
    pub fn at(message: &str, offset: usize) -> (e: Self)
        ensures
            e@ == (message@, Some(offset)),
    {
        Error { message: String::from_str(message), offset: Some(offset) }
    }

    /// An error with a message that another component wrote, located at
    /// `offset` where it is known.
    pub fn located(message: String, offset: Option<usize>) -> (e: Self)
        ensures
            e@ == (message@, offset),
    {
        Error { message, offset }
    }

    /// An error with a message and no location yet, as Serde's `custom` makes it.
    pub fn custom(message: String) -> (e: Self)
        ensures
            e@ == (message@, None::<usize>),
    {
        Error { message, offset: None }
    }

    /// Position relative to the original IO reader, if known. A reader made
    /// from a `Reader` counts from that reader's start, and one made by
    /// `JsonReader::from_view_at` from the start it was given. A view does not
    /// tell where it starts, so the errors of `JsonReader::from_view` have none.
    pub fn byte_offset(&self) -> (o: Option<usize>)
        ensures
            o == self@.1,
    {
        self.offset
    }

    /// The message, without the offset.
    pub fn message(&self) -> (m: &str)
        ensures
            m@ == self@.0,
    {
        self.message.as_str()
    }

    /// The text of the error, as it is displayed: the message, and
    /// ` at byte <offset>` when the offset is known.
    pub fn describe(&self) -> (t: String)
        ensures
            t@ == (match self@.1 {
                Some(o) => self@.0 + " at byte "@ + decimal(o as nat),
                None => self@.0,
            }),
    {
        match self.offset {
            Some(offset) => {
                let mut text = self.message.clone();
                text.append(" at byte ");
                let digits = decimal_string(offset);
                text.append(digits.as_str());
                text
            },
            None => self.message.clone(),
        }
    }

    /// Place the error's offset after `base`: an offset into parsed bytes
    /// that start at byte `base` of the original input becomes an offset into
    /// that input, saturating at the largest `usize`. Where that start is not
    /// known, the offset is dropped.
    pub fn shift(self, base: Option<usize>) -> (e: Self)
        ensures
            e@.0 == self@.0,
            e@.1 == (match self@.1 {
                Some(o) => placed(base, o as int),
                None => None,
            }),
    {
        let mut e = self;
        match e.offset {
            Some(o) => {
                e.offset = match base {
                    Some(b) => Some(o.saturating_add(b)),
                    None => None,
                };
            },
            None => {},
        }
        e
    }

    /// Locate an error that has no offset yet; one that has an offset keeps it.
    pub fn with_offset(self, offset: usize) -> (e: Self)
        ensures
            e@.0 == self@.0,
            e@.1 == (match self@.1 {
                Some(o) => Some(o),
                None => Some(offset),
            }),
    {
        let mut e = self;
        if e.offset.is_none() {
            e.offset = Some(offset);
        }
        e
    }
}

} // verus!
