//! The decisions that a Serde deserializer makes on the input: which kind of
//! value comes next, literals, and the steps through arrays, objects and
//! externally tagged enums.
use vstd::prelude::*;
use vstd::string::{StrSliceExecFns, StringSliceAdditionalSpecFns};
use vstd::utf8::decode_utf8;
use brz_io::ReaderView;
use crate::error::{Error, Fault};
use crate::grammar::{
    expect_at, false_bytes, lemma_skip_whitespace_twice, literal_at, null_bytes, peek_at,
    skip_whitespace, string_from, string_stop, true_bytes,
};
use crate::input::view_bytes;
use crate::reader::Cursor;

verus! {

broadcast use Cursor::lemma_bounds;

/// The kind of JSON value that a byte starts.
#[derive(Clone, Copy, Debug, PartialEq, Eq, Structural)]
pub enum ValueKind {
    Null,
    Bool,
    Str,
    Array,
    Object,
    Number,
}

/// The kind of value that starts with `b`: `n`, `t` or `f`, a quote, a
/// bracket, a brace, or a minus sign or digit.
pub open spec fn kind_of(b: u8) -> Option<ValueKind> {
    if b == 0x6e {
        Some(ValueKind::Null)
    } else if b == 0x74 || b == 0x66 {
        Some(ValueKind::Bool)
    } else if b == 0x22 {
        Some(ValueKind::Str)
    } else if b == 0x5b {
        Some(ValueKind::Array)
    } else if b == 0x7b {
        Some(ValueKind::Object)
    } else if b == 0x2d || (0x30 <= b <= 0x39) {
        Some(ValueKind::Number)
    } else {
        None
    }
}

/// The kind of value that starts at position `q`, if a value can start there.
pub open spec fn kind_at(s: Seq<u8>, q: int) -> Option<ValueKind> {
    match peek_at(s, q) {
        Some(b) => kind_of(b),
        None => None,
    }
}

/// Where the cursor stands when a one-character string from `p` is rejected.
pub open spec fn char_stop(s: Seq<u8>, p: int) -> int {
    match string_from(s, p) {
        Ok((_, next)) => next,
        Err(_) => string_stop(s, p),
    }
}

/// Where an object stands between its members.
#[derive(Clone, Copy, Debug)]
pub struct MapState {
    /// No member has been started yet.
    pub first: bool,
    /// A key has been read and its value has not.
    pub pending_value: bool,
}

/// Where an array stands between its elements.
#[derive(Clone, Copy, Debug)]
pub struct SeqState {
    /// No element has been started yet.
    pub first: bool,
}

impl MapState {
    /// The state at the opening brace.
    pub fn new() -> (m: MapState)
        ensures
            m.first,
            !m.pending_value,
    {
        MapState { first: true, pending_value: false }
    }
}

impl SeqState {
    /// The state at the opening bracket.
    pub fn new() -> (q: SeqState)
        ensures
            q.first,
    {
        SeqState { first: true }
    }
}

/// An outcome that fails or moves the cursor as `expect_at` says.
pub open spec fn follows_expect(
    before: Cursor,
    after: Cursor,
    r: Result<(), Error>,
    s: Seq<u8>,
    byte: u8,
) -> bool {
    match expect_at(s, before.pos(), byte) {
        Ok(p) => r is Ok && before.moved(after, p),
        Err(f) => r matches Err(e) && e.reports(f, before.base()) && before.moved(
            after,
            skip_whitespace(s, before.pos()),
        ),
    }
}

impl Cursor {
    /// Consume whitespace and tell which kind of value comes next, without
    /// consuming it.
    pub fn value_kind(&mut self, input: &ReaderView) -> (r: Result<ValueKind, Error>)
        ensures
            ({
                let s = view_bytes(*input);
                let q = skip_whitespace(s, old(self).pos());
                &&& old(self).moved(*final(self), q)
                &&& match kind_at(s, q) {
                    Some(k) => r == Ok::<ValueKind, Error>(k),
                    None => r matches Err(e) && e.reports(Fault::At("expected a JSON value"@, q), old(self).base()),
                }
            }),
            old(self).advances(*final(self), view_bytes(*input)),
    {
        self.whitespace(input);
        match self.peek(input) {
            Some(b) => {
                if b == 0x6e {
                    Ok(ValueKind::Null)
                } else if b == 0x74 || b == 0x66 {
                    Ok(ValueKind::Bool)
                } else if b == 0x22 {
                    Ok(ValueKind::Str)
                } else if b == 0x5b {
                    Ok(ValueKind::Array)
                } else if b == 0x7b {
                    Ok(ValueKind::Object)
                } else if b == 0x2d || (0x30 <= b && b <= 0x39) {
                    Ok(ValueKind::Number)
                } else {
                    Err(self.error("expected a JSON value"))
                }
            },
            None => Err(self.error("expected a JSON value")),
        }
    }

    /// Consume whitespace and tell whether `byte` comes next, without consuming it.
    pub fn next_is(&mut self, input: &ReaderView, byte: u8) -> (r: bool)
        ensures
            ({
                let s = view_bytes(*input);
                let q = skip_whitespace(s, old(self).pos());
                old(self).moved(*final(self), q) && r == (peek_at(s, q) == Some(byte))
            }),
            old(self).advances(*final(self), view_bytes(*input)),
    {
        self.whitespace(input);
        self.peek(input) == Some(byte)
    }

    /// Consume a boolean: `true` or `false`.
    pub fn boolean(&mut self, input: &ReaderView) -> (r: Result<bool, Error>)
        ensures
            ({
                let s = view_bytes(*input);
                let q = skip_whitespace(s, old(self).pos());
                if peek_at(s, q) == Some(0x74u8) {
                    if literal_at(s, q, true_bytes()) {
                        r == Ok::<bool, Error>(true) && old(self).moved(*final(self), q + 4)
                    } else {
                        r matches Err(e) && e.reports(Fault::At("invalid JSON literal"@, q), old(self).base())
                            && old(self).moved(*final(self), q)
                    }
                } else if peek_at(s, q) == Some(0x66u8) {
                    if literal_at(s, q, false_bytes()) {
                        r == Ok::<bool, Error>(false) && old(self).moved(*final(self), q + 5)
                    } else {
                        r matches Err(e) && e.reports(Fault::At("invalid JSON literal"@, q), old(self).base())
                            && old(self).moved(*final(self), q)
                    }
                } else {
                    r matches Err(e) && e.reports(Fault::At("expected a boolean"@, q), old(self).base())
                        && old(self).moved(*final(self), q)
                }
            }),
            old(self).advances(*final(self), view_bytes(*input)),
    {
        self.whitespace(input);
        proof {
            lemma_skip_whitespace_twice(view_bytes(*input), old(self).pos());
        }
        let b = self.peek(input);
        if b == Some(0x74u8) {
            let lit: [u8; 4] = [0x74, 0x72, 0x75, 0x65];
            proof {
                assert(lit@ =~= true_bytes());
            }
            match self.literal(input, &lit) {
                Ok(()) => Ok(true),
                Err(e) => Err(e),
            }
        } else if b == Some(0x66u8) {
            let lit: [u8; 5] = [0x66, 0x61, 0x6c, 0x73, 0x65];
            proof {
                assert(lit@ =~= false_bytes());
            }
            match self.literal(input, &lit) {
                Ok(()) => Ok(false),
                Err(e) => Err(e),
            }
        } else {
            Err(self.error("expected a boolean"))
        }
    }

    /// Consume `null`.
    pub fn null(&mut self, input: &ReaderView) -> (r: Result<(), Error>)
        ensures
            ({
                let s = view_bytes(*input);
                let q = skip_whitespace(s, old(self).pos());
                if literal_at(s, q, null_bytes()) {
                    r is Ok && old(self).moved(*final(self), q + 4)
                } else {
                    r matches Err(e) && e.reports(Fault::At("invalid JSON literal"@, q), old(self).base())
                        && old(self).moved(*final(self), q)
                }
            }),
            old(self).advances(*final(self), view_bytes(*input)),
    {
        let lit: [u8; 4] = [0x6e, 0x75, 0x6c, 0x6c];
        proof {
            assert(lit@ =~= null_bytes());
        }
        self.literal(input, &lit)
    }
}

/// A string after optional whitespace from `p` whose value is exactly one
/// character: that character and the position after the string.
pub open spec fn char_from(s: Seq<u8>, p: int) -> Result<(char, int), Fault> {
    match string_from(s, p) {
        Err(f) => Err(f),
        Ok((bytes, next)) => if decode_utf8(bytes).len() == 1 {
            Ok((decode_utf8(bytes)[0], next))
        } else {
            Err(Fault::At("expected a single character"@, next))
        },
    }
}

impl MapState {
    /// The value of the pending member has been read.
    pub fn value_done(&mut self)
        ensures
            final(self).first == old(self).first,
            !final(self).pending_value,
    {
        self.pending_value = false;
    }
}

impl Cursor {
    /// Consume whitespace and `null` if it comes next: whether it did.
    pub fn option_is_null(&mut self, input: &ReaderView) -> (r: Result<bool, Error>)
        ensures
            ({
                let s = view_bytes(*input);
                let q = skip_whitespace(s, old(self).pos());
                if peek_at(s, q) != Some(0x6eu8) {
                    r == Ok::<bool, Error>(false) && old(self).moved(*final(self), q)
                } else if literal_at(s, q, null_bytes()) {
                    r == Ok::<bool, Error>(true) && old(self).moved(*final(self), q + 4)
                } else {
                    r matches Err(e) && e.reports(Fault::At("invalid JSON literal"@, q), old(self).base())
                        && old(self).moved(*final(self), q)
                }
            }),
            old(self).advances(*final(self), view_bytes(*input)),
    {
        self.whitespace(input);
        proof {
            lemma_skip_whitespace_twice(view_bytes(*input), old(self).pos());
        }
        if self.peek(input) == Some(0x6eu8) {
            match self.null(input) {
                Ok(()) => Ok(true),
                Err(e) => Err(e),
            }
        } else {
            Ok(false)
        }
    }

    /// Consume a string of exactly one character.
    pub fn character(&mut self, input: &ReaderView) -> (r: Result<char, Error>)
        ensures
            ({
                let s = view_bytes(*input);
                match char_from(s, old(self).pos()) {
                    Ok((c, next)) => r == Ok::<char, Error>(c) && old(self).moved(*final(self), next),
                    Err(f) => r matches Err(e) && e.reports(f, old(self).base()) && old(self).moved(
                        *final(self),
                        char_stop(s, old(self).pos()),
                    ),
                }
            }),
            old(self).advances(*final(self), view_bytes(*input)),
    {
        let text = match self.string(input) {
            Ok(text) => text,
            Err(e) => return Err(e),
        };
        if text.unicode_len() == 1 {
            Ok(text.get_char(0))
        } else {
            Err(self.error("expected a single character"))
        }
    }

    /// The step before an array element: `Ok(false)` at the closing bracket;
    /// else a comma unless this is the first element, and `Ok(true)`.
    pub fn next_element(&mut self, input: &ReaderView, seq: &mut SeqState) -> (r: Result<bool, Error>)
        ensures
            ({
                let s = view_bytes(*input);
                let q = skip_whitespace(s, old(self).pos());
                if peek_at(s, q) == Some(0x5du8) {
                    r == Ok::<bool, Error>(false) && old(self).moved(*final(self), q) && *final(seq)
                        == *old(seq)
                } else if old(seq).first {
                    r == Ok::<bool, Error>(true) && old(self).moved(*final(self), q)
                        && !final(seq).first
                } else {
                    match expect_at(s, q, 0x2c) {
                        Ok(p) => r == Ok::<bool, Error>(true) && old(self).moved(*final(self), p)
                            && !final(seq).first,
                        Err(f) => r matches Err(e) && e.reports(f, old(self).base()) && old(self).moved(
                            *final(self),
                            q,
                        ) && *final(seq) == *old(seq),
                    }
                }
            }),
            old(self).advances(*final(self), view_bytes(*input)),
    {
        self.whitespace(input);
        proof {
            lemma_skip_whitespace_twice(view_bytes(*input), old(self).pos());
        }
        if self.peek(input) == Some(0x5du8) {
            return Ok(false);
        }
        if !seq.first {
            match self.expect(input, 0x2c) {
                Ok(()) => {},
                Err(e) => return Err(e),
            }
        }
        seq.first = false;
        Ok(true)
    }

    /// The step before an object member: `Ok(None)` at the closing brace;
    /// else a comma unless this is the first member, and the key.
    pub fn next_key<'a>(&mut self, input: &ReaderView<'a>, map: &mut MapState) -> (r: Result<
        Option<&'a str>,
        Error,
    >)
        ensures
            ({
                let s = view_bytes(*input);
                let q = skip_whitespace(s, old(self).pos());
                let p = if old(map).first {
                    Ok(q)
                } else {
                    expect_at(s, q, 0x2c)
                };
                if old(map).pending_value {
                    r matches Err(e) && e.reports(
                        Fault::At("object value was not consumed"@, old(self).pos()), old(self).base()) && *final(self) == *old(self) && *final(map) == *old(map)
                } else if peek_at(s, q) == Some(0x7du8) {
                    r matches Ok(None) && old(self).moved(*final(self), q) && *final(map) == *old(
                        map,
                    )
                } else {
                    match p {
                        Err(f) => r matches Err(e) && e.reports(f, old(self).base()) && old(self).moved(
                            *final(self),
                            q,
                        ) && *final(map) == *old(map),
                        Ok(p) => match string_from(s, p) {
                            Ok((bytes, next)) => r matches Ok(Some(k)) && k.spec_bytes() == bytes
                                && k@ == decode_utf8(bytes) && old(self).moved(*final(self), next)
                                && !final(map).first && final(map).pending_value,
                            Err(f) => r matches Err(e) && e.reports(f, old(self).base()) && old(self).moved(
                                *final(self),
                                string_stop(s, p),
                            ) && !final(map).first && !final(map).pending_value,
                        },
                    }
                }
            }),
            old(self).advances(*final(self), view_bytes(*input)),
    {
        if map.pending_value {
            return Err(self.error("object value was not consumed"));
        }
        self.whitespace(input);
        proof {
            lemma_skip_whitespace_twice(view_bytes(*input), old(self).pos());
        }
        if self.peek(input) == Some(0x7du8) {
            return Ok(None);
        }
        if !map.first {
            match self.expect(input, 0x2c) {
                Ok(()) => {},
                Err(e) => return Err(e),
            }
        }
        map.first = false;
        let key = match self.string(input) {
            Ok(key) => key,
            Err(e) => return Err(e),
        };
        map.pending_value = true;
        Ok(Some(key))
    }

    /// The step before an object member's value: the colon after its key.
    pub fn next_value(&mut self, input: &ReaderView, map: &MapState) -> (r: Result<(), Error>)
        ensures
            map.pending_value ==> follows_expect(
                *old(self),
                *final(self),
                r,
                view_bytes(*input),
                0x3a,
            ),
            !map.pending_value ==> (r matches Err(e) && e.reports(
                Fault::At("object key was not consumed"@, old(self).pos()), old(self).base())) && *final(self) == *old(self),
            old(self).advances(*final(self), view_bytes(*input)),
    {
        if !map.pending_value {
            return Err(self.error("object key was not consumed"));
        }
        self.expect(input, 0x3a)
    }

    /// The closing brace of an object whose last value has been read.
    pub fn end_object(&mut self, input: &ReaderView, map: &MapState) -> (r: Result<(), Error>)
        ensures
            !map.pending_value ==> follows_expect(
                *old(self),
                *final(self),
                r,
                view_bytes(*input),
                0x7d,
            ),
            map.pending_value ==> (r matches Err(e) && e.reports(
                Fault::At("object value was not consumed"@, old(self).pos()), old(self).base())) && *final(self) == *old(self),
            old(self).advances(*final(self), view_bytes(*input)),
    {
        if map.pending_value {
            return Err(self.error("object value was not consumed"));
        }
        self.expect(input, 0x7d)
    }

    /// The start of an externally tagged enum's object: the opening brace,
    /// the variant's name and the colon after it.
    pub fn variant_key<'a>(&mut self, input: &ReaderView<'a>) -> (r: Result<&'a str, Error>)
        ensures
            ({
                let s = view_bytes(*input);
                match expect_at(s, old(self).pos(), 0x7b) {
                    Err(f) => r matches Err(e) && e.reports(f, old(self).base()) && old(self).moved(
                        *final(self),
                        skip_whitespace(s, old(self).pos()),
                    ),
                    Ok(p) => match string_from(s, p) {
                        Err(f) => r matches Err(e) && e.reports(f, old(self).base()) && old(self).moved(
                            *final(self),
                            string_stop(s, p),
                        ),
                        Ok((bytes, next)) => match expect_at(s, next, 0x3a) {
                            Ok(after) => r matches Ok(k) && k.spec_bytes() == bytes && k@
                                == decode_utf8(bytes) && old(self).moved(*final(self), after),
                            Err(f) => r matches Err(e) && e.reports(f, old(self).base()) && old(self).moved(
                                *final(self),
                                skip_whitespace(s, next),
                            ),
                        },
                    },
                }
            }),
            old(self).advances(*final(self), view_bytes(*input)),
    {
        match self.expect(input, 0x7b) {
            Ok(()) => {},
            Err(e) => return Err(e),
        }
        let variant = match self.string(input) {
            Ok(variant) => variant,
            Err(e) => return Err(e),
        };
        match self.expect(input, 0x3a) {
            Ok(()) => Ok(variant),
            Err(e) => Err(e),
        }
    }
}

} // verus!
