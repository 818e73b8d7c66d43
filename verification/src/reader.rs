//! The JSON reader: its input, and the cursor that walks the input byte by byte.
use vstd::prelude::*;
use vstd::string::{StringExecFns, StringSliceAdditionalSpecFns};
use vstd::utf8::{
    decode_utf8, encode_utf8_decode_utf8, partial_valid_utf8_extend_ascii_block, valid_utf8,
};
use brz_io::{Reader, ReaderView};
use crate::error::{placed, Error, Fault};
use crate::grammar::{
    expect_at, is_number_byte, is_whitespace, literal_at,
    number_run, peek_at, skip_whitespace, starts_number, string_from, string_stop,
};
use crate::input::{
    reader_position, reader_view, str_from_utf8, view_bytes, view_len, view_peek_byte,
    view_peek_bytes, view_store,
};
use crate::text::expected_text;
use crate::unescape::{decode_escapes, scan_body};

verus! {

/// The nesting limit that a reader has unless it is given another.
pub const DEFAULT_RECURSION_LIMIT: usize = 128;

enum Input<'a> {
    Owned(Reader),
    Borrowed(ReaderView<'a>),
}

/// A JSON deserializer owning or borrowing segmented input.
///
/// Unescaped strings in one segment borrow the input directly. Cross-segment
/// strings and decoded escape sequences live in the input reader's arena.
/// The reader itself never changes: a [`Cursor`] holds the parse position and
/// the nesting depth, so that one input can be walked by independent cursors.
pub struct JsonReader<'a> {
    input: Input<'a>,
    max_depth: usize,
    base: Option<usize>,
}

impl JsonReader<'static> {
    /// A reader over the unread bytes of `input`, with the default nesting
    /// limit. Error offsets count from the start of `input`.
    pub fn new(input: Reader) -> (json: Self)
        ensures
            json.bytes() is None,
            json.recursion_limit() == DEFAULT_RECURSION_LIMIT,
    {
        Self::with_recursion_limit(input, DEFAULT_RECURSION_LIMIT)
    }

    /// Set the maximum nesting of arrays, objects, and externally tagged enums.
    pub fn with_recursion_limit(input: Reader, max_depth: usize) -> (json: Self)
        ensures
            json.bytes() is None,
            json.recursion_limit() == max_depth,
    {
        let base = reader_position(&input);
        JsonReader { input: Input::Owned(input), max_depth, base: Some(base) }
    }
}

impl<'a> JsonReader<'a> {
    /// The bytes that this reader parses, where they are known: those of the
    /// view it was given or took. Those of an owned reader are not stated,
    /// since brz_io's reader moves its cursor through shared references.
    pub closed spec fn bytes(&self) -> Option<Seq<u8>> {
        match self.input {
            Input::Owned(_) => None,
            Input::Borrowed(view) => Some(view_bytes(view)),
        }
    }

    /// The maximum nesting depth.
    pub closed spec fn recursion_limit(&self) -> usize {
        self.max_depth
    }

    /// The offset in the original input of the first parsed byte, where it
    /// is known.
    pub closed spec fn base(&self) -> Option<usize> {
        self.base
    }

    /// Parse a snapshot of unread input with an independent cursor. Neither
    /// parsing nor later shared reads change the other reader's position.
    /// Error offsets count from the start of `input`, taking its position
    /// when the snapshot is made.
    pub fn from_borrowed(input: &'a Reader) -> (json: Self)
        ensures
            json.bytes() is Some,
            json.recursion_limit() == DEFAULT_RECURSION_LIMIT,
            json.base() is Some,
    {
        let base = reader_position(input);
        let view = reader_view(input);
        JsonReader {
            input: Input::Borrowed(view),
            max_depth: DEFAULT_RECURSION_LIMIT,
            base: Some(base),
        }
    }

    /// Parse only this view using an independent cursor. In particular, HTTP
    /// framing and any pipelined next request remain outside the JSON input.
    /// The source Reader owns cross-segment/escaped derived data. A view does
    /// not tell where it starts in its reader, so the errors of this reader
    /// carry no offset; [`JsonReader::from_view_at`] takes that start.
    pub fn from_view(input: ReaderView<'a>) -> (json: Self)
        ensures
            json.bytes() == Some(view_bytes(input)),
            json.recursion_limit() == DEFAULT_RECURSION_LIMIT,
            json.base() is None,
    {
        JsonReader { input: Input::Borrowed(input), max_depth: DEFAULT_RECURSION_LIMIT, base: None }
    }

    /// Parse only this view, which starts at byte `start` of its reader:
    /// error offsets count from the reader's start.
    pub fn from_view_at(input: ReaderView<'a>, start: usize) -> (json: Self)
        ensures
            json.bytes() == Some(view_bytes(input)),
            json.recursion_limit() == DEFAULT_RECURSION_LIMIT,
            json.base() == Some(start),
    {
        JsonReader {
            input: Input::Borrowed(input),
            max_depth: DEFAULT_RECURSION_LIMIT,
            base: Some(start),
        }
    }

    /// The view of the bytes that this reader parses.
    pub fn input(&self) -> (view: ReaderView<'_>)
        ensures
            self.bytes() matches Some(b) ==> view_bytes(view) == b,
    {
        match &self.input {
            Input::Owned(reader) => reader_view(reader),
            Input::Borrowed(view) => *view,
        }
    }

    /// The maximum nesting depth.
    pub fn max_depth(&self) -> (d: usize)
        ensures
            d == self.recursion_limit(),
    {
        self.max_depth
    }

    /// A cursor at the start of the input, at depth zero, whose errors count
    /// their offsets from the start of the original input, where it is known.
    pub fn cursor(&self) -> (c: Cursor)
        ensures
            c.pos() == 0,
            c.depth() == 0,
            c.limit() == self.recursion_limit(),
            c.base() == self.base(),
    {
        Cursor::starting_at(self.max_depth, self.base)
    }
}

/// The parse position in the input and the current nesting depth, which never
/// passes the nesting limit.
#[derive(Clone, Copy, Debug)]
pub struct Cursor {
    position: usize,
    depth: usize,
    max_depth: usize,
    base: Option<usize>,
}

impl Cursor {
    /// The depth stays within the limit.
    #[verifier::type_invariant]
    spec fn within_limit(self) -> bool {
        self.depth <= self.max_depth
    }

    /// The position: a byte offset into the input.
    pub closed spec fn pos(self) -> int {
        self.position as int
    }

    /// The number of arrays, objects and enums entered and not yet left.
    pub closed spec fn depth(self) -> int {
        self.depth as int
    }

    /// The maximum nesting depth.
    pub closed spec fn limit(self) -> int {
        self.max_depth as int
    }

    /// The offset in the original input of the input's first byte, which
    /// error offsets add to the position; errors have no offset where it is
    /// not known.
    pub closed spec fn base(self) -> Option<usize> {
        self.base
    }

    /// The position, the depth and the limit are machine integers.
    pub broadcast proof fn lemma_bounds(c: Cursor)
        ensures
            0 <= #[trigger] c.pos() <= usize::MAX,
            0 <= c.depth() <= usize::MAX,
            0 <= c.limit() <= usize::MAX,
    {
    }

    /// Leaving a nesting level undoes entering it: a cursor that entered
    /// (`b`) and then left (`c`) is the cursor that it was (`a`).
    pub proof fn law_leave_undoes_enter(a: Cursor, b: Cursor, c: Cursor)
        requires
            b.depth() == a.depth() + 1,
            b.pos() == a.pos(),
            b.limit() == a.limit(),
            b.base() == a.base(),
            c.depth() == b.depth() - 1,
            c.pos() == b.pos(),
            c.limit() == b.limit(),
            c.base() == b.base(),
        ensures
            c == a,
    {
    }

    /// The cursor moved to position `p`, with its depth, limit and base kept.
    pub open spec fn moved(self, next: Cursor, p: int) -> bool {
        &&& next.pos() == p
        &&& next.depth() == self.depth()
        &&& next.limit() == self.limit()
        &&& next.base() == self.base()
    }

    /// From this cursor to `next`, the position never goes back, and a
    /// position within the input `s` stays within it.
    pub open spec fn advances(self, next: Cursor, s: Seq<u8>) -> bool {
        &&& self.pos() <= next.pos()
        &&& self.pos() <= s.len() ==> next.pos() <= s.len()
    }

    /// Entering a nesting level from this cursor gives `next`, succeeding
    /// (`ok`) below the limit; at the limit it fails and changes nothing.
    pub open spec fn entered(self, next: Cursor, ok: bool) -> bool {
        if self.depth() < self.limit() {
            &&& ok
            &&& next.depth() == self.depth() + 1
            &&& next.pos() == self.pos()
            &&& next.limit() == self.limit()
            &&& next.base() == self.base()
        } else {
            !ok && next == self
        }
    }

    /// Each cursor of `steps` comes from the one before it by a step that
    /// advances over the input `s`.
    pub open spec fn chained(steps: Seq<Cursor>, s: Seq<u8>) -> bool {
        forall|i: int, j: int|
            #![trigger steps[i], steps[j]]
            0 <= i && j == i + 1 && j < steps.len() ==> steps[i].advances(steps[j], s)
    }

    /// The position of a parse stays within the input and never goes back:
    /// over any run of steps from a fresh cursor, every position lies
    /// between zero and the input's length, and no later position is smaller
    /// than an earlier one.
    pub proof fn law_position_within_input(steps: Seq<Cursor>, s: Seq<u8>)
        requires
            steps.len() > 0,
            steps[0].pos() == 0,
            Self::chained(steps, s),
        ensures
            forall|i: int| 0 <= i < steps.len() ==> 0 <= #[trigger] steps[i].pos() <= s.len(),
            forall|i: int, j: int|
                0 <= i <= j < steps.len() ==> #[trigger] steps[i].pos() <= #[trigger] steps[j].pos(),
    {
        assert forall|i: int, j: int| 0 <= i <= j < steps.len() implies steps[i].pos()
            <= steps[j].pos() && steps[j].pos() <= s.len() by {
            Self::lemma_chain_prefix(steps, s, j);
        }
        assert forall|i: int| 0 <= i < steps.len() implies 0 <= #[trigger] steps[i].pos()
            <= s.len() by {
            Self::lemma_chain_prefix(steps, s, i);
        }
    }

    /// Up to index `k` of a run of steps from a fresh cursor, positions never
    /// go back and stay within the input.
    proof fn lemma_chain_prefix(steps: Seq<Cursor>, s: Seq<u8>, k: int)
        requires
            0 <= k < steps.len(),
            steps[0].pos() == 0,
            Self::chained(steps, s),
        ensures
            forall|i: int| 0 <= i <= k ==> #[trigger] steps[i].pos() <= steps[k].pos(),
            steps[k].pos() <= s.len(),
        decreases k,
    {
        if k > 0 {
            Self::lemma_chain_prefix(steps, s, k - 1);
            let a = steps[k - 1];
            let b = steps[k];
            assert(a.advances(b, s));
        }
    }

    /// Exactly `limit` nesting levels can be entered: from depth zero, a run
    /// of enters succeeds for the first `limit` of them and fails from there on.
    pub proof fn law_nesting_limit(steps: Seq<Cursor>, oks: Seq<bool>)
        requires
            steps.len() == oks.len() + 1,
            steps[0].depth() == 0,
            forall|i: int| 0 <= i < oks.len() ==> steps[i].entered(steps[i + 1], #[trigger] oks[i]),
        ensures
            forall|i: int| 0 <= i < oks.len() ==> (#[trigger] oks[i] <==> i < steps[0].limit()),
    {
        assert forall|i: int| 0 <= i < oks.len() implies (#[trigger] oks[i] <==> i
            < steps[0].limit()) by {
            Self::lemma_enter_run(steps, oks, i);
            assert(steps[i].entered(steps[i + 1], oks[i]));
        }
    }

    /// After `k` enters from depth zero, the depth is `k` capped at the limit.
    proof fn lemma_enter_run(steps: Seq<Cursor>, oks: Seq<bool>, k: int)
        requires
            steps.len() == oks.len() + 1,
            0 <= k < steps.len(),
            steps[0].depth() == 0,
            forall|i: int| 0 <= i < oks.len() ==> steps[i].entered(steps[i + 1], #[trigger] oks[i]),
        ensures
            steps[k].limit() == steps[0].limit(),
            steps[k].depth() == if k < steps[0].limit() {
                k
            } else {
                steps[0].limit()
            },
        decreases k,
    {
        if k > 0 {
            Self::lemma_enter_run(steps, oks, k - 1);
            assert(steps[k - 1].entered(steps[k], oks[k - 1]));
        }
    }

    /// A cursor at position zero and depth zero, over input that starts the
    /// original input.
    pub fn new(max_depth: usize) -> (c: Cursor)
        ensures
            c.pos() == 0,
            c.depth() == 0,
            c.limit() == max_depth,
            c.base() == Some(0usize),
    {
        Self::starting_at(max_depth, Some(0))
    }

    /// A cursor at position zero and depth zero, over input that starts at
    /// byte `base` of the original input, where that is known.
    pub fn starting_at(max_depth: usize, base: Option<usize>) -> (c: Cursor)
        ensures
            c.pos() == 0,
            c.depth() == 0,
            c.limit() == max_depth,
            c.base() == base,
    {
        Cursor { position: 0, depth: 0, max_depth, base }
    }

    /// The number of nesting levels entered and not yet left, which is at
    /// most the limit.
    pub fn nesting(&self) -> (d: usize)
        ensures
            d == self.depth(),
            d <= self.limit(),
    {
        proof {
            use_type_invariant(self);
        }
        self.depth
    }

    /// The current position in the original input: the base plus the
    /// position, saturated at the largest `usize`; unknown where the base is.
    pub fn offset(&self) -> (o: Option<usize>)
        ensures
            o == placed(self.base(), self.pos()),
    {
        match self.base {
            Some(b) => Some(b.saturating_add(self.position)),
            None => None,
        }
    }

    /// The current position.
    pub fn position(&self) -> (p: usize)
        ensures
            p == self.pos(),
    {
        self.position
    }

    /// An error at the current position.
    pub fn error(&self, message: &str) -> (e: Error)
        ensures
            e.reports(Fault::At(message@, self.pos()), self.base()),
    {
        Error::located(String::from_str(message), self.offset())
    }

    /// The byte at the current position.
    pub fn peek(&self, input: &ReaderView) -> (b: Option<u8>)
        ensures
            b == peek_at(view_bytes(*input), self.pos()),
    {
        view_peek_byte(input, self.position)
    }

    /// The byte `offset` bytes after the current position.
    pub fn peek_byte(&self, input: &ReaderView, offset: usize) -> (b: Option<u8>)
        ensures
            b == peek_at(view_bytes(*input), self.pos() + offset),
    {
        if offset > usize::MAX - self.position {
            let _n = view_len(input);
            None
        } else {
            view_peek_byte(input, self.position + offset)
        }
    }

    /// Consume `count` bytes; passing the end of the input is an error.
    pub fn skip(&mut self, input: &ReaderView, count: usize) -> (r: Result<(), Error>)
        ensures
            old(self).pos() + count <= view_bytes(*input).len() ==> r is Ok && old(self).moved(
                *final(self),
                old(self).pos() + count,
            ),
            old(self).pos() + count > view_bytes(*input).len() ==> *final(self) == *old(self),
            old(self).pos() + count > view_bytes(*input).len() ==> (r matches Err(e) && e.reports(
                Fault::At("unexpected end of JSON"@, old(self).pos()), old(self).base())),
            old(self).advances(*final(self), view_bytes(*input)),
    {
        proof {
            use_type_invariant(&*self);
        }
        let n = view_len(input);
        if count > usize::MAX - self.position || self.position + count > n {
            Err(self.error("unexpected end of JSON"))
        } else {
            self.position = self.position + count;
            Ok(())
        }
    }

    /// Consume whitespace.
    pub fn whitespace(&mut self, input: &ReaderView)
        ensures
            old(self).moved(*final(self), skip_whitespace(view_bytes(*input), old(self).pos())),
            old(self).advances(*final(self), view_bytes(*input)),
    {
        let ghost s = view_bytes(*input);
        let n = view_len(input);
        while self.position < n && is_whitespace_byte(view_peek_byte(input, self.position))
            invariant
                n == s.len(),
                s == view_bytes(*input),
                self.pos() <= s.len() ==> skip_whitespace(s, old(self).pos()) == skip_whitespace(
                    s,
                    self.pos(),
                ),
                self.pos() > s.len() ==> self.pos() == old(self).pos(),
                self.depth() == old(self).depth(),
                self.limit() == old(self).limit(),
                self.base() == old(self).base(),
                self.pos() >= old(self).pos(),
            decreases n - self.position,
        {
            proof {
                use_type_invariant(&*self);
            }
            self.position = self.position + 1;
        }
    }

    /// Consume whitespace, then the structural byte `byte`.
    pub fn expect(&mut self, input: &ReaderView, byte: u8) -> (r: Result<(), Error>)
        ensures
            ({
                let s = view_bytes(*input);
                match expect_at(s, old(self).pos(), byte) {
                    Ok(p) => r is Ok && old(self).moved(*final(self), p),
                    Err(f) => r matches Err(e) && e.reports(f, old(self).base()) && old(self).moved(
                        *final(self),
                        skip_whitespace(s, old(self).pos()),
                    ),
                }
            }),
            old(self).advances(*final(self), view_bytes(*input)),
    {
        self.whitespace(input);
        if self.peek(input) != Some(byte) {
            return Err(Error::located(expected_text(byte), self.offset()));
        }
        self.skip(input, 1)
    }

    /// Consume whitespace, then the bytes of `literal`.
    pub fn literal(&mut self, input: &ReaderView, literal: &[u8]) -> (r: Result<(), Error>)
        ensures
            ({
                let s = view_bytes(*input);
                let q = skip_whitespace(s, old(self).pos());
                if literal_at(s, q, literal@) {
                    r is Ok && old(self).moved(*final(self), q + literal@.len())
                } else if literal@.len() > 0 {
                    r matches Err(e) && e.reports(Fault::At("invalid JSON literal"@, q), old(self).base())
                        && old(self).moved(*final(self), q)
                } else {
                    r matches Err(e) && e.reports(Fault::At("unexpected end of JSON"@, q), old(self).base())
                        && old(self).moved(*final(self), q)
                }
            }),
            old(self).advances(*final(self), view_bytes(*input)),
    {
        let ghost s = view_bytes(*input);
        self.whitespace(input);
        let ghost q = self.pos();
        let mut index: usize = 0;
        while index < literal.len()
            invariant
                s == view_bytes(*input),
                q == self.pos(),
                old(self).moved(*self, q),
                old(self).advances(*self, s),
                q == skip_whitespace(s, old(self).pos()),
                index <= literal@.len(),
                forall|k: int| 0 <= k < index ==> peek_at(s, q + k) == Some(literal@[k]),
            decreases literal.len() - index,
        {
            if self.peek_byte(input, index) != Some(literal[index]) {
                assert(!literal_at(s, q, literal@)) by {
                    if literal_at(s, q, literal@) {
                        assert(s.subrange(q, q + literal@.len())[index as int] == literal@[index as int]);
                    }
                }
                return Err(self.error("invalid JSON literal"));
            }
            index = index + 1;
        }
        proof {
            if q + literal@.len() <= s.len() {
                assert(s.subrange(q, q + literal@.len()) =~= literal@) by {
                    assert forall|k: int| 0 <= k < literal@.len() implies s.subrange(q, q + literal@.len())[k] == literal@[k] by {
                        assert(peek_at(s, q + k) == Some(literal@[k]));
                    }
                }
            } else if literal@.len() > 0 {
                assert(peek_at(s, q + literal@.len() - 1) == Some(literal@[literal@.len() - 1]));
            }
        }
        self.skip(input, literal.len())
    }

    /// Open a nesting level; at the limit, fail.
    pub fn enter(&mut self) -> (r: Result<(), Error>)
        ensures
            old(self).entered(*final(self), r is Ok),
            old(self).depth() >= old(self).limit() ==> (r matches Err(e) && e.reports(
                Fault::At("recursion limit exceeded"@, old(self).pos()), old(self).base())),
    {
        proof {
            use_type_invariant(&*self);
        }
        if self.depth >= self.max_depth {
            return Err(self.error("recursion limit exceeded"));
        }
        self.depth = self.depth + 1;
        Ok(())
    }

    /// Close the innermost nesting level.
    pub fn leave(&mut self)
        requires
            old(self).depth() > 0,
        ensures
            final(self).depth() == old(self).depth() - 1,
            final(self).pos() == old(self).pos(),
            final(self).limit() == old(self).limit(),
            final(self).base() == old(self).base(),
    {
        proof {
            use_type_invariant(&*self);
        }
        self.depth = self.depth - 1;
    }

    /// Check the end: only whitespace may follow.
    pub fn end(&mut self, input: &ReaderView) -> (r: Result<(), Error>)
        ensures
            ({
                let s = view_bytes(*input);
                let q = skip_whitespace(s, old(self).pos());
                &&& old(self).moved(*final(self), q)
                &&& q >= s.len() ==> r is Ok
                &&& q < s.len() ==> (r matches Err(e) && e.reports(
                    Fault::At("trailing characters"@, q), old(self).base()))
            }),
            old(self).advances(*final(self), view_bytes(*input)),
    {
        self.whitespace(input);
        if self.peek(input).is_some() {
            Err(self.error("trailing characters"))
        } else {
            Ok(())
        }
    }

    /// Read `len` bytes from the current position as a UTF-8 string borrowed
    /// from the input. Bytes past the end of the input, or bytes that are not
    /// UTF-8, are an error at the current position.
    fn read_str<'a>(&mut self, input: &ReaderView<'a>, len: usize) -> (r: Result<&'a str, Error>)
        ensures
            ({
                let s = view_bytes(*input);
                let bytes = s.subrange(old(self).pos(), old(self).pos() + len);
                if old(self).pos() + len > s.len() {
                    r matches Err(e) && e.reports(Fault::Message(old(self).pos()), old(self).base()) && *final(self)
                        == *old(self)
                } else if valid_utf8(bytes) {
                    r matches Ok(t) && t.spec_bytes() == bytes && old(self).moved(
                        *final(self),
                        old(self).pos() + len,
                    )
                } else {
                    r matches Err(e) && e.reports(Fault::Message(old(self).pos()), old(self).base()) && *final(self)
                        == *old(self)
                }
            }),
            old(self).advances(*final(self), view_bytes(*input)),
    {
        let bytes = match view_peek_bytes(input, self.position, len) {
            Ok(bytes) => bytes,
            Err(message) => return Err(Error::located(message, self.offset())),
        };
        let text = match str_from_utf8(bytes) {
            Ok(text) => text,
            Err(message) => return Err(Error::located(message, self.offset())),
        };
        match self.skip(input, len) {
            Ok(()) => Ok(text),
            Err(e) => Err(e),
        }
    }

    /// Consume whitespace, then a number token: a minus sign or a digit, and
    /// every digit, sign, point and exponent mark that follows. Its syntax and
    /// value are left to the number parser that reads the token.
    pub fn number<'a>(&mut self, input: &ReaderView<'a>) -> (r: Result<&'a str, Error>)
        ensures
            ({
                let s = view_bytes(*input);
                let q = skip_whitespace(s, old(self).pos());
                match peek_at(s, q) {
                    Some(b) if starts_number(b) => r matches Ok(t) && t.spec_bytes() == s.subrange(
                        q,
                        q + number_run(s, q),
                    ) && old(self).moved(*final(self), q + number_run(s, q)),
                    _ => r matches Err(e) && e.reports(Fault::At("expected a number"@, q), old(self).base())
                        && old(self).moved(*final(self), q),
                }
            }),
            old(self).advances(*final(self), view_bytes(*input)),
    {
        let ghost s = view_bytes(*input);
        self.whitespace(input);
        let ghost q = self.pos();
        match self.peek(input) {
            Some(b) => {
                if !(is_digit(b) || b == 0x2d) {
                    return Err(self.error("expected a number"));
                }
            },
            None => return Err(self.error("expected a number")),
        }
        let mut len: usize = 0;
        let n = view_len(input);
        while is_number_token_byte(self.peek_byte(input, len))
            invariant
                s == view_bytes(*input),
                n == s.len(),
                q == self.pos(),
                0 <= q < s.len(),
                q + len <= s.len(),
                number_run(s, q) == len + number_run(s, q + len),
                forall|k: int| q <= k < q + len ==> s[k] < 0x80,
            decreases s.len() - (q + len),
        {
            len = len + 1;
        }
        proof {
            let bytes = s.subrange(q, q + len);
            assert(number_run(s, q + len) == 0);
            partial_valid_utf8_extend_ascii_block(bytes, 0, len as int);
            assert(bytes.subrange(0, 0) =~= Seq::<u8>::empty());
            assert(bytes.subrange(0, len as int) =~= bytes);
        }
        self.read_str(input, len)
    }

    /// Consume whitespace, then a JSON string. The result is the string's
    /// value: a string without escapes borrows the input bytes between its
    /// quotes; one with escapes is decoded into the reader's arena.
    pub fn string<'a>(&mut self, input: &ReaderView<'a>) -> (r: Result<&'a str, Error>)
        ensures
            ({
                let s = view_bytes(*input);
                match string_from(s, old(self).pos()) {
                    Ok((bytes, next)) => r matches Ok(t) && t.spec_bytes() == bytes && t@
                        == decode_utf8(bytes) && old(self).moved(*final(self), next),
                    Err(f) => r matches Err(e) && e.reports(f, old(self).base()) && old(self).moved(
                        *final(self),
                        string_stop(s, old(self).pos()),
                    ),
                }
            }),
            old(self).advances(*final(self), view_bytes(*input)),
    {
        let ghost s = view_bytes(*input);
        match self.expect(input, 0x22) {
            Ok(()) => {},
            Err(e) => return Err(e),
        }
        let start = self.position;
        let start_offset = self.offset();
        let (len, escaped) = match scan_body(input, start) {
            Ok(scanned) => scanned,
            Err(e) => return Err(e.shift(self.base)),
        };
        let text = if escaped {
            let decoded = match decode_escapes(input, start, len) {
                Ok(decoded) => decoded,
                Err(e) => return Err(e.shift(self.base)),
            };
            // Validate before publishing any derived bytes to callers.
            match str_from_utf8(decoded.as_slice()) {
                Ok(_) => {},
                Err(message) => return Err(Error::located(message, start_offset)),
            }
            let stored = view_store(input, decoded.as_slice());
            match self.skip(input, len) {
                Ok(()) => {},
                Err(e) => return Err(e),
            }
            match str_from_utf8(stored) {
                Ok(text) => text,
                Err(message) => return Err(Error::located(message, start_offset)),
            }
        } else {
            match self.read_str(input, len) {
                Ok(text) => text,
                Err(e) => return Err(e),
            }
        };
        proof {
            encode_utf8_decode_utf8(text@);
        }
        // The closing quote, already located by the scan.
        match self.skip(input, 1) {
            Ok(()) => Ok(text),
            Err(e) => Err(e),
        }
    }
}

/// `b` is a whitespace byte.
fn is_whitespace_byte(b: Option<u8>) -> (r: bool)
    ensures
        r == (b matches Some(x) && is_whitespace(x)),
{
    match b {
        Some(x) => x == 0x20 || x == 0x0a || x == 0x0d || x == 0x09,
        None => false,
    }
}

/// `b` is an ASCII digit.
fn is_digit(b: u8) -> (r: bool)
    ensures
        r == (0x30 <= b <= 0x39),
{
    0x30 <= b && b <= 0x39
}

/// `b` is a byte that continues a number token.
fn is_number_token_byte(b: Option<u8>) -> (r: bool)
    ensures
        r == (b matches Some(x) && is_number_byte(x)),
{
    match b {
        Some(x) => is_digit(x) || x == 0x2d || x == 0x2b || x == 0x2e || x == 0x65 || x == 0x45,
        None => false,
    }
}

} // verus!
