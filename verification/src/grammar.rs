//! The lexical rules of JSON that the parser follows, stated over the input
//! bytes `s` and absolute positions into them.
use vstd::prelude::*;
use vstd::utf8::{encode_scalar, valid_utf8};
use crate::error::Fault;

verus! {

/// The four whitespace bytes of JSON: space, line feed, carriage return, tab.
pub open spec fn is_whitespace(b: u8) -> bool {
    b == 0x20 || b == 0x0a || b == 0x0d || b == 0x09
}

/// The byte at position `i`, if the input has one there.
pub open spec fn peek_at(s: Seq<u8>, i: int) -> Option<u8> {
    if 0 <= i < s.len() {
        Some(s[i])
    } else {
        None
    }
}

/// The first position at or after `p` that does not hold whitespace.
pub open spec fn skip_whitespace(s: Seq<u8>, p: int) -> int
    decreases s.len() - p,
{
    if 0 <= p < s.len() && is_whitespace(s[p]) {
        skip_whitespace(s, p + 1)
    } else {
        p
    }
}

/// Bytes that can continue a number token once it has started.
pub open spec fn is_number_byte(b: u8) -> bool {
    (0x30 <= b <= 0x39) || b == 0x2d || b == 0x2b || b == 0x2e || b == 0x65 || b == 0x45
}

/// Bytes that can start a number token: a minus sign or a digit.
pub open spec fn starts_number(b: u8) -> bool {
    (0x30 <= b <= 0x39) || b == 0x2d
}

/// The number of number bytes from position `p` on.
pub open spec fn number_run(s: Seq<u8>, p: int) -> int
    decreases s.len() - p,
{
    if 0 <= p < s.len() && is_number_byte(s[p]) {
        1 + number_run(s, p + 1)
    } else {
        0
    }
}

/// The value of a hexadecimal digit, upper or lower case.
pub open spec fn hex_digit(b: u8) -> Option<int> {
    if 0x30 <= b <= 0x39 {
        Some(b - 0x30)
    } else if 0x61 <= b <= 0x66 {
        Some(b - 0x61 + 10)
    } else if 0x41 <= b <= 0x46 {
        Some(b - 0x41 + 10)
    } else {
        None
    }
}

/// Reading the hexadecimal digits at positions `at + k` up to `at + 3`, with
/// `acc` the value of those before: the value, or the position of the first
/// byte that is not a hexadecimal digit.
pub open spec fn hex_from(s: Seq<u8>, at: int, k: int, acc: int) -> Result<int, int>
    decreases 4 - k,
{
    if k >= 4 {
        Ok(acc)
    } else {
        match peek_at(s, at + k) {
            Some(b) => match hex_digit(b) {
                Some(d) => hex_from(s, at, k + 1, acc * 16 + d),
                None => Err(at + k),
            },
            None => Err(at + k),
        }
    }
}

/// The four hexadecimal digits of a `\u` escape at relative index `from` of a
/// string body that starts at `start` and has `limit` bytes.
pub open spec fn hex4(s: Seq<u8>, start: int, from: int, limit: int) -> Result<int, Fault> {
    if from + 4 > limit {
        Err(Fault::At("incomplete Unicode escape"@, start))
    } else {
        match hex_from(s, start + from, 0, 0) {
            Ok(v) => Ok(v),
            Err(at) => Err(Fault::At("invalid Unicode escape"@, at)),
        }
    }
}

/// How the scan of a string body that starts at `start` ends, seen from
/// relative index `i` on: at the closing quote after `len` bytes (and whether
/// a backslash occurred), at a control byte, or at the end of the input.
pub enum Scanned {
    Closed(int, bool),
    Control(int),
    Unterminated(int),
}

/// The scan of a string body: a backslash skips the byte after it.
pub open spec fn scan_string(s: Seq<u8>, start: int, i: int, escaped: bool) -> Scanned
    decreases s.len() + 2 - (start + i),
{
    let at = start + i;
    if at < 0 || at >= s.len() {
        Scanned::Unterminated(i)
    } else if s[at] == 0x22 {
        Scanned::Closed(i, escaped)
    } else if s[at] == 0x5c {
        scan_string(s, start, i + 2, true)
    } else if s[at] < 0x20 {
        Scanned::Control(i)
    } else {
        scan_string(s, start, i + 1, escaped)
    }
}

/// The byte that a one-character escape stands for, for `"`, `\`, `/`, `b`,
/// `f`, `n`, `r` and `t`.
pub open spec fn simple_escape(e: u8) -> Option<u8> {
    if e == 0x22 || e == 0x5c || e == 0x2f {
        Some(e)
    } else if e == 0x62 {
        Some(8)
    } else if e == 0x66 {
        Some(12)
    } else if e == 0x6e {
        Some(10)
    } else if e == 0x72 {
        Some(13)
    } else if e == 0x74 {
        Some(9)
    } else {
        None
    }
}

/// The scalar of a UTF-16 surrogate pair.
pub open spec fn surrogate_pair(high: int, low: int) -> int {
    0x10000 + (high - 0xd800) * 1024 + (low - 0xdc00)
}

/// `p` put before the bytes of an outcome; a fault stays as it is.
pub open spec fn prefixed(p: Seq<u8>, r: Result<Seq<u8>, Fault>) -> Result<Seq<u8>, Fault> {
    match r {
        Ok(rest) => Ok(p + rest),
        Err(f) => Err(f),
    }
}

/// The decoding of a `\u` escape whose first four digits stand at relative
/// index `next`: the scalar and the index after the escape, or the fault.
/// A high surrogate must be followed by `\u` and a low surrogate.
pub open spec fn unicode_escape(s: Seq<u8>, start: int, len: int, next: int) -> Result<(int, int), Fault> {
    match hex4(s, start, next, len) {
        Err(f) => Err(f),
        Ok(high) => {
            let after = next + 4;
            if 0xd800 <= high <= 0xdbff {
                if peek_at(s, start + after) != Some(0x5cu8) || peek_at(s, start + after + 1) != Some(
                    0x75u8,
                ) {
                    Err(Fault::At("missing low surrogate"@, start + after))
                } else {
                    match hex4(s, start, after + 2, len) {
                        Err(f) => Err(f),
                        Ok(low) => if !(0xdc00 <= low <= 0xdfff) {
                            Err(Fault::At("invalid low surrogate"@, start + after + 2))
                        } else {
                            Ok((surrogate_pair(high, low), after + 6))
                        },
                    }
                }
            } else if 0xdc00 <= high <= 0xdfff {
                Err(Fault::At("invalid Unicode scalar"@, start + next))
            } else {
                Ok((high, after))
            }
        },
    }
}

/// Decoding the escapes of a string body that starts at `start` and has `len`
/// bytes, from relative index `index` on: the decoded bytes, or the first fault.
pub open spec fn unescape(s: Seq<u8>, start: int, len: int, index: int) -> Result<Seq<u8>, Fault>
    decreases len + 2 - index,
{
    if index >= len {
        Ok(seq![])
    } else {
        let b = s[start + index];
        if b != 0x5c {
            if b < 0x20 {
                Err(Fault::At("control character in JSON string"@, start + index))
            } else {
                prefixed(seq![b], unescape(s, start, len, index + 1))
            }
        } else {
            match peek_at(s, start + index + 1) {
                None => Err(Fault::At("incomplete escape"@, start)),
                Some(e) => if e == 0x75 {
                    match unicode_escape(s, start, len, index + 2) {
                        Err(f) => Err(f),
                        Ok((code, after)) => prefixed(
                            encode_scalar(code as u32),
                            unescape(s, start, len, after),
                        ),
                    }
                } else {
                    match simple_escape(e) {
                        Some(d) => prefixed(seq![d], unescape(s, start, len, index + 2)),
                        None => Err(Fault::At("invalid JSON escape"@, start + index + 1)),
                    }
                },
            }
        }
    }
}

/// A JSON string whose opening quote is at `q`: its value as UTF-8 bytes and
/// the position after its closing quote, or the fault that rejects it.
pub open spec fn string_at(s: Seq<u8>, q: int) -> Result<(Seq<u8>, int), Fault> {
    let start = q + 1;
    match scan_string(s, start, 0, false) {
        Scanned::Unterminated(i) => Err(Fault::At("unterminated JSON string"@, start + i)),
        Scanned::Control(i) => Err(Fault::At("control character in JSON string"@, start + i)),
        Scanned::Closed(len, escaped) => {
            let value = if escaped {
                unescape(s, start, len, 0)
            } else {
                Ok(s.subrange(start, start + len))
            };
            match value {
                Err(f) => Err(f),
                Ok(bytes) => if valid_utf8(bytes) {
                    Ok((bytes, start + len + 1))
                } else {
                    Err(Fault::Message(start))
                },
            }
        },
    }
}

/// The message of a missing byte: `expected '<byte>'`, with the byte read
/// as the character of the same number.
pub open spec fn expected_message(b: u8) -> Seq<char> {
    "expected '"@ + seq![b as char] + "'"@
}

/// Expecting the byte `b` after optional whitespace from `p`: the position
/// after it, or the fault at the first byte that is not whitespace.
pub open spec fn expect_at(s: Seq<u8>, p: int, b: u8) -> Result<int, Fault> {
    let q = skip_whitespace(s, p);
    if peek_at(s, q) == Some(b) {
        Ok(q + 1)
    } else {
        Err(Fault::At(expected_message(b), q))
    }
}

/// The bytes of `lit` stand at position `q` of the input.
pub open spec fn literal_at(s: Seq<u8>, q: int, lit: Seq<u8>) -> bool {
    0 <= q && q + lit.len() <= s.len() && s.subrange(q, q + lit.len()) == lit
}

/// The bytes of `true`.
pub open spec fn true_bytes() -> Seq<u8> {
    seq![0x74u8, 0x72u8, 0x75u8, 0x65u8]
}

/// The bytes of `false`.
pub open spec fn false_bytes() -> Seq<u8> {
    seq![0x66u8, 0x61u8, 0x6cu8, 0x73u8, 0x65u8]
}

/// The bytes of `null`.
pub open spec fn null_bytes() -> Seq<u8> {
    seq![0x6eu8, 0x75u8, 0x6cu8, 0x6cu8]
}

/// Skipping whitespace twice is skipping it once.
pub proof fn lemma_skip_whitespace_twice(s: Seq<u8>, p: int)
    ensures
        skip_whitespace(s, skip_whitespace(s, p)) == skip_whitespace(s, p),
        skip_whitespace(s, p) >= p,
        skip_whitespace(s, p) > p ==> 0 <= p,
    decreases s.len() - p,
{
    if 0 <= p < s.len() && is_whitespace(s[p]) {
        lemma_skip_whitespace_twice(s, p + 1);
    }
}

/// A JSON string after optional whitespace from `p`: its value as UTF-8
/// bytes and the position after it, or the fault that rejects it.
pub open spec fn string_from(s: Seq<u8>, p: int) -> Result<(Seq<u8>, int), Fault> {
    let q = skip_whitespace(s, p);
    if peek_at(s, q) != Some(0x22u8) {
        Err(Fault::At(expected_message(0x22), q))
    } else {
        string_at(s, q)
    }
}

/// Where the cursor stands when a string from `p` is rejected: at the first
/// byte that is not whitespace, or after it when that byte is the opening quote.
pub open spec fn string_stop(s: Seq<u8>, p: int) -> int {
    let q = skip_whitespace(s, p);
    if peek_at(s, q) != Some(0x22u8) {
        q
    } else {
        q + 1
    }
}

/// A scan from relative index `i` that closes, closes at or after `i`.
pub proof fn lemma_scan_from(s: Seq<u8>, start: int, i: int, escaped: bool)
    ensures
        scan_string(s, start, i, escaped) matches Scanned::Closed(len, _) ==> len >= i && 0
            <= start + len < s.len() && s[start + len] == 0x22,
    decreases s.len() + 2 - (start + i),
{
    let at = start + i;
    if 0 <= at < s.len() && s[at] != 0x22 {
        if s[at] == 0x5c {
            lemma_scan_from(s, start, i + 2, true);
        } else if s[at] >= 0x20 {
            lemma_scan_from(s, start, i + 1, escaped);
        }
    }
}

/// A scan that has met a backslash closes as escaped, if it closes.
pub proof fn lemma_scan_escaped(s: Seq<u8>, start: int, i: int)
    ensures
        !(scan_string(s, start, i, true) matches Scanned::Closed(_, false)),
    decreases s.len() + 2 - (start + i),
{
    let at = start + i;
    if 0 <= at < s.len() && s[at] != 0x22 {
        if s[at] == 0x5c {
            lemma_scan_escaped(s, start, i + 2);
        } else if s[at] >= 0x20 {
            lemma_scan_escaped(s, start, i + 1);
        }
    }
}

} // verus!
