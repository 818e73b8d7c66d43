//! Scanning a JSON string body and decoding its escapes.
use vstd::prelude::*;
use vstd::utf8::{encode_scalar, is_scalar};
use brz_io::ReaderView;
use crate::error::{Error, Fault};
use crate::grammar::{
    hex4, hex_digit, hex_from, lemma_scan_from, prefixed, scan_string, unescape,
    unicode_escape, Scanned,
};
use crate::input::{view_bytes, view_len, view_peek_byte};

verus! {

/// Scan the string body that starts at `start` up to its closing quote: its
/// length and whether it holds a backslash.
pub fn scan_body(input: &ReaderView, start: usize) -> (r: Result<(usize, bool), Error>)
    ensures
        match scan_string(view_bytes(*input), start as int, 0, false) {
            Scanned::Closed(len, escaped) => r == Ok::<(usize, bool), Error>((len as usize, escaped))
                && 0 <= len && start + len < view_bytes(*input).len() <= usize::MAX,
            Scanned::Control(i) => r matches Err(e) && e.reports(
                Fault::At("control character in JSON string"@, start + i), Some(0usize)),
            Scanned::Unterminated(i) => r matches Err(e) && e.reports(
                Fault::At("unterminated JSON string"@, start + i), Some(0usize)),
        },
{
    let ghost s = view_bytes(*input);
    let n = view_len(input);
    if start >= n {
        return Err(Error::at("unterminated JSON string", start));
    }
    let mut i: usize = 0;
    let mut escaped = false;
    loop
        invariant
            s == view_bytes(*input),
            n == s.len(),
            start + i < n,
            scan_string(s, start as int, 0, false) == scan_string(s, start as int, i as int, escaped),
        decreases n - (start + i),
    {
        let at = start + i;
        match view_peek_byte(input, at) {
            None => {
                return Err(Error::at("unterminated JSON string", at));
            },
            Some(b) => {
                if b == 0x22 {
                    proof {
                        lemma_scan_from(s, start as int, 0, false);
                    }
                    return Ok((i, escaped));
                } else if b == 0x5c {
                    if n - at <= 2 {
                        proof {
                            reveal_with_fuel(scan_string, 3);
                        }
                        if n - at == 2 {
                            return Err(Error::at("unterminated JSON string", n));
                        }
                        let offset = if n < usize::MAX {
                            n + 1
                        } else {
                            n
                        };
                        return Err(Error::at("unterminated JSON string", offset));
                    }
                    escaped = true;
                    i = i + 2;
                } else if b < 0x20 {
                    return Err(Error::at("control character in JSON string", at));
                } else {
                    i = i + 1;
                    if start + i == n {
                        proof {
                            reveal_with_fuel(scan_string, 2);
                        }
                        return Err(Error::at("unterminated JSON string", n));
                    }
                }
            },
        }
    }
}

/// The value of a hexadecimal digit.
fn hex_value(b: u8) -> (d: Option<u32>)
    ensures
        match hex_digit(b) {
            Some(v) => d == Some(v as u32),
            None => d is None,
        },
{
    if 0x30 <= b && b <= 0x39 {
        Some((b - 0x30) as u32)
    } else if 0x61 <= b && b <= 0x66 {
        Some((b - 0x61 + 10) as u32)
    } else if 0x41 <= b && b <= 0x46 {
        Some((b - 0x41 + 10) as u32)
    } else {
        None
    }
}

/// Read the four hexadecimal digits of a `\u` escape at relative index `from`
/// of the string body that starts at `start` and has `limit` bytes.
pub fn hex(input: &ReaderView, start: usize, from: usize, limit: usize) -> (r: Result<u32, Error>)
    requires
        start + limit < view_bytes(*input).len(),
    ensures
        match hex4(view_bytes(*input), start as int, from as int, limit as int) {
            Ok(v) => r == Ok::<u32, Error>(v as u32) && 0 <= v < 0x10000,
            Err(f) => r matches Err(e) && e.reports(f, Some(0usize)),
        },
{
    let ghost s = view_bytes(*input);
    let n = view_len(input);
    if from > limit || limit - from < 4 {
        return Err(Error::at("incomplete Unicode escape", start));
    }
    let at = start + from;
    let mut value: u32 = 0;
    let mut k: usize = 0;
    while k < 4
        invariant
            s == view_bytes(*input),
            at == start + from,
            from + 4 <= limit,
            start + limit < s.len(),
            n == s.len(),
            k <= 4,
            0 <= value < pow16(k as int),
            hex_from(s, at as int, 0, 0) == hex_from(s, at as int, k as int, value as int),
        decreases 4 - k,
    {
        match view_peek_byte(input, at + k) {
            Some(b) => match hex_value(b) {
                Some(d) => {
                    proof {
                        lemma_pow16_step(k as int, value as int, d as int);
                    }
                    value = value * 16 + d;
                    k = k + 1;
                },
                None => {
                    return Err(Error::at("invalid Unicode escape", at + k));
                },
            },
            None => {
                return Err(Error::at("invalid Unicode escape", at + k));
            },
        }
    }
    proof {
        reveal_with_fuel(pow16, 5);
    }
    Ok(value)
}

/// Sixteen to the power `k`.
pub open spec fn pow16(k: int) -> int
    decreases k,
{
    if k <= 0 {
        1
    } else {
        16 * pow16(k - 1)
    }
}

proof fn lemma_pow16_step(k: int, value: int, d: int)
    requires
        0 <= k < 4,
        0 <= value < pow16(k),
        0 <= d < 16,
    ensures
        0 <= value * 16 + d < pow16(k + 1),
        pow16(k + 1) <= 0x10000,
{
    reveal_with_fuel(pow16, 5);
}

/// Append the UTF-8 encoding of a Unicode scalar.
pub fn push_scalar(out: &mut Vec<u8>, code: u32)
    requires
        is_scalar(code),
    ensures
        final(out)@ == old(out)@ + encode_scalar(code),
{
    if code <= 0x7f {
        out.push((code & 0x7f) as u8);
    } else if code <= 0x7ff {
        out.push(0xc0 | ((code >> 6) & 0x1f) as u8);
        out.push(0x80 | (code & 0x3f) as u8);
    } else if code <= 0xffff {
        out.push(0xe0 | ((code >> 12) & 0x0f) as u8);
        out.push(0x80 | ((code >> 6) & 0x3f) as u8);
        out.push(0x80 | (code & 0x3f) as u8);
    } else {
        out.push(0xf0 | ((code >> 18) & 0x7) as u8);
        out.push(0x80 | ((code >> 12) & 0x3f) as u8);
        out.push(0x80 | ((code >> 6) & 0x3f) as u8);
        out.push(0x80 | (code & 0x3f) as u8);
    }
}

/// The byte at position `i` of the view.
fn view_byte(input: &ReaderView, i: usize) -> (b: u8)
    requires
        i < view_bytes(*input).len(),
    ensures
        b == view_bytes(*input)[i as int],
{
    match view_peek_byte(input, i) {
        Some(b) => b,
        None => 0,
    }
}

/// Decode a `\u` escape whose digits start at relative index `next` of the
/// string body at `start` with `len` bytes: the scalar and the index after it.
fn unicode(input: &ReaderView, start: usize, len: usize, next: usize) -> (r: Result<(u32, usize), Error>)
    requires
        start + len < view_bytes(*input).len(),
    ensures
        match unicode_escape(view_bytes(*input), start as int, len as int, next as int) {
            Ok((code, after)) => r == Ok::<(u32, usize), Error>((code as u32, after as usize))
                && is_scalar(code as u32) && 0 <= code && after <= len && next + 4 <= after,
            Err(f) => r matches Err(e) && e.reports(f, Some(0usize)),
        },
{
    let high = match hex(input, start, next, len) {
        Ok(v) => v,
        Err(e) => return Err(e),
    };
    let _n = view_len(input);
    let after = next + 4;
    if 0xd800 <= high && high <= 0xdbff {
        if view_peek_byte(input, start + after) != Some(0x5cu8) || view_peek_byte(
            input,
            start + after + 1,
        ) != Some(0x75u8) {
            return Err(Error::at("missing low surrogate", start + after));
        }
        let low = match hex(input, start, after + 2, len) {
            Ok(v) => v,
            Err(e) => return Err(e),
        };
        if !(0xdc00 <= low && low <= 0xdfff) {
            return Err(Error::at("invalid low surrogate", start + after + 2));
        }
        Ok((0x10000 + (high - 0xd800) * 1024 + (low - 0xdc00), after + 6))
    } else if 0xdc00 <= high && high <= 0xdfff {
        Err(Error::at("invalid Unicode scalar", start + next))
    } else {
        Ok((high, after))
    }
}

proof fn lemma_prefixed(p: Seq<u8>, c: Seq<u8>, r: Result<Seq<u8>, Fault>)
    ensures
        prefixed(p, prefixed(c, r)) == prefixed(p + c, r),
{
    if let Ok(rest) = r {
        assert(p + (c + rest) =~= (p + c) + rest);
    }
}

/// Decode the escapes of the string body at `start` with `len` bytes.
pub fn decode_escapes(input: &ReaderView, start: usize, len: usize) -> (r: Result<Vec<u8>, Error>)
    requires
        start + len < view_bytes(*input).len(),
    ensures
        match unescape(view_bytes(*input), start as int, len as int, 0) {
            Ok(bytes) => r matches Ok(v) && v@ == bytes,
            Err(f) => r matches Err(e) && e.reports(f, Some(0usize)),
        },
{
    let ghost s = view_bytes(*input);
    let n = view_len(input);
    let mut out: Vec<u8> = Vec::new();
    let mut index: usize = 0;
    proof {
        assert(prefixed(out@, unescape(s, start as int, len as int, 0)) == unescape(s, start as int, len as int, 0)) by {
            if let Ok(rest) = unescape(s, start as int, len as int, 0) {
                assert(out@ + rest =~= rest);
            }
        }
    }
    while index < len
        invariant
            s == view_bytes(*input),
            n == s.len(),
            start + len < n,
            index <= len + 1,
            unescape(s, start as int, len as int, 0) == prefixed(
                out@,
                unescape(s, start as int, len as int, index as int),
            ),
        decreases len + 2 - index,
    {
        let ghost before = out@;
        let ghost i0 = index as int;
        let b = view_byte(input, start + index);
        index = index + 1;
        if b != 0x5c {
            if b < 0x20 {
                return Err(Error::at("control character in JSON string", start + index - 1));
            }
            out.push(b);
            proof {
                assert(out@ =~= before + seq![b]);
                assert(unescape(s, start as int, len as int, i0) == prefixed(seq![b], unescape(s, start as int, len as int, index as int)));
                lemma_prefixed(before, seq![b], unescape(s, start as int, len as int, index as int));
            }
        } else {
            let e = match view_peek_byte(input, start + index) {
                Some(e) => e,
                None => return Err(Error::at("incomplete escape", start)),
            };
            index = index + 1;
            if e == 0x75 {
                match unicode(input, start, len, index) {
                    Ok((code, after)) => {
                        push_scalar(&mut out, code);
                        index = after;
                        proof {
                            assert(unescape(s, start as int, len as int, i0) == prefixed(encode_scalar(code), unescape(s, start as int, len as int, index as int)));
                            lemma_prefixed(
                                before,
                                encode_scalar(code),
                                unescape(s, start as int, len as int, index as int),
                            );
                        }
                    },
                    Err(err) => return Err(err),
                }
            } else {
                let d = if e == 0x22 || e == 0x5c || e == 0x2f {
                    e
                } else if e == 0x62 {
                    8u8
                } else if e == 0x66 {
                    12u8
                } else if e == 0x6e {
                    10u8
                } else if e == 0x72 {
                    13u8
                } else if e == 0x74 {
                    9u8
                } else {
                    return Err(Error::at("invalid JSON escape", start + index - 1));
                };
                out.push(d);
                proof {
                    assert(out@ =~= before + seq![d]);
                    assert(unescape(s, start as int, len as int, i0) == prefixed(seq![d], unescape(s, start as int, len as int, index as int)));
                    lemma_prefixed(before, seq![d], unescape(s, start as int, len as int, index as int));
                }
            }
        }
    }
    proof {
        assert(out@ + Seq::<u8>::empty() =~= out@);
    }
    Ok(out)
}

} // verus!
