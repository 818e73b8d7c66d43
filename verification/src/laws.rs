//! Properties of JSON strings that hold for every input.
use vstd::prelude::*;
use vstd::utf8::{encode_scalar, encode_utf8, encode_utf8_valid_utf8, is_scalar, valid_utf8};
use crate::grammar::{
    hex_digit, hex_from, lemma_scan_escaped, lemma_scan_from, peek_at, scan_string,
    skip_whitespace, string_at, string_from, surrogate_pair, unescape, unicode_escape, Scanned,
};

verus! {

/// The UTF-8 encoding of a scalar has at most four bytes, and at most three
/// when the scalar is below 0x10000.
proof fn lemma_encode_scalar_len(code: u32)
    ensures
        encode_scalar(code).len() <= 4,
        code < 0x10000 && !(0xd800 <= code <= 0xdfff) ==> encode_scalar(code).len() <= 3,
{
}

/// Decoding the escapes of a string body never gives more bytes than the body
/// has: the output always fits an allocation of the body's length.
pub proof fn law_decoded_fits_body(s: Seq<u8>, start: int, len: int, index: int)
    requires
        0 <= index,
    ensures
        unescape(s, start, len, index) matches Ok(d) ==> d.len() + index <= len || (index >= len
            && d.len() == 0),
    decreases len + 2 - index,
{
    if index < len {
        let b = s[start + index];
        if b != 0x5c {
            law_decoded_fits_body(s, start, len, index + 1);
        } else {
            match peek_at(s, start + index + 1) {
                None => {},
                Some(e) => {
                    if e == 0x75 {
                        if let Ok((code, after)) = unicode_escape(s, start, len, index + 2) {
                            lemma_encode_scalar_len(code as u32);
                            law_decoded_fits_body(s, start, len, after);
                        }
                    } else {
                        law_decoded_fits_body(s, start, len, index + 2);
                    }
                },
            }
        }
    }
}

/// A byte that may stand in a string as it is: no quote, no backslash, no
/// control byte.
pub open spec fn is_plain(b: u8) -> bool {
    b != 0x22 && b != 0x5c && b >= 0x20
}

proof fn lemma_scan_plain(s: Seq<u8>, start: int, i: int, n: int)
    requires
        0 <= start,
        0 <= i <= n,
        start + n < s.len(),
        s[start + n] == 0x22,
        forall|k: int| start + i <= k < start + n ==> is_plain(#[trigger] s[k]),
    ensures
        scan_string(s, start, i, false) == Scanned::Closed(n, false),
    decreases n - i,
{
    if i < n {
        assert(is_plain(s[start + i]));
        lemma_scan_plain(s, start, i + 1, n);
    }
}

/// A document that is a quote, bytes without quotes, backslashes or control
/// bytes that form valid UTF-8, and a quote, reads back as those bytes,
/// borrowed as they are, and the cursor stops after the closing quote.
pub proof fn law_plain_string_reads_back(t: Seq<u8>)
    requires
        valid_utf8(t),
        forall|k: int| 0 <= k < t.len() ==> is_plain(#[trigger] t[k]),
    ensures
        string_from(seq![0x22u8] + t + seq![0x22u8], 0) == Ok::<(Seq<u8>, int), crate::error::Fault>((t, t.len() + 2int)),
{
    let s = seq![0x22u8] + t + seq![0x22u8];
    assert(skip_whitespace(s, 0) == 0);
    assert forall|k: int| 1 <= k < 1 + t.len() implies is_plain(#[trigger] s[k]) by {
        assert(s[k] == t[k - 1]);
    }
    lemma_scan_plain(s, 1, 0, t.len() as int);
    assert(s.subrange(1, 1 + t.len() as int) =~= t);
}

/// The value of a string never depends on how it is stored: when the scan of
/// a body finds no backslash, decoding its escapes gives the body itself.
pub proof fn law_unescaped_body_is_its_value(s: Seq<u8>, start: int, i: int)
    requires
        0 <= start,
        0 <= i,
        scan_string(s, start, i, false) matches Scanned::Closed(_, false),
    ensures
        ({
            let len = scan_string(s, start, i, false)->Closed_0;
            unescape(s, start, len, i) == Ok::<Seq<u8>, crate::error::Fault>(
                s.subrange(start + i, start + len),
            )
        }),
    decreases s.len() + 2 - (start + i),
{
    let len = scan_string(s, start, i, false)->Closed_0;
    let at = start + i;
    lemma_scan_from(s, start, i, false);
    if s[at] == 0x5c {
        lemma_scan_escaped(s, start, i + 2);
    }
    if s[at] == 0x22 {
        assert(s.subrange(start + i, start + len) =~= Seq::<u8>::empty());
    } else {
        law_unescaped_body_is_its_value(s, start, i + 1);
        lemma_scan_from(s, start, i + 1, false);
        assert(s.subrange(start + i, start + len) =~= seq![s[at]] + s.subrange(
            start + i + 1,
            start + len,
        ));
    }
}

/// Every string that reads successfully has as its value the decoding of the
/// escapes of its body, whether the body is borrowed or decoded.
pub proof fn law_string_value_is_unescaped_body(s: Seq<u8>, q: int)
    requires
        0 <= q,
        string_at(s, q) is Ok,
    ensures
        ({
            let len = scan_string(s, q + 1, 0, false)->Closed_0;
            &&& scan_string(s, q + 1, 0, false) is Closed
            &&& unescape(s, q + 1, len, 0) == Ok::<Seq<u8>, crate::error::Fault>(
                string_at(s, q)->Ok_0.0,
            )
            &&& string_at(s, q)->Ok_0.1 == q + 1 + len + 1
        }),
{
    if let Scanned::Closed(len, escaped) = scan_string(s, q + 1, 0, false) {
        if !escaped {
            law_unescaped_body_is_its_value(s, q + 1, 0);
        }
    }
}

/// The lower-case hexadecimal digit of a value below sixteen.
pub open spec fn hex_char(v: int) -> u8 {
    if v < 10 {
        (0x30 + v) as u8
    } else {
        (0x61 + v - 10) as u8
    }
}

/// A `\u` escape: a backslash, `u`, and the four hexadecimal digits of a
/// value below 0x10000.
pub open spec fn u_escape(v: int) -> Seq<u8> {
    seq![
        0x5cu8,
        0x75u8,
        hex_char(v / 4096),
        hex_char((v / 256) % 16),
        hex_char((v / 16) % 16),
        hex_char(v % 16),
    ]
}

/// The JSON escape of a Unicode scalar: one `\u` escape below 0x10000, a
/// UTF-16 surrogate pair of them above.
pub open spec fn json_escape(code: int) -> Seq<u8> {
    if code < 0x10000 {
        u_escape(code)
    } else {
        u_escape(0xd800 + (code - 0x10000) / 1024) + u_escape(0xdc00 + (code - 0x10000) % 1024)
    }
}

proof fn lemma_hex_char(v: int)
    requires
        0 <= v < 16,
    ensures
        hex_digit(hex_char(v)) == Some(v),
        hex_char(v) != 0x22 && hex_char(v) != 0x5c && hex_char(v) >= 0x20,
{
}

pub(crate) proof fn lemma_digits(v: int)
    requires
        0 <= v < 0x10000,
    ensures
        ((((v / 4096) * 16 + (v / 256) % 16) * 16 + (v / 16) % 16) * 16 + v % 16) == v,
        0 <= v / 4096 < 16,
        0 <= (v / 256) % 16 < 16,
        0 <= (v / 16) % 16 < 16,
        0 <= v % 16 < 16,
{
    assert((v / 4096) * 16 + (v / 256) % 16 == v / 256) by (nonlinear_arith)
        requires
            0 <= v,
    {
        assert(v / 4096 == (v / 256) / 16) by (nonlinear_arith)
            requires
                0 <= v,
        ;
    }
    assert((v / 256) * 16 + (v / 16) % 16 == v / 16) by (nonlinear_arith)
        requires
            0 <= v,
    {
        assert(v / 256 == (v / 16) / 16) by (nonlinear_arith)
            requires
                0 <= v,
        ;
    }
    assert((v / 16) * 16 + v % 16 == v) by (nonlinear_arith);
    assert(v / 4096 < 16) by (nonlinear_arith)
        requires
            0 <= v < 0x10000,
    ;
}

/// The four digits of a `\u` escape at position `at` read as its value.
proof fn lemma_hex_of_escape(s: Seq<u8>, at: int, v: int)
    requires
        0 <= v < 0x10000,
        2 <= at,
        at + 4 <= s.len(),
        s.subrange(at - 2, at + 4) == u_escape(v),
    ensures
        hex_from(s, at, 0, 0) == Ok::<int, int>(v),
{
    lemma_digits(v);
    lemma_hex_char(v / 4096);
    lemma_hex_char((v / 256) % 16);
    lemma_hex_char((v / 16) % 16);
    lemma_hex_char(v % 16);
    assert(s[at] == s.subrange(at - 2, at + 4)[2]);
    assert(s[at + 1] == s.subrange(at - 2, at + 4)[3]);
    assert(s[at + 2] == s.subrange(at - 2, at + 4)[4]);
    assert(s[at + 3] == s.subrange(at - 2, at + 4)[5]);
    reveal_with_fuel(hex_from, 5);
}

pub(crate) proof fn lemma_encode_scalar_valid(code: u32)
    requires
        is_scalar(code),
    ensures
        valid_utf8(encode_scalar(code)),
{
    let c = code as char;
    assert(c as u32 == code);
    encode_utf8_valid_utf8(seq![c]);
    assert(seq![c].drop_first() =~= Seq::<char>::empty());
    assert(seq![c][0] == c);
    reveal_with_fuel(encode_utf8, 2);
    assert(encode_utf8(seq![c]) =~= encode_scalar(code) + Seq::<u8>::empty());
}

/// Escaping a Unicode scalar as JSON and reading the escaped string back gives
/// the scalar's UTF-8 encoding: a `\u` escape below 0x10000, and a surrogate
/// pair above it, stand for the character they encode.
pub proof fn law_escaped_scalar_reads_back(code: u32)
    requires
        is_scalar(code),
    ensures
        string_from(seq![0x22u8] + json_escape(code as int) + seq![0x22u8], 0) == Ok::<
            (Seq<u8>, int),
            crate::error::Fault,
        >((encode_scalar(code), json_escape(code as int).len() + 2int)),
{
    let e = json_escape(code as int);
    let doc = seq![0x22u8] + e + seq![0x22u8];
    let n = e.len() as int;
    assert(skip_whitespace(doc, 0) == 0);
    lemma_encode_scalar_valid(code);
    if code < 0x10000 {
        let v = code as int;
        lemma_digits(v);
        lemma_hex_char(v / 4096);
        lemma_hex_char((v / 256) % 16);
        lemma_hex_char((v / 16) % 16);
        lemma_hex_char(v % 16);
        assert(doc.subrange(1, 7) =~= u_escape(v));
        reveal_with_fuel(scan_string, 8);
        assert(scan_string(doc, 1, 0, false) == Scanned::Closed(6, true));
        lemma_hex_of_escape(doc, 3, v);
        assert(unescape(doc, 1, 6, 6) == Ok::<Seq<u8>, crate::error::Fault>(Seq::<u8>::empty()));
        assert(encode_scalar(code) + Seq::<u8>::empty() =~= encode_scalar(code));
        assert(unescape(doc, 1, 6, 0) == Ok::<Seq<u8>, crate::error::Fault>(encode_scalar(code)));
    } else {
        let c = code as int - 0x10000;
        let high = 0xd800 + c / 1024;
        let low = 0xdc00 + c % 1024;
        assert(0 <= c / 1024 < 1024 && 0 <= c % 1024 < 1024 && c / 1024 * 1024 + c % 1024 == c)
            by (nonlinear_arith)
            requires
                0 <= c < 0x100000,
        ;
        lemma_digits(high);
        lemma_hex_char(high / 4096);
        lemma_hex_char((high / 256) % 16);
        lemma_hex_char((high / 16) % 16);
        lemma_hex_char(high % 16);
        lemma_digits(low);
        lemma_hex_char(low / 4096);
        lemma_hex_char((low / 256) % 16);
        lemma_hex_char((low / 16) % 16);
        lemma_hex_char(low % 16);
        assert(doc.subrange(1, 7) =~= u_escape(high));
        assert(doc.subrange(7, 13) =~= u_escape(low));
        reveal_with_fuel(scan_string, 14);
        assert(scan_string(doc, 1, 0, false) == Scanned::Closed(12, true));
        lemma_hex_of_escape(doc, 3, high);
        lemma_hex_of_escape(doc, 9, low);
        assert(surrogate_pair(high, low) == code);
        assert(unescape(doc, 1, 12, 12) == Ok::<Seq<u8>, crate::error::Fault>(Seq::<u8>::empty()));
        assert(encode_scalar(code) + Seq::<u8>::empty() =~= encode_scalar(code));
        assert(unescape(doc, 1, 12, 0) == Ok::<Seq<u8>, crate::error::Fault>(encode_scalar(code)));
    }
}

} // verus!
