//! Properties of JSON tokens that hold for every input: which bytes a number
//! token spans, how hexadecimal digits read, where structural bytes are found,
//! and which strings are single characters.
use vstd::prelude::*;
use vstd::utf8::{
    char_is_scalar, decode_utf8, encode_scalar, encode_utf8, encode_utf8_decode_utf8,
    encode_utf8_valid_utf8, is_scalar,
};
use crate::access::char_from;
use crate::grammar::{
    expect_at, hex_digit, hex_from, is_whitespace, lemma_skip_whitespace_twice, number_run,
    scan_string, skip_whitespace, string_from, unescape, Scanned,
};
use crate::laws::{
    is_plain, json_escape, law_escaped_scalar_reads_back, law_plain_string_reads_back, lemma_digits,
    lemma_encode_scalar_valid,
};

verus! {

/// The number of bytes counted from any position is never negative.
proof fn lemma_number_run_nonnegative(s: Seq<u8>, p: int)
    ensures
        number_run(s, p) >= 0,
    decreases s.len() - p,
{
    if 0 <= p < s.len() {
        lemma_number_run_nonnegative(s, p + 1);
    }
}

/// A number token runs over every digit, sign, decimal point and exponent
/// mark, `e` and `E` alike: from a position where `k` such bytes stand, the
/// token holds at least those `k` bytes, and exactly those when the next byte
/// is none of them or the input ends.
pub proof fn law_number_token_bytes(s: Seq<u8>, p: int, k: int)
    requires
        0 <= p,
        0 <= k,
        p + k <= s.len(),
        forall|i: int|
            p <= i < p + k ==> (0x30 <= #[trigger] s[i] <= 0x39) || s[i] == 0x2d || s[i] == 0x2b
                || s[i] == 0x2e || s[i] == 0x65 || s[i] == 0x45,
    ensures
        number_run(s, p) >= k,
        (p + k == s.len() || !((0x30 <= s[p + k] <= 0x39) || s[p + k] == 0x2d || s[p + k] == 0x2b
            || s[p + k] == 0x2e || s[p + k] == 0x65 || s[p + k] == 0x45)) ==> number_run(s, p) == k,
    decreases k,
{
    if k > 0 {
        assert((0x30 <= s[p] <= 0x39) || s[p] == 0x2d || s[p] == 0x2b || s[p] == 0x2e || s[p]
            == 0x65 || s[p] == 0x45);
        law_number_token_bytes(s, p + 1, k - 1);
    } else {
        lemma_number_run_nonnegative(s, p);
    }
}

/// Hexadecimal digits do not depend on case: each of `A` to `F` has the value
/// of its lower-case letter, ten to fifteen.
pub proof fn law_hex_digits_ignore_case(b: u8)
    requires
        0x41 <= b <= 0x46,
    ensures
        hex_digit(b) == hex_digit((b + 0x20) as u8),
        hex_digit(b) == Some(b - 0x41 + 10),
{
}

/// The upper-case hexadecimal digit of a value below sixteen.
pub open spec fn hex_char_upper(v: int) -> u8 {
    if v < 10 {
        (0x30 + v) as u8
    } else {
        (0x41 + v - 10) as u8
    }
}

/// A `\u` escape spelled with upper-case hexadecimal digits.
pub open spec fn u_escape_upper(v: int) -> Seq<u8> {
    seq![
        0x5cu8,
        0x75u8,
        hex_char_upper(v / 4096),
        hex_char_upper((v / 256) % 16),
        hex_char_upper((v / 16) % 16),
        hex_char_upper(v % 16),
    ]
}

proof fn lemma_hex_char_upper(v: int)
    requires
        0 <= v < 16,
    ensures
        hex_digit(hex_char_upper(v)) == Some(v),
        hex_char_upper(v) != 0x22 && hex_char_upper(v) != 0x5c && hex_char_upper(v) >= 0x20,
{
}

/// A `\u` escape of a character below 0x10000 that is spelled with upper-case
/// digits reads back as that character, as the lower-case spelling does.
pub proof fn law_upper_case_escape_reads_back(code: u32)
    requires
        is_scalar(code),
        code < 0x10000,
    ensures
        string_from(seq![0x22u8] + u_escape_upper(code as int) + seq![0x22u8], 0) == Ok::<
            (Seq<u8>, int),
            crate::error::Fault,
        >((encode_scalar(code), 8int)),
        string_from(seq![0x22u8] + u_escape_upper(code as int) + seq![0x22u8], 0) == string_from(
            seq![0x22u8] + json_escape(code as int) + seq![0x22u8],
            0,
        ),
{
    let v = code as int;
    let doc = seq![0x22u8] + u_escape_upper(v) + seq![0x22u8];
    assert(skip_whitespace(doc, 0) == 0);
    lemma_encode_scalar_valid(code);
    lemma_digits(v);
    lemma_hex_char_upper(v / 4096);
    lemma_hex_char_upper((v / 256) % 16);
    lemma_hex_char_upper((v / 16) % 16);
    lemma_hex_char_upper(v % 16);
    reveal_with_fuel(scan_string, 8);
    assert(scan_string(doc, 1, 0, false) == Scanned::Closed(6, true));
    assert(doc[3] == hex_char_upper(v / 4096));
    assert(doc[4] == hex_char_upper((v / 256) % 16));
    assert(doc[5] == hex_char_upper((v / 16) % 16));
    assert(doc[6] == hex_char_upper(v % 16));
    reveal_with_fuel(hex_from, 5);
    assert(hex_from(doc, 3, 0, 0) == Ok::<int, int>(v));
    assert(unescape(doc, 1, 6, 6) == Ok::<Seq<u8>, crate::error::Fault>(Seq::<u8>::empty()));
    assert(encode_scalar(code) + Seq::<u8>::empty() =~= encode_scalar(code));
    assert(unescape(doc, 1, 6, 0) == Ok::<Seq<u8>, crate::error::Fault>(encode_scalar(code)));
    law_escaped_scalar_reads_back(code);
}

/// Whitespace before a structural byte never matters, whichever byte it is:
/// expecting `b` from `p` is expecting it after the whitespace at `p`.
pub proof fn law_expect_skips_whitespace(s: Seq<u8>, p: int, b: u8)
    ensures
        expect_at(s, p, b) == expect_at(s, skip_whitespace(s, p), b),
{
    lemma_skip_whitespace_twice(s, p);
}

/// From `p`, the whitespace up to `q` is skipped.
proof fn lemma_skip_to(s: Seq<u8>, p: int, q: int)
    requires
        0 <= p <= q <= s.len(),
        q < s.len() ==> !is_whitespace(s[q]),
        forall|i: int| p <= i < q ==> is_whitespace(#[trigger] s[i]),
    ensures
        skip_whitespace(s, p) == q,
    decreases q - p,
{
    if p < q {
        assert(is_whitespace(s[p]));
        lemma_skip_to(s, p + 1, q);
    }
}

/// A structural byte that follows spaces, line feeds, carriage returns and
/// tabs is found after them, whichever byte it is: a closing bracket or brace
/// may stand after whitespace as any other.
pub proof fn law_expect_after_whitespace(s: Seq<u8>, p: int, q: int, b: u8)
    requires
        0 <= p <= q < s.len(),
        s[q] == b,
        b != 0x20 && b != 0x0a && b != 0x0d && b != 0x09,
        forall|i: int|
            p <= i < q ==> #[trigger] s[i] == 0x20 || s[i] == 0x0a || s[i] == 0x0d || s[i] == 0x09,
    ensures
        expect_at(s, p, b) == Ok::<int, crate::error::Fault>(q + 1),
{
    assert forall|i: int| p <= i < q implies is_whitespace(#[trigger] s[i]) by {}
    lemma_skip_to(s, p, q);
}

/// Every character reads back from its JSON escape as a string of exactly
/// that one character.
pub proof fn law_escaped_char_reads_back(c: char)
    ensures
        char_from(seq![0x22u8] + json_escape(c as u32 as int) + seq![0x22u8], 0) == Ok::<
            (char, int),
            crate::error::Fault,
        >((c, json_escape(c as u32 as int).len() + 2int)),
{
    let code = c as u32;
    broadcast use char_is_scalar;
    assert(is_scalar(code));
    law_escaped_scalar_reads_back(code);
    reveal_with_fuel(encode_utf8, 2);
    assert(seq![c].drop_first() =~= Seq::<char>::empty());
    assert(encode_utf8(seq![c]) =~= encode_scalar(code) + Seq::<u8>::empty());
    assert(encode_scalar(code) + Seq::<u8>::empty() =~= encode_scalar(code));
    encode_utf8_decode_utf8(seq![c]);
    assert(decode_utf8(encode_scalar(code)) =~= seq![c]);
}

/// A string of one printable ASCII character other than a quote or a
/// backslash reads back as that character.
pub proof fn law_plain_char_reads_back(b: u8)
    requires
        0x20 <= b < 0x80,
        b != 0x22,
        b != 0x5c,
    ensures
        char_from(seq![0x22u8, b, 0x22u8], 0) == Ok::<(char, int), crate::error::Fault>(
            (b as char, 3int),
        ),
{
    let c = b as char;
    let u = b as u32;
    assert(c as u32 == u);
    assert((u & 0x7F) as u8 == b) by (bit_vector)
        requires
            u == b as u32,
            b < 0x80,
    ;
    reveal_with_fuel(encode_utf8, 2);
    assert(seq![c].drop_first() =~= Seq::<char>::empty());
    assert(encode_utf8(seq![c]) =~= seq![b]);
    encode_utf8_valid_utf8(seq![c]);
    encode_utf8_decode_utf8(seq![c]);
    law_plain_string_reads_back(seq![b]);
    assert(seq![0x22u8] + seq![b] + seq![0x22u8] =~= seq![0x22u8, b, 0x22u8]);
}

/// Setting the top bit of a byte, with or without the bits below it, gives a
/// byte of at least 0x80.
proof fn lemma_high_bytes(x: u8)
    ensures
        (0x80u8 | x) >= 0x80,
        (0xC0u8 | x) >= 0x80,
        (0xE0u8 | x) >= 0x80,
        (0xF0u8 | x) >= 0x80,
{
    assert((0x80u8 | x) >= 0x80) by (bit_vector);
    assert((0xC0u8 | x) >= 0x80) by (bit_vector);
    assert((0xE0u8 | x) >= 0x80) by (bit_vector);
    assert((0xF0u8 | x) >= 0x80) by (bit_vector);
}

/// A string that holds one character as it is, any character but a quote, a
/// backslash or a control character, reads back as that character.
pub proof fn law_unescaped_char_reads_back(c: char)
    requires
        c != '"',
        c != '\\',
        c as u32 >= 0x20,
    ensures
        char_from(seq![0x22u8] + encode_utf8(seq![c]) + seq![0x22u8], 0) == Ok::<
            (char, int),
            crate::error::Fault,
        >((c, encode_utf8(seq![c]).len() + 2int)),
{
    let u = c as u32;
    broadcast use char_is_scalar;
    reveal_with_fuel(encode_utf8, 2);
    assert(seq![c].drop_first() =~= Seq::<char>::empty());
    assert(encode_utf8(seq![c]) =~= encode_scalar(u));
    let t = encode_scalar(u);
    if u < 0x80 {
        assert((u & 0x7F) as u8 == u) by (bit_vector)
            requires
                u < 0x80,
        ;
        assert(t[0] == u);
        assert(is_plain(t[0]));
    } else {
        lemma_high_bytes(((u >> 6) & 0x1F) as u8);
        lemma_high_bytes(((u >> 12) & 0x0F) as u8);
        lemma_high_bytes(((u >> 18) & 0x7) as u8);
        lemma_high_bytes((u & 0x3F) as u8);
        lemma_high_bytes(((u >> 6) & 0x3F) as u8);
        lemma_high_bytes(((u >> 12) & 0x3F) as u8);
    }
    assert forall|k: int| 0 <= k < t.len() implies is_plain(#[trigger] t[k]) by {}
    encode_utf8_valid_utf8(seq![c]);
    encode_utf8_decode_utf8(seq![c]);
    law_plain_string_reads_back(t);
}

} // verus!
