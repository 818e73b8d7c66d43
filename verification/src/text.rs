//! Texts of messages: decimal byte offsets and expected bytes.
use vstd::prelude::*;
use vstd::string::StringSliceAdditionalSpecFns;
use vstd::utf8::{
    encode_scalar, encode_utf8, encode_utf8_decode_utf8, has_width_1_encoding,
    leading_byte_width_1, partial_valid_utf8_extend_ascii_block,
};
use vstd::string::StringExecFns;
use vstd::utf8::{encode_utf8_valid_utf8, is_scalar};
use crate::grammar::expected_message;
use crate::input::str_from_utf8;
use crate::unescape::push_scalar;

verus! {

/// The decimal digits of `n`, most significant first, without leading zeros.
pub open spec fn decimal(n: nat) -> Seq<char>
    decreases n,
{
    if n < 10 {
        seq![(n + 48) as char]
    } else {
        decimal(n / 10) + seq![((n % 10) + 48) as char]
    }
}

/// The ASCII bytes of the decimal digits of `n`.
pub open spec fn decimal_bytes(n: nat) -> Seq<u8>
    decreases n,
{
    if n < 10 {
        seq![(n + 48) as u8]
    } else {
        decimal_bytes(n / 10) + seq![((n % 10) + 48) as u8]
    }
}

proof fn lemma_encode_utf8_append(a: Seq<char>, b: Seq<char>)
    ensures
        encode_utf8(a + b) == encode_utf8(a) + encode_utf8(b),
    decreases a.len(),
{
    if a.len() == 0 {
        assert(a + b =~= b);
        assert(encode_utf8(a) + encode_utf8(b) =~= encode_utf8(b));
    } else {
        assert((a + b).drop_first() =~= a.drop_first() + b);
        lemma_encode_utf8_append(a.drop_first(), b);
        assert(encode_utf8(a + b) =~= encode_utf8(a) + encode_utf8(b));
    }
}

proof fn lemma_digit(d: nat)
    requires
        d < 10,
    ensures
        encode_utf8(seq![(d + 48) as char]) == seq![(d + 48) as u8],
{
    let c = (d + 48) as char;
    let u = (d + 48) as u32;
    assert(c as u32 == u);
    assert(has_width_1_encoding(u));
    assert(u & 0x7f == u) by (bit_vector)
        requires
            u < 128,
    ;
    assert(leading_byte_width_1(u) == (d + 48) as u8);
    assert(encode_scalar(u) == seq![(d + 48) as u8]);
    assert(seq![c].drop_first() =~= Seq::<char>::empty());
    assert(encode_utf8(seq![c]) =~= encode_scalar(u) + encode_utf8(Seq::<char>::empty()));
}

proof fn lemma_decimal_bytes(n: nat)
    ensures
        encode_utf8(decimal(n)) == decimal_bytes(n),
        forall|i: int| 0 <= i < decimal_bytes(n).len() ==> #[trigger] decimal_bytes(n)[i] < 0x80,
    decreases n,
{
    if n < 10 {
        lemma_digit(n);
    } else {
        lemma_decimal_bytes(n / 10);
        lemma_digit(n % 10);
        lemma_encode_utf8_append(decimal(n / 10), seq![((n % 10) + 48) as char]);
    }
}

/// Append the ASCII decimal digits of `n`.
fn push_decimal(out: &mut Vec<u8>, n: usize)
    ensures
        final(out)@ == old(out)@ + decimal_bytes(n as nat),
    decreases n,
{
    if n >= 10 {
        push_decimal(out, n / 10);
    }
    let ghost before = out@;
    out.push((n % 10) as u8 + 48);
    proof {
        if n >= 10 {
            assert(out@ =~= old(out)@ + decimal_bytes(n as nat));
        } else {
            assert(out@ =~= old(out)@ + decimal_bytes(n as nat));
        }
    }
}

/// The decimal text of `n`.
pub fn decimal_string(n: usize) -> (t: String)
    ensures
        t@ == decimal(n as nat),
{
    let mut digits: Vec<u8> = Vec::new();
    push_decimal(&mut digits, n);
    proof {
        assert(digits@ =~= decimal_bytes(n as nat));
        lemma_decimal_bytes(n as nat);
        partial_valid_utf8_extend_ascii_block(digits@, 0, digits@.len() as int);
        assert(digits@.subrange(0, 0) =~= Seq::<u8>::empty());
        assert(digits@.subrange(0, digits@.len() as int) =~= digits@);
    }
    match str_from_utf8(digits.as_slice()) {
        Ok(text) => {
            proof {
                encode_utf8_decode_utf8(text@);
                encode_utf8_decode_utf8(decimal(n as nat));
            }
            text.to_owned()
        },
        Err(_) => String::new(),
    }
}

proof fn lemma_char_bytes(b: u8)
    ensures
        is_scalar(b as u32),
        encode_utf8(seq![b as char]) == encode_scalar(b as u32),
{
    let c = b as char;
    assert(c as u32 == b as u32);
    assert(seq![c].drop_first() =~= Seq::<char>::empty());
    assert(seq![c][0] == c);
    reveal_with_fuel(encode_utf8, 2);
    assert(encode_utf8(seq![c]) =~= encode_scalar(b as u32) + Seq::<u8>::empty());
}

/// The message of a missing byte: `expected '<byte>'`, with the byte read as
/// the character of the same number.
pub fn expected_text(b: u8) -> (m: String)
    ensures
        m@ == expected_message(b),
{
    let mut bytes: Vec<u8> = Vec::new();
    proof {
        lemma_char_bytes(b);
    }
    push_scalar(&mut bytes, b as u32);
    proof {
        assert(bytes@ =~= encode_scalar(b as u32));
        encode_utf8_valid_utf8(seq![b as char]);
    }
    let mut message = String::from_str("expected '");
    match str_from_utf8(bytes.as_slice()) {
        Ok(character) => {
            proof {
                encode_utf8_decode_utf8(character@);
                encode_utf8_decode_utf8(seq![b as char]);
            }
            message.append(character);
        },
        Err(_) => {},
    }
    message.append("'");
    message
}

} // verus!
