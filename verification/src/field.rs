//! Decoding of single fields: one token in, one typed value out.

use vstd::prelude::*;
use crate::ascii::{ascii_lowercase, str_eq, to_ascii_lowercase};
use crate::decimal::{decimal, lemma_parse_decimal_of_decimal, parse_decimal, parse_unsigned};
use crate::error::DecodeError;

verus! {

/// What a token decodes to as a number of at most `max`.
pub open spec fn decode_number(token: Seq<char>, max: nat) -> Result<nat, DecodeError> {
    match parse_decimal(token, max) {
        Some(value) => Ok(value),
        None => Err(DecodeError::FieldDecodeError),
    }
}

/// What a token decodes to as a 32-bit number.
pub open spec fn decode_u32_spec(token: Seq<char>) -> Result<u32, DecodeError> {
    match decode_number(token, u32::MAX as nat) {
        Ok(value) => Ok(value as u32),
        Err(e) => Err(e),
    }
}

/// What a token decodes to as a 16-bit number.
pub open spec fn decode_u16_spec(token: Seq<char>) -> Result<u16, DecodeError> {
    match decode_number(token, u16::MAX as nat) {
        Ok(value) => Ok(value as u16),
        Err(e) => Err(e),
    }
}

/// What a token decodes to as an 8-bit number.
pub open spec fn decode_u8_spec(token: Seq<char>) -> Result<u8, DecodeError> {
    match decode_number(token, u8::MAX as nat) {
        Ok(value) => Ok(value as u8),
        Err(e) => Err(e),
    }
}

/// The word for a boolean: `true` or `false`.
pub open spec fn bool_text(value: bool) -> Seq<char> {
    if value {
        seq!['t', 'r', 'u', 'e']
    } else {
        seq!['f', 'a', 'l', 's', 'e']
    }
}

/// What a token decodes to as a flag: the shorthands `0` and `1` first, then
/// the words `true` and `false` in any case of their letters.
pub open spec fn decode_bool_spec(token: Seq<char>) -> Result<bool, DecodeError> {
    if token == seq!['0'] {
        Ok(false)
    } else if token == seq!['1'] {
        Ok(true)
    } else if ascii_lowercase(token) == bool_text(true) {
        Ok(true)
    } else if ascii_lowercase(token) == bool_text(false) {
        Ok(false)
    } else {
        Err(DecodeError::MalformedBoolean)
    }
}

/// Decodes a base-10 number that fits 32 bits.
pub fn decode_u32(token: &str) -> (r: Result<u32, DecodeError>)
    ensures
        r == decode_u32_spec(token@),
{
    match parse_unsigned(token, u32::MAX) {
        Some(value) => Ok(value),
        None => Err(DecodeError::FieldDecodeError),
    }
}

/// Decodes a base-10 number that fits 16 bits.
pub fn decode_u16(token: &str) -> (r: Result<u16, DecodeError>)
    ensures
        r == decode_u16_spec(token@),
{
    match parse_unsigned(token, 65535) {
        Some(value) => Ok(value as u16),
        None => Err(DecodeError::FieldDecodeError),
    }
}

/// Decodes a base-10 number that fits 8 bits.
pub fn decode_u8(token: &str) -> (r: Result<u8, DecodeError>)
    ensures
        r == decode_u8_spec(token@),
{
    match parse_unsigned(token, 255) {
        Some(value) => Ok(value as u8),
        None => Err(DecodeError::FieldDecodeError),
    }
}

/// The word under which a flag is written.
pub fn bool_str(value: bool) -> (s: &'static str)
    ensures
        s@ == bool_text(value),
{
    if value {
        proof {
            reveal_strlit("true");
            assert("true"@ =~= bool_text(true));
        }
        "true"
    } else {
        proof {
            reveal_strlit("false");
            assert("false"@ =~= bool_text(false));
        }
        "false"
    }
}

/// Decodes a flag.
pub fn decode_bool(token: &str) -> (r: Result<bool, DecodeError>)
    ensures
        r == decode_bool_spec(token@),
{
    proof {
        reveal_strlit("0");
        reveal_strlit("1");
        assert("0"@ =~= seq!['0']);
        assert("1"@ =~= seq!['1']);
    }
    if str_eq(token, "0") {
        Ok(false)
    } else if str_eq(token, "1") {
        Ok(true)
    } else {
        let lowered = to_ascii_lowercase(token);
        if str_eq(lowered.as_str(), bool_str(true)) {
            Ok(true)
        } else if str_eq(lowered.as_str(), bool_str(false)) {
            Ok(false)
        } else {
            Err(DecodeError::MalformedBoolean)
        }
    }
}

/// Decodes a free-form label: the token itself, unchanged.
pub fn decode_string(token: &str) -> (r: String)
    ensures
        r@ == token@,
{
    token.to_owned()
}

/// Two tokens that differ only in the case of their ASCII letters decode to
/// the same flag.
pub proof fn lemma_bool_ignores_case(a: Seq<char>, b: Seq<char>)
    requires
        ascii_lowercase(a) == ascii_lowercase(b),
    ensures
        decode_bool_spec(a) == decode_bool_spec(b),
{
    let la = ascii_lowercase(a);
    let lb = ascii_lowercase(b);
    assert(a.len() == la.len() && b.len() == lb.len());
    if a.len() == 1 {
        assert(la[0] == lb[0]);
        assert(a[0] == '0' <==> la[0] == '0');
        assert(b[0] == '0' <==> lb[0] == '0');
        assert(a[0] == '1' <==> la[0] == '1');
        assert(b[0] == '1' <==> lb[0] == '1');
        assert((a == seq!['0']) == (b == seq!['0'])) by {
            if a[0] == '0' {
                assert(a =~= seq!['0']);
                assert(b =~= seq!['0']);
            }
        }
        assert((a == seq!['1']) == (b == seq!['1'])) by {
            if a[0] == '1' {
                assert(a =~= seq!['1']);
                assert(b =~= seq!['1']);
            }
        }
    } else {
        assert(seq!['0'].len() == 1 && seq!['1'].len() == 1);
    }
}

/// The word of a flag decodes to that flag.
pub proof fn lemma_bool_text_decodes(value: bool)
    ensures
        decode_bool_spec(bool_text(value)) == Ok::<bool, DecodeError>(value),
{
    assert(ascii_lowercase(bool_text(value)) =~= bool_text(value));
    assert(bool_text(value).len() >= 4);
    assert(seq!['0'].len() == 1 && seq!['1'].len() == 1);
    assert(bool_text(true).len() != bool_text(false).len());
}

/// The text of a number decodes to that number at every width that holds it.
pub proof fn lemma_decimal_decodes(n: nat)
    ensures
        n <= u32::MAX ==> decode_u32_spec(decimal(n)) == Ok::<u32, DecodeError>(n as u32),
        n <= u16::MAX ==> decode_u16_spec(decimal(n)) == Ok::<u16, DecodeError>(n as u16),
        n <= u8::MAX ==> decode_u8_spec(decimal(n)) == Ok::<u8, DecodeError>(n as u8),
{
    if n <= u32::MAX {
        lemma_parse_decimal_of_decimal(n, u32::MAX as nat);
    }
    if n <= u16::MAX {
        lemma_parse_decimal_of_decimal(n, u16::MAX as nat);
    }
    if n <= u8::MAX {
        lemma_parse_decimal_of_decimal(n, u8::MAX as nat);
    }
}

} // verus!
