//! The protobuf wire format, as far as the resources need it: varints, field
//! keys, string fields, and the stepping over fields that a message does not
//! know. The bytes are read and written by `prost`; this module says what
//! they are.

use vstd::prelude::*;
use vstd::utf8::{decode_utf8, encode_utf8, valid_utf8};

verus! {

/// The wire type of a field whose value is a length and that many bytes.
pub const LENGTH_DELIMITED: u8 = 2;

/// The words with which the text of every decoding error begins.
pub const DECODE_FAILED: &'static str = "failed to decode Protobuf message: ";

/// The smallest field number.
pub const MIN_TAG: u32 = 1;

/// The largest field number.
pub const MAX_TAG: u32 = 0x1fff_ffff;

/// The varint of a number: its base-128 digits from the lowest up, each in
/// one byte, and every byte but the last with its high bit set.
pub open spec fn varint(value: nat) -> Seq<u8>
    decreases value,
{
    if value < 128 {
        seq![value as u8]
    } else {
        seq![(value % 128 + 128) as u8] + varint(value / 128)
    }
}

/// The number that the bytes begin with, written in base 128 as in a
/// varint, and how many bytes it takes: at most `limit` bytes are read.
pub open spec fn base128(bytes: Seq<u8>, limit: nat) -> Option<(nat, nat)>
    decreases limit,
{
    if limit == 0 || bytes.len() == 0 {
        None
    } else if bytes[0] < 128 {
        Some((bytes[0] as nat, 1))
    } else {
        match base128(bytes.skip(1), (limit - 1) as nat) {
            Some((high, taken)) => Some(((bytes[0] - 128) as nat + 128 * high, taken + 1)),
            None => None,
        }
    }
}

/// The varint that the bytes begin with, and how many bytes it takes: a
/// varint has at most ten bytes and its number fits in 64 bits.
pub open spec fn varint_parsed(bytes: Seq<u8>) -> Option<(u64, nat)> {
    match base128(bytes, 10) {
        Some((value, taken)) => if value <= u64::MAX {
            Some((value as u64, taken))
        } else {
            None
        },
        None => None,
    }
}

/// The key of a field: the varint of the field number and the wire type.
pub open spec fn key_bytes(tag: u32, wire_type: u8) -> Seq<u8> {
    varint((tag * 8 + wire_type) as nat)
}

/// The field key that the bytes begin with, as field number and wire type,
/// and how many bytes it takes: the key fits in 32 bits, the wire type is
/// one of the six that exist, and the field number is not zero.
pub open spec fn key_parsed(bytes: Seq<u8>) -> Option<(u32, u8, nat)> {
    match varint_parsed(bytes) {
        Some((key, taken)) => if key <= u32::MAX && key % 8 <= 5 && key / 8 >= 1 {
            Some(((key / 8) as u32, (key % 8) as u8, taken))
        } else {
            None
        },
        None => None,
    }
}

/// A string field: its key, the length of the string in bytes, and the
/// string in UTF-8.
pub open spec fn string_field(tag: u32, value: Seq<char>) -> Seq<u8> {
    key_bytes(tag, LENGTH_DELIMITED) + varint(encode_utf8(value).len()) + encode_utf8(value)
}

/// The string that the bytes behind a field key begin with, and how many
/// bytes it takes: the field is length-delimited, the buffer holds as many
/// bytes as the length says, and these are UTF-8.
pub open spec fn string_parsed(wire_type: u8, bytes: Seq<u8>) -> Option<(Seq<char>, nat)> {
    if wire_type != LENGTH_DELIMITED {
        None
    } else {
        match varint_parsed(bytes) {
            Some((len, taken)) => {
                let text = bytes.subrange(taken as int, taken + len);
                if taken + len <= bytes.len() && valid_utf8(text) {
                    Some((decode_utf8(text), (taken + len) as nat))
                } else {
                    None
                }
            },
            None => None,
        }
    }
}

/// The bytes of an embedded message that the bytes behind a field key begin
/// with, and how many bytes length and message take together: the field is
/// length-delimited and the buffer holds as many bytes as the length says.
pub open spec fn delimited_parsed(wire_type: u8, bytes: Seq<u8>) -> Option<(Seq<u8>, nat)> {
    if wire_type != LENGTH_DELIMITED {
        None
    } else {
        match varint_parsed(bytes) {
            Some((len, taken)) => if taken + len <= bytes.len() {
                Some((bytes.subrange(taken as int, taken + len), (taken + len) as nat))
            } else {
                None
            },
            None => None,
        }
    }
}

/// An embedded message as a field: its key, the length of the message in
/// bytes, and the message.
pub open spec fn delimited_field(tag: u32, message: Seq<u8>) -> Seq<u8> {
    key_bytes(tag, LENGTH_DELIMITED) + varint(message.len()) + message
}

/// How many bytes `prost::encoding::skip_field` steps over for a field of
/// the given wire type and number whose value the bytes begin with, or
/// `None` where it fails or the wire type is none of the six that exist.
pub uninterp spec fn skipped(wire_type: u8, tag: u32, bytes: Seq<u8>) -> Option<nat>;

/// The error with which `prost` rejects bytes.
#[verifier::external_type_specification]
#[verifier::external_body]
pub struct ExDecodeError(prost::DecodeError);

/// `prost::encoding::encode_varint`: the varint of `value` is written at the
/// end of the buffer.
#[verifier::external_body]
pub(crate) fn encode_varint(value: u64, buf: &mut Vec<u8>)
    ensures
        final(buf)@ == old(buf)@ + varint(value as nat),
{
    prost::encoding::encode_varint(value, buf)
}

/// `prost::encoding::encoded_len_varint`: the number of bytes of the varint
/// of `value`.
#[verifier::external_body]
pub(crate) fn encoded_len_varint(value: u64) -> (len: usize)
    ensures
        len == varint(value as nat).len(),
{
    prost::encoding::encoded_len_varint(value)
}

/// `prost::encoding::encode_key`, for a length-delimited field: the key of
/// field `tag` is written at the end of the buffer.
#[verifier::external_body]
pub(crate) fn encode_delimited_key(tag: u32, buf: &mut Vec<u8>)
    requires
        MIN_TAG <= tag <= MAX_TAG,
    ensures
        final(buf)@ == old(buf)@ + key_bytes(tag, LENGTH_DELIMITED),
{
    prost::encoding::encode_key(tag, prost::encoding::WireType::LengthDelimited, buf)
}

/// `prost::encoding::key_len`: the number of bytes of the key of field
/// `tag`, which is the same for every wire type.
#[verifier::external_body]
pub(crate) fn key_len(tag: u32) -> (len: usize)
    requires
        MIN_TAG <= tag <= MAX_TAG,
    ensures
        forall|wire_type: u8|
            wire_type <= 5 ==> len == (#[trigger] key_bytes(tag, wire_type)).len(),
{
    prost::encoding::key_len(tag)
}

/// `prost::encoding::decode_key`, on a byte slice: the field number and the
/// wire type of the key at the start of the buffer and the buffer behind
/// it, or an error where the buffer starts with no field key.
#[verifier::external_body]
pub(crate) fn decode_key<'a>(buf: &'a [u8]) -> (decoded: Result<
    (u32, u8, &'a [u8]),
    prost::DecodeError,
>)
    ensures
        match decoded {
            Ok((tag, wire_type, rest)) => key_parsed(buf@) matches Some((number, kind, taken))
                && tag == number && wire_type == kind && taken <= buf@.len() && rest@
                == buf@.skip(taken as int),
            Err(_) => key_parsed(buf@) is None,
        },
{
    let mut rest = buf;
    let (tag, wire_type) = prost::encoding::decode_key(&mut rest)?;
    Ok((tag, wire_type as u8, rest))
}

/// `prost::encoding::skip_field`, on a byte slice and with the full depth
/// of nesting allowed: the buffer behind the value of a field of the given
/// wire type and number, or an error, also where the wire type is none of
/// the six that exist. What is stepped over depends on the arguments alone
/// and lies within the buffer.
#[verifier::external_body]
pub(crate) fn skip_field<'a>(wire_type: u8, tag: u32, buf: &'a [u8]) -> (stepped: Result<
    &'a [u8],
    prost::DecodeError,
>)
    ensures
        match stepped {
            Ok(rest) => skipped(wire_type, tag, buf@) matches Some(taken) && taken <= buf@.len()
                && rest@ == buf@.skip(taken as int),
            Err(_) => skipped(wire_type, tag, buf@) is None,
        },
{
    let wire_type = prost::encoding::WireType::try_from(u64::from(wire_type))?;
    let mut rest = buf;
    prost::encoding::skip_field(wire_type, tag, &mut rest, Default::default())?;
    Ok(rest)
}

/// `prost::encoding::string::encode`: the string field `tag` with the given
/// value is written at the end of the buffer.
#[verifier::external_body]
pub(crate) fn encode_string(tag: u32, value: &String, buf: &mut Vec<u8>)
    requires
        MIN_TAG <= tag <= MAX_TAG,
    ensures
        final(buf)@ == old(buf)@ + string_field(tag, value@),
{
    prost::encoding::string::encode(tag, value, buf)
}

/// `prost::encoding::string::encoded_len`: the number of bytes of the string
/// field `tag` with the given value.
#[verifier::external_body]
pub(crate) fn encoded_len_string(tag: u32, value: &String) -> (len: usize)
    requires
        MIN_TAG <= tag <= MAX_TAG,
    ensures
        len == string_field(tag, value@).len(),
{
    prost::encoding::string::encoded_len(tag, value)
}

/// `prost::encoding::string::merge`, on a byte slice and into an empty
/// string: the string that the value of a field of the given wire type holds
/// and the buffer behind it, or an error where the buffer starts with no
/// string.
#[verifier::external_body]
pub(crate) fn decode_string<'a>(wire_type: u8, buf: &'a [u8]) -> (decoded: Result<
    (String, &'a [u8]),
    prost::DecodeError,
>)
    ensures
        match decoded {
            Ok((value, rest)) => string_parsed(wire_type, buf@) matches Some((text, taken))
                && value@ == text && taken <= buf@.len() && rest@ == buf@.skip(taken as int),
            Err(_) => string_parsed(wire_type, buf@) is None,
        },
{
    let wire_type = prost::encoding::WireType::try_from(u64::from(wire_type))?;
    let (mut value, mut rest) = (String::new(), buf);
    prost::encoding::string::merge(wire_type, &mut value, &mut rest, Default::default())?;
    Ok((value, rest))
}

/// `prost::encoding::bytes::merge`, on a byte slice and into an empty
/// vector: the bytes that the value of a length-delimited field holds and
/// the buffer behind it, or an error where the buffer starts with no such
/// value.
#[verifier::external_body]
pub(crate) fn decode_delimited<'a>(wire_type: u8, buf: &'a [u8]) -> (decoded: Result<
    (Vec<u8>, &'a [u8]),
    prost::DecodeError,
>)
    ensures
        match decoded {
            Ok((value, rest)) => delimited_parsed(wire_type, buf@) matches Some((body, taken))
                && value@ == body && taken <= buf@.len() && rest@ == buf@.skip(taken as int),
            Err(_) => delimited_parsed(wire_type, buf@) is None,
        },
{
    let wire_type = prost::encoding::WireType::try_from(u64::from(wire_type))?;
    let (mut value, mut rest) = (Vec::new(), buf);
    prost::encoding::bytes::merge(wire_type, &mut value, &mut rest, Default::default())?;
    Ok((value, rest))
}

/// `prost::DecodeError::push`: the error, with the message and the field in
/// which it arose added to its text.
#[verifier::external_body]
pub(crate) fn located(
    error: prost::DecodeError,
    message: &'static str,
    field: &'static str,
) -> prost::DecodeError {
    let mut error = error;
    error.push(message, field);
    error
}

/// `to_string` on a `prost::DecodeError`, that is its `Display`: the text
/// of the error. Whatever the error, the text begins with the words that say
/// that decoding failed; where and why it failed follows them.
#[verifier::external_body]
pub(crate) fn error_text(error: &prost::DecodeError) -> (text: String)
    ensures
        DECODE_FAILED@.is_prefix_of(text@),
{
    error.to_string()
}

/// The power of 128 with the given exponent.
pub open spec fn pow128(exponent: nat) -> nat
    decreases exponent,
{
    if exponent == 0 {
        1
    } else {
        128 * pow128((exponent - 1) as nat)
    }
}

/// A number below the `digits`-th power of 128 has a varint of at most
/// `digits` bytes; every varint has at least one byte.
pub proof fn lemma_varint_len(value: nat, digits: nat)
    requires
        digits >= 1,
        value < pow128(digits),
    ensures
        1 <= varint(value).len() <= digits,
    decreases value,
{
    if value >= 128 {
        assert(pow128(1) == 128) by {
            reveal_with_fuel(pow128, 2);
        }
        assert(digits >= 2);
        lemma_varint_len(value / 128, (digits - 1) as nat);
    }
}

/// A number of 64 bits has a varint of at most ten bytes.
pub proof fn lemma_varint_len_u64(value: u64)
    ensures
        1 <= varint(value as nat).len() <= 10,
{
    assert(pow128(10) == 0x40_0000_0000_0000_0000) by {
        reveal_with_fuel(pow128, 11);
    }
    lemma_varint_len(value as nat, 10);
}

/// Reading a varint gives back the number that was written.
pub proof fn lemma_base128_of_varint(value: nat, rest: Seq<u8>, limit: nat)
    requires
        varint(value).len() <= limit,
    ensures
        base128(varint(value) + rest, limit) == Some((value, varint(value).len())),
    decreases value,
{
    let bytes = varint(value) + rest;
    if value < 128 {
        assert(bytes[0] == value as u8);
    } else {
        let high = value / 128;
        assert(bytes[0] == (value % 128 + 128) as u8);
        assert(bytes.skip(1) =~= varint(high) + rest);
        lemma_base128_of_varint(high, rest, (limit - 1) as nat);
    }
}

/// Reading a varint gives back the 64-bit number that was written, whatever
/// follows it.
pub proof fn lemma_varint_parsed(value: u64, rest: Seq<u8>)
    ensures
        varint_parsed(varint(value as nat) + rest) == Some(
            (value, varint(value as nat).len()),
        ),
{
    lemma_varint_len_u64(value);
    lemma_base128_of_varint(value as nat, rest, 10);
}

/// Reading a field key gives back the field number and the wire type that
/// were written, whatever follows the key.
pub proof fn lemma_key_parsed(tag: u32, wire_type: u8, rest: Seq<u8>)
    requires
        MIN_TAG <= tag <= MAX_TAG,
        wire_type <= 5,
    ensures
        key_parsed(key_bytes(tag, wire_type) + rest) == Some(
            (tag, wire_type, key_bytes(tag, wire_type).len()),
        ),
        key_bytes(tag, wire_type).len() >= 1,
{
    let key = (tag * 8 + wire_type) as u64;
    lemma_varint_parsed(key, rest);
    lemma_varint_len_u64(key);
}

/// Reading the value of a string field gives back the string that was
/// written, whatever follows it.
pub proof fn lemma_string_parsed(value: Seq<char>, rest: Seq<u8>)
    requires
        encode_utf8(value).len() <= u64::MAX,
    ensures
        string_parsed(
            LENGTH_DELIMITED,
            varint(encode_utf8(value).len()) + encode_utf8(value) + rest,
        ) == Some(
            (value, (varint(encode_utf8(value).len()).len() + encode_utf8(value).len()) as nat),
        ),
{
    let text = encode_utf8(value);
    let len = text.len() as u64;
    let bytes = varint(text.len()) + text + rest;
    assert(bytes =~= varint(len as nat) + (text + rest));
    lemma_varint_parsed(len, text + rest);
    let taken = varint(len as nat).len();
    assert(bytes.subrange(taken as int, taken + len) =~= text);
    vstd::utf8::encode_utf8_valid_utf8(value);
    vstd::utf8::encode_utf8_decode_utf8(value);
}

/// Reading the value of an embedded message field gives back the bytes of
/// the message that was written, whatever follows it.
pub proof fn lemma_delimited_parsed(message: Seq<u8>, rest: Seq<u8>)
    requires
        message.len() <= u64::MAX,
    ensures
        delimited_parsed(LENGTH_DELIMITED, varint(message.len()) + message + rest) == Some(
            (message, (varint(message.len()).len() + message.len()) as nat),
        ),
{
    let len = message.len() as u64;
    let bytes = varint(message.len()) + message + rest;
    assert(bytes =~= varint(len as nat) + (message + rest));
    lemma_varint_parsed(len, message + rest);
    let taken = varint(len as nat).len();
    assert(bytes.subrange(taken as int, taken + len) =~= message);
}

/// A varint takes at least one byte.
pub proof fn lemma_varint_takes_bytes(bytes: Seq<u8>)
    ensures
        varint_parsed(bytes) matches Some((_, taken)) ==> 1 <= taken <= bytes.len(),
{
    lemma_base128_takes_bytes(bytes, 10);
}

/// A number in base 128 takes at least one byte, and no more than there
/// are.
pub proof fn lemma_base128_takes_bytes(bytes: Seq<u8>, limit: nat)
    ensures
        base128(bytes, limit) matches Some((_, taken)) ==> 1 <= taken <= bytes.len() && taken
            <= limit,
    decreases limit,
{
    if limit > 0 && bytes.len() > 0 && bytes[0] >= 128 {
        lemma_base128_takes_bytes(bytes.skip(1), (limit - 1) as nat);
    }
}

/// A field key takes at least one byte.
pub proof fn lemma_key_takes_bytes(bytes: Seq<u8>)
    ensures
        key_parsed(bytes) matches Some((_, _, taken)) ==> 1 <= taken <= bytes.len(),
{
    lemma_varint_takes_bytes(bytes);
}

} // verus!
