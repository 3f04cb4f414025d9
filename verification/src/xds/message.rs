//! Messages: values that are sent as a sequence of fields.

use vstd::prelude::*;

use crate::xds::wire::{
    decode_delimited, decode_key, delimited_field, delimited_parsed, encode_delimited_key,
    encode_string, encode_varint, encoded_len_string, encoded_len_varint, error_text, key_bytes,
    key_len, key_parsed, lemma_key_parsed, lemma_key_takes_bytes, lemma_varint_len_u64,
    string_field, DECODE_FAILED, LENGTH_DELIMITED, MAX_TAG, MIN_TAG,
};

verus! {

/// Why bytes are not the message that they were taken for.
#[derive(Debug)]
pub struct Malformed {
    description: String,
}

impl View for Malformed {
    type V = Seq<char>;

    /// The text of the error.
    closed spec fn view(&self) -> Seq<char> {
        self.description@
    }
}

impl Malformed {
    /// The text of this error.
    pub fn to_string(&self) -> (text: String)
        ensures
            text@ == self@,
    {
        self.description.clone()
    }

    /// The error of the library for an error of `prost`: it holds the text
    /// of that error, which begins with the words that say that decoding
    /// failed.
    pub(crate) fn from_prost(error: &prost::DecodeError) -> (malformed: Malformed)
        ensures
            DECODE_FAILED@.is_prefix_of(malformed@),
    {
        Malformed { description: error_text(error) }
    }
}

/// Why a message could not be written: its encoded form is longer than a
/// byte buffer can be.
#[derive(Clone, Copy, Debug)]
pub struct EncodeError {
    required: usize,
    remaining: usize,
}

impl EncodeError {
    /// The error for a message of `required` bytes and a buffer that takes
    /// `remaining` bytes.
    pub(crate) fn new(required: usize, remaining: usize) -> (error: EncodeError)
        ensures
            error.required_capacity() == required,
            error.remaining() == remaining,
    {
        EncodeError { required, remaining }
    }

    /// The number of bytes that the message needs, or the largest number
    /// where it needs even more.
    pub closed spec fn spec_required_capacity(&self) -> usize {
        self.required
    }

    /// The number of bytes that the buffer would have taken.
    pub closed spec fn spec_remaining(&self) -> usize {
        self.remaining
    }

    /// The number of bytes that the message needs, or the largest number
    /// where it needs even more.
    #[verifier::when_used_as_spec(spec_required_capacity)]
    pub fn required_capacity(&self) -> (required: usize)
        ensures
            required == self.required_capacity(),
    {
        self.required
    }

    /// The number of bytes that the buffer would have taken.
    #[verifier::when_used_as_spec(spec_remaining)]
    pub fn remaining(&self) -> (remaining: usize)
        ensures
            remaining == self.remaining(),
    {
        self.remaining
    }
}

/// A value with a wire form: a sequence of fields, each a key and a value.
pub trait Message: View + Sized {
    /// The message in which every field has its default.
    spec fn empty() -> Self::V;

    /// The wire form of a message.
    spec fn encoded(message: Self::V) -> Seq<u8>;

    /// The message after one field has been read into it, and how many bytes
    /// the value of the field takes: `bytes` begin with that value, behind
    /// the key that gave `tag` and `wire_type`. `None` where the value is
    /// not what the field takes.
    spec fn merged(message: Self::V, tag: u32, wire_type: u8, bytes: Seq<u8>) -> Option<
        (Self::V, nat),
    >;

    /// The message in which every field has its default.
    fn empty_message() -> (message: Self)
        ensures
            message@ == Self::empty(),
    ;

    /// The length of the wire form, where a buffer can be that long.
    fn encoded_len(&self) -> (len: Option<usize>)
        ensures
            match len {
                Some(len) => len == Self::encoded(self@).len(),
                None => Self::encoded(self@).len() > usize::MAX,
            },
    ;

    /// Writes the wire form at the end of the buffer.
    fn encode_raw(&self, buf: &mut Vec<u8>)
        requires
            Self::encoded(self@).len() <= usize::MAX,
        ensures
            final(buf)@ == old(buf)@ + Self::encoded(self@),
    ;

    /// Reads the value of one field into the message and returns the buffer
    /// behind the value.
    fn merge_field<'a>(&mut self, tag: u32, wire_type: u8, buf: &'a [u8]) -> (read: Result<
        &'a [u8],
        prost::DecodeError,
    >)
        ensures
            match read {
                Ok(rest) => Self::merged(old(self)@, tag, wire_type, buf@) matches Some(
                    (message, taken),
                ) && final(self)@ == message && taken <= buf@.len() && rest@ == buf@.skip(
                    taken as int,
                ),
                Err(_) => Self::merged(old(self)@, tag, wire_type, buf@) is None,
            },
    ;
}

/// The message that `message` becomes when the fields that `bytes` hold are
/// read into it one after the other, or `None` where the bytes are not a
/// sequence of fields that the message takes.
pub open spec fn parsed<M: Message>(bytes: Seq<u8>, message: M::V) -> Option<M::V>
    decreases bytes.len(),
{
    if bytes.len() == 0 {
        Some(message)
    } else {
        match key_parsed(bytes) {
            Some((tag, wire_type, key_len)) => match M::merged(
                message,
                tag,
                wire_type,
                bytes.skip(key_len as int),
            ) {
                Some((next, value_len)) => if 0 < key_len + value_len <= bytes.len() {
                    parsed::<M>(bytes.skip((key_len + value_len) as int), next)
                } else {
                    None
                },
                None => None,
            },
            None => None,
        }
    }
}

/// A kind of message that comes back unchanged from its wire form.
pub trait RoundTrip: Message {
    /// Reading the wire form of a message into the empty message gives the
    /// message, as long as every length in the wire form fits in 64 bits.
    proof fn lemma_round_trip(message: Self::V)
        requires
            Self::encoded(message).len() <= u64::MAX,
        ensures
            parsed::<Self>(Self::encoded(message), Self::empty()) == Some(message),
    ;
}

/// The message after an embedded message has been read into it, and how
/// many bytes length and embedded message take: `bytes` begin with them.
pub open spec fn embedded_merged<M: Message>(
    message: M::V,
    wire_type: u8,
    bytes: Seq<u8>,
) -> Option<(M::V, nat)> {
    match delimited_parsed(wire_type, bytes) {
        Some((body, taken)) => match parsed::<M>(body, message) {
            Some(next) => Some((next, taken)),
            None => None,
        },
        None => None,
    }
}

/// Reads the fields that `buf` holds into the message.
pub fn merge<M: Message>(message: &mut M, buf: &[u8]) -> (read: Result<(), prost::DecodeError>)
    ensures
        match read {
            Ok(()) => parsed::<M>(buf@, old(message)@) == Some(final(message)@),
            Err(_) => parsed::<M>(buf@, old(message)@) is None,
        },
{
    let mut rest = buf;
    while rest.len() > 0
        invariant
            parsed::<M>(buf@, old(message)@) == parsed::<M>(rest@, message@),
        decreases rest@.len(),
    {
        let ghost before = rest@;
        let (tag, wire_type, behind_key) = decode_key(rest)?;
        let behind_value = message.merge_field(tag, wire_type, behind_key)?;
        proof {
            let key_len = key_parsed(before).unwrap().2;
            let value_len = before.len() - key_len - behind_value@.len();
            lemma_key_takes_bytes(before);
            assert(before.skip(key_len as int).skip(value_len) =~= before.skip(
                key_len + value_len,
            ));
        }
        rest = behind_value;
    }
    Ok(())
}

/// Reads the bytes as a message.
pub fn decode<M: Message>(buf: &[u8]) -> (decoded: Result<M, Malformed>)
    ensures
        match decoded {
            Ok(message) => parsed::<M>(buf@, M::empty()) == Some(message@),
            Err(malformed) => parsed::<M>(buf@, M::empty()) is None && DECODE_FAILED@.is_prefix_of(
                malformed@,
            ),
        },
{
    let mut message = M::empty_message();
    match merge(&mut message, buf) {
        Ok(()) => Ok(message),
        Err(error) => Err(Malformed::from_prost(&error)),
    }
}

/// Reads an embedded message into `message` and returns the buffer behind
/// it.
pub(crate) fn merge_embedded<'a, M: Message>(
    message: &mut M,
    wire_type: u8,
    buf: &'a [u8],
) -> (read: Result<&'a [u8], prost::DecodeError>)
    ensures
        match read {
            Ok(rest) => embedded_merged::<M>(old(message)@, wire_type, buf@) matches Some(
                (next, taken),
            ) && final(message)@ == next && taken <= buf@.len() && rest@ == buf@.skip(
                taken as int,
            ),
            Err(_) => embedded_merged::<M>(old(message)@, wire_type, buf@) is None,
        },
{
    let (body, rest) = decode_delimited(wire_type, buf)?;
    merge(message, body.as_slice())?;
    Ok(rest)
}

/// Writes `message` as the embedded message of field `tag`.
pub(crate) fn encode_embedded<M: Message>(tag: u32, message: &M, buf: &mut Vec<u8>)
    requires
        MIN_TAG <= tag <= MAX_TAG,
        M::encoded(message@).len() <= usize::MAX,
    ensures
        final(buf)@ == old(buf)@ + delimited_field(tag, M::encoded(message@)),
{
    encode_delimited_key(tag, buf);
    let len = message.encoded_len().unwrap();
    encode_varint(len as u64, buf);
    message.encode_raw(buf);
    assert(buf@ =~= old(buf)@ + delimited_field(tag, M::encoded(message@)));
}

/// The sum of two lengths, where it is a length.
pub(crate) fn add_len(a: Option<usize>, b: Option<usize>) -> (sum: Option<usize>)
    ensures
        match sum {
            Some(sum) => a matches Some(a) && b matches Some(b) && sum == a + b,
            None => a is None || b is None || a.unwrap() + b.unwrap() > usize::MAX,
        },
{
    match (a, b) {
        (Some(a), Some(b)) => a.checked_add(b),
        _ => None,
    }
}

/// The length of `message` as the embedded message of field `tag`.
pub(crate) fn encoded_len_embedded<M: Message>(tag: u32, message: &M) -> (len: Option<usize>)
    requires
        MIN_TAG <= tag <= MAX_TAG,
    ensures
        match len {
            Some(len) => len == delimited_field(tag, M::encoded(message@)).len(),
            None => delimited_field(tag, M::encoded(message@)).len() > usize::MAX,
        },
{
    match message.encoded_len() {
        Some(len) => {
            let key = key_len(tag);
            let prefix = encoded_len_varint(len as u64);
            proof {
                lemma_varint_len_u64(len as u64);
                lemma_varint_len_u64((tag * 8 + LENGTH_DELIMITED) as u64);
                assert(key == key_bytes(tag, LENGTH_DELIMITED).len());
            }
            (key + prefix).checked_add(len)
        },
        None => None,
    }
}

/// A string field that is left out where the string is empty.
pub open spec fn plain_string(tag: u32, value: Seq<char>) -> Seq<u8> {
    if value.len() == 0 {
        Seq::empty()
    } else {
        string_field(tag, value)
    }
}

/// A string field that is left out where there is no string.
pub open spec fn optional_string(tag: u32, value: Option<Seq<char>>) -> Seq<u8> {
    match value {
        Some(value) => string_field(tag, value),
        None => Seq::empty(),
    }
}

/// Writes a string field, unless the string is empty.
pub(crate) fn encode_plain_string(tag: u32, value: &String, buf: &mut Vec<u8>)
    requires
        MIN_TAG <= tag <= MAX_TAG,
    ensures
        final(buf)@ == old(buf)@ + plain_string(tag, value@),
{
    if !value.as_str().is_empty() {
        encode_string(tag, value, buf);
    } else {
        assert(buf@ =~= old(buf)@ + plain_string(tag, value@));
    }
}

/// The length of a string field that is left out where the string is empty.
pub(crate) fn encoded_len_plain_string(tag: u32, value: &String) -> (len: usize)
    requires
        MIN_TAG <= tag <= MAX_TAG,
    ensures
        len == plain_string(tag, value@).len(),
{
    if !value.as_str().is_empty() {
        encoded_len_string(tag, value)
    } else {
        0
    }
}

/// Writes a string field, if there is a string.
pub(crate) fn encode_optional_string(tag: u32, value: &Option<String>, buf: &mut Vec<u8>)
    requires
        MIN_TAG <= tag <= MAX_TAG,
    ensures
        final(buf)@ == old(buf)@ + optional_string(
            tag,
            match value {
                Some(value) => Some(value@),
                None => None,
            },
        ),
{
    match value {
        Some(value) => encode_string(tag, value, buf),
        None => {
            assert(buf@ =~= old(buf)@ + Seq::<u8>::empty());
        },
    }
}

/// The length of a string field that is left out where there is no string.
pub(crate) fn encoded_len_optional_string(tag: u32, value: &Option<String>) -> (len: usize)
    requires
        MIN_TAG <= tag <= MAX_TAG,
    ensures
        len == optional_string(
            tag,
            match value {
                Some(value) => Some(value@),
                None => None,
            },
        ).len(),
{
    match value {
        Some(value) => encoded_len_string(tag, value),
        None => 0,
    }
}

/// Reading a field and then the rest is reading the rest into the message
/// that the field gives.
pub proof fn lemma_parsed_step<M: Message>(
    tag: u32,
    wire_type: u8,
    value: Seq<u8>,
    rest: Seq<u8>,
    message: M::V,
    next: M::V,
)
    requires
        MIN_TAG <= tag <= MAX_TAG,
        wire_type <= 5,
        M::merged(message, tag, wire_type, value + rest) == Some((next, value.len())),
    ensures
        parsed::<M>(key_bytes(tag, wire_type) + value + rest, message) == parsed::<M>(rest, next),
{
    let key = key_bytes(tag, wire_type);
    let bytes = key + value + rest;
    assert(bytes =~= key + (value + rest));
    lemma_key_parsed(tag, wire_type, value + rest);
    assert(bytes.skip(key.len() as int) =~= value + rest);
    assert(bytes.skip((key.len() + value.len()) as int) =~= rest);
}

} // verus!
