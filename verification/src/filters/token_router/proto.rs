//! The wire form of a token router's configuration.

use vstd::prelude::*;

use crate::xds::message::{
    encode_optional_string, encoded_len_optional_string, optional_string, Message, RoundTrip,
};
use crate::xds::proto::{lemma_string_step, optional_view};
use crate::xds::wire::{decode_string, located, skip_field, skipped, string_parsed};

verus! {

/// The configuration of a token router as it is sent: the metadata key may
/// be left out.
#[derive(Debug)]
pub struct TokenRouter {
    pub metadata_key: Option<String>,
}

impl View for TokenRouter {
    type V = Option<Seq<char>>;

    open spec fn view(&self) -> Option<Seq<char>> {
        optional_view(self.metadata_key)
    }
}

impl Message for TokenRouter {
    open spec fn empty() -> Option<Seq<char>> {
        None
    }

    open spec fn encoded(message: Option<Seq<char>>) -> Seq<u8> {
        optional_string(1, message)
    }

    open spec fn merged(
        message: Option<Seq<char>>,
        tag: u32,
        wire_type: u8,
        bytes: Seq<u8>,
    ) -> Option<(Option<Seq<char>>, nat)> {
        if tag == 1 {
            match string_parsed(wire_type, bytes) {
                Some((text, taken)) => Some((Some(text), taken)),
                None => None,
            }
        } else {
            match skipped(wire_type, tag, bytes) {
                Some(taken) => Some((message, taken)),
                None => None,
            }
        }
    }

    fn empty_message() -> (message: TokenRouter) {
        TokenRouter { metadata_key: None }
    }

    fn encoded_len(&self) -> (len: Option<usize>) {
        Some(encoded_len_optional_string(1, &self.metadata_key))
    }

    fn encode_raw(&self, buf: &mut Vec<u8>) {
        encode_optional_string(1, &self.metadata_key, buf);
    }

    fn merge_field<'a>(&mut self, tag: u32, wire_type: u8, buf: &'a [u8]) -> (read: Result<
        &'a [u8],
        prost::DecodeError,
    >) {
        if tag == 1 {
            match decode_string(wire_type, buf) {
                Ok((text, rest)) => {
                    self.metadata_key = Some(text);
                    Ok(rest)
                },
                Err(error) => Err(located(error, "TokenRouter", "metadata_key")),
            }
        } else {
            skip_field(wire_type, tag, buf)
        }
    }
}

impl RoundTrip for TokenRouter {
    proof fn lemma_round_trip(message: Option<Seq<char>>) {
        match message {
            Some(key) => {
                let none = Seq::<u8>::empty();
                assert(Self::encoded(message) =~= Self::encoded(message) + none);
                lemma_string_step::<TokenRouter>(1, key, none, None, message);
            },
            None => {},
        }
    }
}

} // verus!
