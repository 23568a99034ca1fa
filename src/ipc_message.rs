use vstd::prelude::*;

use crate::binary_generation::{tag_bytes, u16_to_bytes};
use crate::binary_parsing::ParsedBinaryStream;
use crate::message::{InitMessage, UnkownMessage};
use crate::TypeTagSize;

verus! {

/// Tag of the frames that carry an `Init` message.
pub const INIT_TAG: u16 = 0;

/// Tag under which an unknown message is sent.
pub const UNKNOWN_TAG: u16 = 1;

/// A typed message carried by one frame.
#[derive(PartialEq, Eq, Debug)]
pub enum IpcMessage {
    Init(InitMessage),
    UnkownMessage(UnkownMessage),
}

/// Why a frame's bytes do not make a message; each variant holds the frame's tag bytes.
#[derive(PartialEq, Eq, Debug)]
pub enum InvalidBytesForMessage {
    TagMessage([u8; 2]),
    FormatMessage([u8; 2]),
}

/// The tag code of a message.
pub open spec fn tag_of(m: IpcMessage) -> u16 {
    match m {
        IpcMessage::Init(_) => INIT_TAG,
        IpcMessage::UnkownMessage(_) => UNKNOWN_TAG,
    }
}

/// `r` is what a frame tagged `tag` decodes to when the value codec made
/// `decoded` of its payload. Only a frame tagged `Init` consults the codec;
/// every other tag is an unknown message.
pub open spec fn is_envelope_of(
    r: Result<IpcMessage, InvalidBytesForMessage>,
    tag: u16,
    decoded: Option<InitMessage>,
) -> bool {
    if tag != INIT_TAG {
        r == Ok::<IpcMessage, InvalidBytesForMessage>(IpcMessage::UnkownMessage(UnkownMessage))
    } else {
        match decoded {
            Some(m) => r == Ok::<IpcMessage, InvalidBytesForMessage>(IpcMessage::Init(m)),
            None => match r {
                Err(InvalidBytesForMessage::FormatMessage(bytes)) => bytes@ == tag_bytes(tag),
                _ => false,
            },
        }
    }
}

/// `r` is what `decode_init` made of `payload`, taken as a message of the tag `Init`.
pub open spec fn decoded_by<F: FnOnce(Vec<u8>) -> Option<InitMessage>>(
    decode_init: F,
    payload: Vec<u8>,
    r: Result<IpcMessage, InvalidBytesForMessage>,
) -> bool {
    exists|d: Option<InitMessage>|
        #[trigger] decode_init.ensures((payload,), d) && is_envelope_of(r, INIT_TAG, d)
}

impl IpcMessage {
    pub fn tag_code(&self) -> (r: TypeTagSize)
        ensures
            r == tag_of(*self),
    {
        match self {
            IpcMessage::Init(_) => INIT_TAG,
            IpcMessage::UnkownMessage(_) => UNKNOWN_TAG,
        }
    }

    /// Decodes a finished frame. The payload of a frame tagged `Init` goes to
    /// `decode_init`, the value codec; any other tag gives an unknown message
    /// without a look at the payload.
    pub fn from_bytes<F: FnOnce(Vec<u8>) -> Option<InitMessage>>(
        buffer: ParsedBinaryStream,
        decode_init: F,
    ) -> (r: Result<Self, InvalidBytesForMessage>)
        requires
            buffer.type_tag == INIT_TAG ==> decode_init.requires((buffer.payload_as_bytes,)),
        ensures
            buffer.type_tag != INIT_TAG ==> is_envelope_of(r, buffer.type_tag, None),
            buffer.type_tag == INIT_TAG ==> decoded_by(decode_init, buffer.payload_as_bytes, r),
    {
        let ParsedBinaryStream { type_tag, payload_as_bytes, .. } = buffer;
        if type_tag == INIT_TAG {
            let decoded = decode_init(payload_as_bytes);
            let r = Self::parse_it(decoded);
            assert(decode_init.ensures((buffer.payload_as_bytes,), decoded));
            r
        } else {
            Ok(IpcMessage::UnkownMessage(UnkownMessage))
        }
    }

    /// The message of a frame tagged `Init`, from what the value codec made of
    /// its payload: the message it decoded, or a format error where it failed.
    pub fn parse_it(decoded: Option<InitMessage>) -> (r: Result<Self, InvalidBytesForMessage>)
        ensures
            is_envelope_of(r, INIT_TAG, decoded),
    {
        match decoded {
            Some(message) => Ok(IpcMessage::Init(message)),
            None => Err(InvalidBytesForMessage::FormatMessage(u16_to_bytes(INIT_TAG))),
        }
    }
}

} // verus!
