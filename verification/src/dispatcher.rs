use vstd::prelude::*;
use vstd::slice::slice_to_vec;
use vstd::utf8::encode_utf8;

use crate::codec::{spec_decode, spec_decode_request, CodecError, PacketCodec};
use crate::wire::read_u16;
use crate::event::NetEvent;

verus! {

/// The body of the event reporting an undecodable frame: the UTF-8 bytes of
/// "codec error: " followed by the error's description.
pub open spec fn codec_error_body(e: CodecError) -> Seq<u8> {
    encode_utf8("codec error: "@ + e.spec_message())
}

/// How the dispatcher reads a frame: a frame that is exactly a request frame
/// as `PacketCodec::encode` writes it (key, body length, body, nothing after)
/// gives its key, code 0 and its body; any other frame is read as a server
/// frame (see `spec_decode`).
pub open spec fn dispatch_frame(d: Seq<u8>) -> Result<(u16, u16, Seq<u8>), CodecError> {
    match spec_decode_request(d) {
        Ok((k, b)) => if d.len() == 6 + b.len() {
            Ok((k, 0u16, b))
        } else {
            spec_decode(d)
        },
        Err(_) => spec_decode(d),
    }
}

/// Decodes a raw frame into an event (see `dispatch_frame`). Protobuf bodies
/// are not deserialized here (that is left to the game scripts): a decodable
/// frame becomes a `RawMessage` with its key, error code and body, an
/// undecodable one a `RawMessage` with key and code 0 whose body describes
/// the error.
pub fn dispatch(raw: &[u8]) -> (ev: NetEvent)
    ensures
        match dispatch_frame(raw@) {
            Ok((k, e, b)) => ev matches NetEvent::RawMessage { key, err, body } && key == k && err
                == e && body@ == b,
            Err(x) => ev matches NetEvent::RawMessage { key, err, body } && key == 0 && err == 0
                && body@ == codec_error_body(x),
        },
{
    match PacketCodec::decode_request(raw) {
        Ok((key, body)) => {
            if raw.len() - body.len() == 6 {
                return NetEvent::RawMessage { key, err: 0, body: slice_to_vec(body) };
            }
        },
        Err(_) => {},
    }
    match PacketCodec::decode(raw) {
        Ok((key, err, body)) => NetEvent::RawMessage { key, err, body: slice_to_vec(body) },
        Err(e) => {
            let mut text = String::new();
            text.append("codec error: ");
            let m = e.message();
            text.append(m.as_str());
            let bytes = slice_to_vec(text.as_str().as_bytes());
            NetEvent::RawMessage { key: 0, err: 0, body: bytes }
        },
    }
}

/// A server error frame that is not exactly a request frame is reported with
/// its key and code and no body.
pub proof fn lemma_dispatch_error_frame(d: Seq<u8>)
    requires
        d.len() >= 4,
        read_u16(d, 2) != 0,
        !(spec_decode_request(d) matches Ok((k, b)) && d.len() == 6 + b.len()),
    ensures
        dispatch_frame(d) == Ok::<(u16, u16, Seq<u8>), CodecError>(
            (read_u16(d, 0), read_u16(d, 2), Seq::empty()),
        ),
{
}

} // verus!
