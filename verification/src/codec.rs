use vstd::prelude::*;
use vstd::slice::slice_subrange;

use crate::text::{decimal, push_decimal};
use crate::wire::{get_u16_le, get_u32_le, le16, le32, lemma_read_le16, lemma_read_le32, push_bytes, push_u16_le, push_u32_le, read_u16, read_u32};

verus! {

/// Header length of a client request frame: key and body length.
pub const REQ_HEADER_SIZE: usize = 6;

/// Header length of a server success frame: key, error code and body length.
pub const RSP_HEADER_SIZE: usize = 8;

/// Why a server frame could not be decoded.
#[derive(Debug)]
pub enum CodecError {
    PacketTooShort { got: usize, expected: usize },
    BodyOverflow { declared: u32, available: usize },
}

impl CodecError {
    /// The human-readable description of the error.
    pub open spec fn spec_message(self) -> Seq<char> {
        match self {
            CodecError::PacketTooShort { got, expected } => "packet too short: "@ + decimal(
                got as nat,
            ) + " < "@ + decimal(expected as nat),
            CodecError::BodyOverflow { declared, available } => "body overflow: declared "@
                + decimal(declared as nat) + " but only "@ + decimal(available as nat)
                + " available"@,
        }
    }

    /// Renders the error as text, as its `Display` form would.
    pub fn message(&self) -> (s: String)
        ensures
            s@ == self.spec_message(),
    {
        let mut s = String::new();
        match self {
            CodecError::PacketTooShort { got, expected } => {
                s.append("packet too short: ");
                push_decimal(&mut s, *got as u64);
                s.append(" < ");
                push_decimal(&mut s, *expected as u64);
            },
            CodecError::BodyOverflow { declared, available } => {
                s.append("body overflow: declared ");
                push_decimal(&mut s, *declared as u64);
                s.append(" but only ");
                push_decimal(&mut s, *available as u64);
                s.append(" available");
            },
        }
        assert(s@ =~= self.spec_message());
        s
    }
}

/// The errors read "packet too short: {got} < {expected}" and "body
/// overflow: declared {declared} but only {available} available", numbers in
/// decimal.
pub proof fn lemma_codec_error_text(got: usize, expected: usize, declared: u32, available: usize)
    ensures
        (CodecError::PacketTooShort { got, expected }).spec_message() == "packet too short: "@
            + decimal(got as nat) + " < "@ + decimal(expected as nat),
        (CodecError::BodyOverflow { declared, available }).spec_message() == "body overflow: declared "@
            + decimal(declared as nat) + " but only "@ + decimal(available as nat) + " available"@,
{
}

/// A client request frame: `[2B key LE] [4B body_len LE] [body]`.
pub open spec fn request_frame(key: u16, body: Seq<u8>) -> Seq<u8> {
    le16(key) + le32(body.len() as u32) + body
}

/// A server success frame: `[2B key LE] [2B err LE] [4B body_len LE] [body]`.
pub open spec fn response_frame(key: u16, err: u16, body: Seq<u8>) -> Seq<u8> {
    le16(key) + le16(err) + le32(body.len() as u32) + body
}

/// A server error frame: `[2B key LE] [2B err LE]`.
pub open spec fn error_frame(key: u16, err: u16) -> Seq<u8> {
    le16(key) + le16(err)
}

/// What decoding a server frame yields: key, error code and body, or why it failed.
pub open spec fn spec_decode(d: Seq<u8>) -> Result<(u16, u16, Seq<u8>), CodecError> {
    if d.len() < 4 {
        Err(CodecError::PacketTooShort { got: d.len() as usize, expected: 4 })
    } else {
        let key = read_u16(d, 0);
        let err = read_u16(d, 2);
        if err != 0 || d.len() == 4 {
            Ok((key, err, Seq::<u8>::empty()))
        } else if d.len() < 8 {
            Err(CodecError::PacketTooShort { got: d.len() as usize, expected: 8 })
        } else {
            let body_len = read_u32(d, 4);
            if body_len > d.len() - 8 {
                Err(CodecError::BodyOverflow { declared: body_len, available: (d.len() - 8) as usize })
            } else {
                Ok((key, err, d.subrange(8, 8 + body_len)))
            }
        }
    }
}

/// What decoding a client request frame yields: key and body, or why it
/// failed. Bytes after the declared body are ignored.
pub open spec fn spec_decode_request(d: Seq<u8>) -> Result<(u16, Seq<u8>), CodecError> {
    if d.len() < 6 {
        Err(CodecError::PacketTooShort { got: d.len() as usize, expected: 6 })
    } else {
        let body_len = read_u32(d, 2);
        if body_len > d.len() - 6 {
            Err(CodecError::BodyOverflow { declared: body_len, available: (d.len() - 6) as usize })
        } else {
            Ok((read_u16(d, 0), d.subrange(6, 6 + body_len)))
        }
    }
}

/// Binary packet codec for the asymmetric wire protocol: requests carry a
/// 6-byte header, server success frames an 8-byte header, server error frames
/// only key and error code.
pub struct PacketCodec;

impl PacketCodec {
    /// Encode a client request: `[2B key LE] [4B body_len LE] [body]`.
    /// The length field holds the body length modulo 2^32.
    pub fn encode(key: u16, body: &[u8]) -> (packet: Vec<u8>)
        ensures
            packet@ == request_frame(key, body@),
            packet@.len() == REQ_HEADER_SIZE + body@.len(),
    {
        let mut packet: Vec<u8> = Vec::new();
        push_u16_le(&mut packet, key);
        push_u32_le(&mut packet, body.len() as u32);
        push_bytes(&mut packet, body);
        assert(packet@ =~= request_frame(key, body@));
        packet
    }

    /// Decode a server frame into `(key, err, body)`: an error frame (err != 0,
    /// or exactly four bytes) has an empty body; a success frame carries the
    /// number of body bytes its length field declares, and bytes beyond them
    /// are ignored.
    pub fn decode(data: &[u8]) -> (r: Result<(u16, u16, &[u8]), CodecError>)
        ensures
            match r {
                Ok((key, err, body)) => spec_decode(data@) == Ok::<(u16, u16, Seq<u8>), CodecError>(
                    (key, err, body@),
                ),
                Err(e) => spec_decode(data@) == Err::<(u16, u16, Seq<u8>), CodecError>(e),
            },
    {
        if data.len() < 4 {
            return Err(CodecError::PacketTooShort { got: data.len(), expected: 4 });
        }
        let key = get_u16_le(data, 0);
        let err = get_u16_le(data, 2);
        if err != 0 || data.len() == 4 {
            let empty: &[u8] = slice_subrange(data, 0, 0);
            assert(empty@ =~= Seq::<u8>::empty());
            return Ok((key, err, empty));
        }
        if data.len() < RSP_HEADER_SIZE {
            return Err(CodecError::PacketTooShort { got: data.len(), expected: RSP_HEADER_SIZE });
        }
        let body_len = get_u32_le(data, 4);
        let available = data.len() - RSP_HEADER_SIZE;
        if (body_len as usize) > available {
            return Err(CodecError::BodyOverflow { declared: body_len, available });
        }
        let body = slice_subrange(data, RSP_HEADER_SIZE, RSP_HEADER_SIZE + body_len as usize);
        Ok((key, err, body))
    }

    /// Decode a client request frame, as `encode` writes it, into
    /// `(key, body)`; bytes after the declared body are ignored.
    pub fn decode_request(data: &[u8]) -> (r: Result<(u16, &[u8]), CodecError>)
        ensures
            match r {
                Ok((key, body)) => spec_decode_request(data@) == Ok::<(u16, Seq<u8>), CodecError>(
                    (key, body@),
                ),
                Err(e) => spec_decode_request(data@) == Err::<(u16, Seq<u8>), CodecError>(e),
            },
    {
        if data.len() < REQ_HEADER_SIZE {
            return Err(CodecError::PacketTooShort { got: data.len(), expected: REQ_HEADER_SIZE });
        }
        let key = get_u16_le(data, 0);
        let body_len = get_u32_le(data, 2);
        let available = data.len() - REQ_HEADER_SIZE;
        if (body_len as usize) > available {
            return Err(CodecError::BodyOverflow { declared: body_len, available });
        }
        let body = slice_subrange(data, REQ_HEADER_SIZE, REQ_HEADER_SIZE + body_len as usize);
        Ok((key, body))
    }
}

/// An encoded request decodes back to its key and body.
pub proof fn lemma_decode_request_round_trip(key: u16, body: Seq<u8>)
    requires
        body.len() <= u32::MAX,
    ensures
        spec_decode_request(request_frame(key, body)) == Ok::<(u16, Seq<u8>), CodecError>(
            (key, body),
        ),
{
    lemma_request_header(key, body);
}

/// The header of an encoded request reads back as the key and the body length.
pub proof fn lemma_request_header(key: u16, body: Seq<u8>)
    ensures
        read_u16(request_frame(key, body), 0) == key,
        read_u32(request_frame(key, body), 2) == body.len() as u32,
        request_frame(key, body).subrange(6, 6 + body.len() as int) == body,
{
    lemma_read_le16(key, Seq::empty(), le32(body.len() as u32) + body);
    assert(Seq::<u8>::empty() + le16(key) + (le32(body.len() as u32) + body) =~= request_frame(
        key,
        body,
    ));
    lemma_read_le32(body.len() as u32, le16(key), body);
    assert(request_frame(key, body).subrange(6, 6 + body.len() as int) =~= body);
}

/// A success frame decodes to its key, a zero error code and exactly its
/// body, whatever bytes follow it.
pub proof fn lemma_decode_response_frame(key: u16, body: Seq<u8>, trailing: Seq<u8>)
    requires
        body.len() <= u32::MAX,
    ensures
        spec_decode(response_frame(key, 0, body) + trailing) == Ok::<
            (u16, u16, Seq<u8>),
            CodecError,
        >((key, 0, body)),
{
    let d = response_frame(key, 0, body) + trailing;
    lemma_read_le16(key, Seq::empty(), le16(0) + le32(body.len() as u32) + body + trailing);
    assert(Seq::<u8>::empty() + le16(key) + (le16(0) + le32(body.len() as u32) + body + trailing)
        =~= d);
    lemma_read_le16(0, le16(key), le32(body.len() as u32) + body + trailing);
    assert(le16(key) + le16(0) + (le32(body.len() as u32) + body + trailing) =~= d);
    lemma_read_le32(body.len() as u32, le16(key) + le16(0), body + trailing);
    assert(le16(key) + le16(0) + le32(body.len() as u32) + (body + trailing) =~= d);
    assert(d.subrange(8, 8 + body.len() as int) =~= body);
}

/// An error frame (non-zero code) decodes to its key and code with an empty
/// body, whatever bytes follow it.
pub proof fn lemma_decode_error_frame(key: u16, err: u16, trailing: Seq<u8>)
    requires
        err != 0,
    ensures
        spec_decode(error_frame(key, err) + trailing) == Ok::<(u16, u16, Seq<u8>), CodecError>(
            (key, err, Seq::empty()),
        ),
{
    let d = error_frame(key, err) + trailing;
    lemma_read_le16(key, Seq::empty(), le16(err) + trailing);
    assert(Seq::<u8>::empty() + le16(key) + (le16(err) + trailing) =~= d);
    lemma_read_le16(err, le16(key), trailing);
}

/// A decoded body is always a contiguous part of the frame, starting right
/// after the 8-byte header.
pub proof fn lemma_decoded_body_within_frame(d: Seq<u8>)
    ensures
        spec_decode(d) matches Ok((key, err, body)) ==> body.len() == 0 || (err == 0 && 8
            + body.len() <= d.len() && body == d.subrange(8, 8 + body.len() as int)),
{
}

} // verus!
