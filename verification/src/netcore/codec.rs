use vstd::prelude::*;
use vstd::slice::slice_subrange;

use crate::codec::response_frame;
use crate::text::{decimal, push_decimal};
use crate::wire::{
    get_u16_le, get_u32_le, le16, le32, lemma_read_le16, lemma_read_le32, push_bytes,
    push_u16_le, push_u32_le, read_u16, read_u32,
};

verus! {

/// Header length of every success frame: key, error code and body length.
pub const HEADER_SIZE: usize = 8;

/// Why a frame could not be decoded.
#[derive(Debug)]
pub enum CodecError {
    PacketTooShort { got: usize },
    BodyOverflow { declared: u32, available: usize },
}

impl CodecError {
    /// The human-readable description of the error.
    pub open spec fn spec_message(self) -> Seq<char> {
        match self {
            CodecError::PacketTooShort { got } => "packet too short: "@ + decimal(got as nat)
                + " < 8"@,
            CodecError::BodyOverflow { declared, available } => "body overflow: declared "@
                + decimal(declared as nat) + " but only "@ + decimal(available as nat)
                + " available"@,
        }
    }

    /// Renders the error as text, as its `Display` form would.
    pub fn message(&self) -> (s: String)
        ensures
            s@ == self.spec_message(),
    {
        let mut s = String::new();
        match self {
            CodecError::PacketTooShort { got } => {
                s.append("packet too short: ");
                push_decimal(&mut s, *got as u64);
                s.append(" < 8");
            },
            CodecError::BodyOverflow { declared, available } => {
                s.append("body overflow: declared ");
                push_decimal(&mut s, *declared as u64);
                s.append(" but only ");
                push_decimal(&mut s, *available as u64);
                s.append(" available");
            },
        }
        assert(s@ =~= self.spec_message());
        s
    }
}

/// The errors read "packet too short: {got} < 8" and "body overflow:
/// declared {declared} but only {available} available", numbers in decimal.
pub proof fn lemma_codec_error_text(got: usize, declared: u32, available: usize)
    ensures
        (CodecError::PacketTooShort { got }).spec_message() == "packet too short: "@ + decimal(
            got as nat,
        ) + " < 8"@,
        (CodecError::BodyOverflow { declared, available }).spec_message() == "body overflow: declared "@
            + decimal(declared as nat) + " but only "@ + decimal(available as nat) + " available"@,
{
}

/// What decoding a frame yields: key, error code and body, or why it failed.
pub open spec fn spec_decode(d: Seq<u8>) -> Result<(u16, u16, Seq<u8>), CodecError> {
    if d.len() < 4 {
        Err(CodecError::PacketTooShort { got: d.len() as usize })
    } else {
        let key = read_u16(d, 0);
        let err = read_u16(d, 2);
        if err != 0 || d.len() == 4 {
            Ok((key, err, Seq::<u8>::empty()))
        } else if d.len() < 8 {
            Err(CodecError::PacketTooShort { got: d.len() as usize })
        } else {
            let body_len = read_u32(d, 4);
            if body_len > d.len() - 8 {
                Err(CodecError::BodyOverflow { declared: body_len, available: (d.len() - 8) as usize })
            } else {
                Ok((key, err, d.subrange(8, 8 + body_len)))
            }
        }
    }
}

/// Binary packet codec: `[2B key LE] [2B err LE] [4B body_len LE] [body]` for
/// success frames, `[2B key LE] [2B err LE]` alone when `err != 0`.
pub struct PacketCodec;

impl PacketCodec {
    /// Encodes a frame with error code 0. The length field holds the body
    /// length modulo 2^32.
    pub fn encode(key: u16, body: &[u8]) -> (packet: Vec<u8>)
        ensures
            packet@ == response_frame(key, 0, body@),
            packet@.len() == HEADER_SIZE + body@.len(),
    {
        let mut packet: Vec<u8> = Vec::new();
        push_u16_le(&mut packet, key);
        push_u16_le(&mut packet, 0);
        push_u32_le(&mut packet, body.len() as u32);
        push_bytes(&mut packet, body);
        assert(packet@ =~= response_frame(key, 0, body@));
        packet
    }

    /// Decodes a frame into `(key, err, body)`: an error frame (err != 0, or
    /// exactly four bytes) has an empty body; a success frame carries the
    /// number of body bytes its length field declares.
    pub fn decode(data: &[u8]) -> (r: Result<(u16, u16, &[u8]), CodecError>)
        ensures
            match r {
                Ok((key, err, body)) => spec_decode(data@) == Ok::<(u16, u16, Seq<u8>), CodecError>(
                    (key, err, body@),
                ),
                Err(e) => spec_decode(data@) == Err::<(u16, u16, Seq<u8>), CodecError>(e),
            },
    {
        if data.len() < 4 {
            return Err(CodecError::PacketTooShort { got: data.len() });
        }
        let key = get_u16_le(data, 0);
        let err = get_u16_le(data, 2);
        if err != 0 || data.len() == 4 {
            let empty: &[u8] = slice_subrange(data, 0, 0);
            assert(empty@ =~= Seq::<u8>::empty());
            return Ok((key, err, empty));
        }
        if data.len() < HEADER_SIZE {
            return Err(CodecError::PacketTooShort { got: data.len() });
        }
        let body_len = get_u32_le(data, 4);
        let available = data.len() - HEADER_SIZE;
        if (body_len as usize) > available {
            return Err(CodecError::BodyOverflow { declared: body_len, available });
        }
        let body = slice_subrange(data, HEADER_SIZE, HEADER_SIZE + body_len as usize);
        Ok((key, err, body))
    }
}

/// Round trip: decoding an encoded frame gives back the key, a zero error
/// code and the body, for every body whose length fits the 32-bit field.
pub proof fn lemma_decode_encode(key: u16, body: Seq<u8>)
    requires
        body.len() <= u32::MAX,
    ensures
        spec_decode(response_frame(key, 0, body)) == Ok::<(u16, u16, Seq<u8>), CodecError>(
            (key, 0, body),
        ),
{
    let d = response_frame(key, 0, body);
    lemma_read_le16(key, Seq::empty(), le16(0) + le32(body.len() as u32) + body);
    assert(Seq::<u8>::empty() + le16(key) + (le16(0) + le32(body.len() as u32) + body) =~= d);
    lemma_read_le16(0, le16(key), le32(body.len() as u32) + body);
    assert(le16(key) + le16(0) + (le32(body.len() as u32) + body) =~= d);
    lemma_read_le32(body.len() as u32, le16(key) + le16(0), body);
    assert(d.subrange(8, 8 + body.len() as int) =~= body);
}

/// A frame is rejected exactly when it is shorter than four bytes, or is a
/// success frame (zero code, more than four bytes) whose header is cut short
/// or whose declared body runs past the end of the data.
pub proof fn lemma_decode_rejects(d: Seq<u8>)
    ensures
        spec_decode(d) is Err <==> (d.len() < 4 || (read_u16(d, 2) == 0 && d.len() > 4 && (d.len()
            < 8 || read_u32(d, 4) > d.len() - 8))),
{
}

} // verus!
