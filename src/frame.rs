use vstd::prelude::*;

use crate::codec::{be_i16, be_uint, too_few};
use crate::errors::{FrameError, LowLevelDeserializationError, ParseError};

verus! {

/// The length of a frame header of protocol version 4.
pub const HEADER_SIZE: usize = 9;

/// The opcode of a message from the server.
#[derive(Debug, Clone, Copy, PartialEq, Eq, Structural)]
pub enum ResponseOpcode {
    Error,
    Ready,
    Authenticate,
    Supported,
    Result,
    Event,
    AuthChallenge,
    AuthSuccess,
}

/// The message that an opcode byte names, if any.
pub open spec fn opcode_of(b: u8) -> Option<ResponseOpcode> {
    if b == 0x00 {
        Some(ResponseOpcode::Error)
    } else if b == 0x02 {
        Some(ResponseOpcode::Ready)
    } else if b == 0x03 {
        Some(ResponseOpcode::Authenticate)
    } else if b == 0x06 {
        Some(ResponseOpcode::Supported)
    } else if b == 0x08 {
        Some(ResponseOpcode::Result)
    } else if b == 0x0C {
        Some(ResponseOpcode::Event)
    } else if b == 0x0E {
        Some(ResponseOpcode::AuthChallenge)
    } else if b == 0x10 {
        Some(ResponseOpcode::AuthSuccess)
    } else {
        None
    }
}

impl ResponseOpcode {
    pub fn try_from_u8(b: u8) -> (r: Result<ResponseOpcode, FrameError>)
        ensures
            r is Ok <==> opcode_of(b) is Some,
            r matches Ok(o) ==> opcode_of(b) == Some(o),
            r matches Err(e) ==> e == FrameError::TryFromPrimitiveError(b),
    {
        match b {
            0x00 => Ok(ResponseOpcode::Error),
            0x02 => Ok(ResponseOpcode::Ready),
            0x03 => Ok(ResponseOpcode::Authenticate),
            0x06 => Ok(ResponseOpcode::Supported),
            0x08 => Ok(ResponseOpcode::Result),
            0x0C => Ok(ResponseOpcode::Event),
            0x0E => Ok(ResponseOpcode::AuthChallenge),
            0x10 => Ok(ResponseOpcode::AuthSuccess),
            _ => Err(FrameError::TryFromPrimitiveError(b)),
        }
    }
}

/// The header of a frame from the server.
#[derive(Debug, Clone, Copy, PartialEq, Eq, Structural)]
pub struct ResponseHeader {
    pub version: u8,
    pub flags: u8,
    pub stream: i16,
    pub opcode: ResponseOpcode,
    pub length: u32,
}

/// What reading a response header from `b` gives: too few bytes, a frame
/// marked as a request, an unsupported protocol version, an unknown opcode,
/// or the header.
pub open spec fn parse_response_header_spec(b: Seq<u8>) -> Result<ResponseHeader, FrameError> {
    if b.len() < HEADER_SIZE {
        Err(FrameError::Parse(ParseError::LowLevelDeserializationError(too_few(HEADER_SIZE as int, b.len() as int))))
    } else if b[0] < 0x80 {
        Err(FrameError::FrameFromClient)
    } else if b[0] - 0x80 != 4 {
        Err(FrameError::VersionNotSupported((b[0] - 0x80) as u8))
    } else if opcode_of(b[4]) is None {
        Err(FrameError::TryFromPrimitiveError(b[4]))
    } else {
        Ok(
            ResponseHeader {
                version: 4,
                flags: b[1],
                stream: be_i16(b, 2) as i16,
                opcode: opcode_of(b[4])->0,
                length: be_uint(b, 5, 4) as u32,
            },
        )
    }
}

/// Reads the 9-byte header of a frame from the server: the version byte (top
/// bit set for a response, protocol version in the low bits), flags, stream
/// id, opcode and big-endian body length.
pub fn parse_response_header(buf: &[u8]) -> (r: Result<ResponseHeader, FrameError>)
    ensures
        r == parse_response_header_spec(buf@),
{
    if buf.len() < HEADER_SIZE {
        return Err(
            FrameError::Parse(
                ParseError::LowLevelDeserializationError(
                    LowLevelDeserializationError::TooFewBytesReceived {
                        expected: HEADER_SIZE,
                        received: buf.len(),
                    },
                ),
            ),
        );
    }
    let v = buf[0];
    if v < 0x80 {
        return Err(FrameError::FrameFromClient);
    }
    if v - 0x80 != 4 {
        return Err(FrameError::VersionNotSupported(v - 0x80));
    }
    let flags = buf[1];
    let s: u32 = buf[2] as u32 * 256 + buf[3] as u32;
    let stream: i16 = if s >= 0x8000 {
        (s as i32 - 0x1_0000) as i16
    } else {
        s as i16
    };
    let opcode = match ResponseOpcode::try_from_u8(buf[4]) {
        Ok(o) => o,
        Err(e) => return Err(e),
    };
    let length: u32 = ((buf[5] as u32 * 256 + buf[6] as u32) * 256 + buf[7] as u32) * 256
        + buf[8] as u32;
    proof {
        reveal_with_fuel(be_uint, 5);
    }
    Ok(ResponseHeader { version: 4, flags, stream, opcode, length })
}

/// Takes the body announced by `header` from the bytes that followed it; if
/// the connection closed before all of it came, says how many are missing
/// out of how many.
pub fn read_body(header: &ResponseHeader, rest: &[u8]) -> (r: Result<Vec<u8>, FrameError>)
    ensures
        rest@.len() >= header.length ==> (r matches Ok(b) && b@ == rest@.subrange(0, header.length as int)),
        rest@.len() < header.length ==> r == Err::<Vec<u8>, FrameError>(
            FrameError::ConnectionClosed((header.length - rest@.len()) as usize, header.length as usize),
        ),
{
    let total = header.length as usize;
    if rest.len() < total {
        return Err(FrameError::ConnectionClosed(total - rest.len(), total));
    }
    let mut body: Vec<u8> = Vec::new();
    let mut i: usize = 0;
    while i < total
        invariant
            i <= total <= rest@.len(),
            body@ == rest@.subrange(0, i as int),
        decreases total - i,
    {
        body.push(rest[i]);
        i = i + 1;
        assert(body@ =~= rest@.subrange(0, i as int));
    }
    Ok(body)
}

/// What lz4_flex's block decompression gives for a block whose uncompressed
/// length is prefixed: the bytes, or nothing if it fails.
pub uninterp spec fn lz4_decompressed(b: Seq<u8>) -> Option<Seq<u8>>;

/// The longest compressed body handed to lz4_flex: below this length no run of
/// 0xFF length bytes can overflow the `u32` that the decoder sums them in.
pub const MAX_COMPRESSED_LEN: usize = 16_843_014;

/// Relies on lz4_flex::block::decompress_size_prepended: the outcome depends
/// on the bytes alone, and fewer than the 4 bytes of the length prefix fail.
/// Longer inputs are kept out, where the decoder's length sums could overflow.
#[verifier::external_body]
fn lz4_decompress(b: &[u8]) -> (r: Result<Vec<u8>, lz4_flex::block::DecompressError>)
    requires
        b@.len() <= MAX_COMPRESSED_LEN,
    ensures
        r is Ok <==> lz4_decompressed(b@) is Some,
        r matches Ok(v) ==> lz4_decompressed(b@) == Some(v@),
        b@.len() < 4 ==> r is Err,
{
    lz4_flex::block::decompress_size_prepended(b)
}

/// Whether `flags` mark the body as compressed.
pub open spec fn is_compressed(flags: u8) -> bool {
    flags % 2 == 1
}

/// Undoes the compression of a body, if its flags say there is one: an error
/// when none was negotiated, a decompression failure for a body longer than
/// `MAX_COMPRESSED_LEN`, else the lz4 block decompression of the body. An
/// uncompressed body comes back unchanged.
pub fn decompress_body(flags: u8, compression_negotiated: bool, body: Vec<u8>) -> (r: Result<Vec<u8>, FrameError>)
    ensures
        !is_compressed(flags) ==> (r matches Ok(b) && b@ == body@),
        is_compressed(flags) && !compression_negotiated ==> r == Err::<Vec<u8>, FrameError>(
            FrameError::NoCompressionNegotiated,
        ),
        is_compressed(flags) && compression_negotiated && body@.len() > MAX_COMPRESSED_LEN ==> r
            == Err::<Vec<u8>, FrameError>(FrameError::FrameDecompression),
        is_compressed(flags) && compression_negotiated && body@.len() <= MAX_COMPRESSED_LEN ==> {
            &&& r is Ok <==> lz4_decompressed(body@) is Some
            &&& r matches Ok(b) ==> lz4_decompressed(body@) == Some(b@)
            &&& r matches Err(e) ==> e is Lz4DecompressError
        },
{
    if flags % 2 == 0 {
        return Ok(body);
    }
    if !compression_negotiated {
        return Err(FrameError::NoCompressionNegotiated);
    }
    if body.len() > MAX_COMPRESSED_LEN {
        return Err(FrameError::FrameDecompression);
    }
    match lz4_decompress(body.as_slice()) {
        Ok(b) => Ok(b),
        Err(e) => Err(FrameError::Lz4DecompressError(e)),
    }
}

/// Reads a whole frame from the server: its header, then the body it
/// announces, decompressed if its flags say so. Fails at the first malformed
/// part, and never gives a partial frame.
pub fn parse_response_frame(buf: &[u8], compression_negotiated: bool) -> (r: Result<(ResponseHeader, Vec<u8>), FrameError>)
    ensures
        ({
            let h = parse_response_header_spec(buf@);
            &&& h is Err ==> r == Err::<(ResponseHeader, Vec<u8>), FrameError>(h->Err_0)
            &&& h matches Ok(hd) ==> ({
                let rest = buf@.subrange(HEADER_SIZE as int, buf@.len() as int);
                &&& rest.len() < hd.length ==> r == Err::<(ResponseHeader, Vec<u8>), FrameError>(
                    FrameError::ConnectionClosed((hd.length - rest.len()) as usize, hd.length as usize),
                )
                &&& rest.len() >= hd.length && !is_compressed(hd.flags) ==> (r matches Ok((h2, b)) && h2 == hd
                    && b@ == rest.subrange(0, hd.length as int))
                &&& rest.len() >= hd.length && is_compressed(hd.flags) && !compression_negotiated ==> r
                    == Err::<(ResponseHeader, Vec<u8>), FrameError>(FrameError::NoCompressionNegotiated)
                &&& rest.len() >= hd.length && is_compressed(hd.flags) && compression_negotiated ==> ({
                    let packed = rest.subrange(0, hd.length as int);
                    &&& packed.len() > MAX_COMPRESSED_LEN ==> r == Err::<(ResponseHeader, Vec<u8>), FrameError>(
                        FrameError::FrameDecompression,
                    )
                    &&& packed.len() <= MAX_COMPRESSED_LEN ==> {
                        &&& r is Ok <==> lz4_decompressed(packed) is Some
                        &&& r matches Ok((h2, b)) ==> h2 == hd && lz4_decompressed(packed) == Some(b@)
                        &&& r matches Err(e) ==> e is Lz4DecompressError
                    }
                })
            })
        }),
{
    let header = match parse_response_header(buf) {
        Ok(h) => h,
        Err(e) => return Err(e),
    };
    let rest = vstd::slice::slice_subrange(buf, HEADER_SIZE, buf.len());
    let body = match read_body(&header, rest) {
        Ok(b) => b,
        Err(e) => return Err(e),
    };
    match decompress_body(header.flags, compression_negotiated, body) {
        Ok(b) => Ok((header, b)),
        Err(e) => Err(e),
    }
}

/// A compression algorithm that a connection may negotiate.
#[derive(Debug, Clone, Copy, PartialEq, Eq, Structural)]
pub enum Compression {
    LZ4,
}

impl Compression {
    /// The name of the algorithm in the startup options.
    pub fn as_str(&self) -> (r: &'static str)
        ensures
            r@ == "lz4"@,
    {
        match self {
            Compression::LZ4 => "lz4",
        }
    }
}

/// The options sent in the startup message of a connection: the compression
/// algorithm, if one is wanted.
pub fn startup_options(compression: Option<Compression>) -> (r: Vec<(String, String)>)
    ensures
        compression is None ==> r@.len() == 0,
        compression is Some ==> r@.len() == 1 && r@[0].0@ == "COMPRESSION"@ && r@[0].1@ == "lz4"@,
{
    let mut options: Vec<(String, String)> = Vec::new();
    match compression {
        Some(c) => {
            options.push((String::from_str("COMPRESSION"), String::from_str(c.as_str())));
        },
        None => {},
    }
    options
}

} // verus!
