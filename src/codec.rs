use vstd::prelude::*;
use vstd::utf8::{decode_utf8, encode_utf8, valid_utf8};

use crate::errors::{LowLevelDeserializationError, ParseError, SetKeyspaceParseError, TableSpecParseError};

verus! {

broadcast use vstd::utf8::encode_utf8_decode_utf8, vstd::utf8::encode_utf8_valid_utf8;

/// The big-endian unsigned integer held by the `n` bytes at `pos`.
pub open spec fn be_uint(b: Seq<u8>, pos: int, n: nat) -> nat
    decreases n,
{
    if n == 0 {
        0
    } else {
        be_uint(b, pos, (n - 1) as nat) * 256 + b[pos + n - 1] as nat
    }
}

/// The big-endian two's complement integer held by the 4 bytes at `pos`.
pub open spec fn be_i32(b: Seq<u8>, pos: int) -> int {
    let u = be_uint(b, pos, 4);
    if u >= 0x8000_0000 {
        u - 0x1_0000_0000
    } else {
        u as int
    }
}

/// The big-endian two's complement integer held by the 2 bytes at `pos`.
pub open spec fn be_i16(b: Seq<u8>, pos: int) -> int {
    let u = be_uint(b, pos, 2);
    if u >= 0x8000 {
        u - 0x1_0000
    } else {
        u as int
    }
}

proof fn lemma_be_bounds(b: Seq<u8>, pos: int)
    ensures
        be_uint(b, pos, 2) < 0x1_0000,
        be_uint(b, pos, 4) < 0x1_0000_0000,
        i32::MIN <= be_i32(b, pos) <= i32::MAX,
        i16::MIN <= be_i16(b, pos) <= i16::MAX,
{
    reveal_with_fuel(be_uint, 5);
    let x0 = b[pos] as nat;
    let x1 = b[pos + 1] as nat;
    let x2 = b[pos + 2] as nat;
    let x3 = b[pos + 3] as nat;
    assert(((x0 * 256 + x1) * 256 + x2) * 256 + x3 < 0x1_0000_0000) by (nonlinear_arith)
        requires
            x0 < 256,
            x1 < 256,
            x2 < 256,
            x3 < 256,
    ;
}

/// The failure for a read of `expected` bytes where only `received` are left.
pub open spec fn too_few(expected: int, received: int) -> LowLevelDeserializationError {
    LowLevelDeserializationError::TooFewBytesReceived {
        expected: expected as usize,
        received: received as usize,
    }
}

/// The two big-endian bytes of `n`.
pub open spec fn u16_bytes(n: nat) -> Seq<u8> {
    seq![(n / 256) as u8, (n % 256) as u8]
}

/// A `[string]`: its UTF-8 length as two big-endian bytes, then its bytes.
pub open spec fn string_encoding(s: Seq<char>) -> Seq<u8> {
    u16_bytes(encode_utf8(s).len()) + encode_utf8(s)
}

/// The bytes of the `[string]` whose length stands at `pos`.
pub open spec fn string_bytes(b: Seq<u8>, pos: int) -> Seq<u8> {
    b.subrange(pos + 2, pos + 2 + be_uint(b, pos, 2))
}

/// Whether the bytes after `pos` hold a `[string]`'s length and as many bytes
/// as it says.
pub open spec fn string_fits(b: Seq<u8>, pos: int) -> bool {
    b.len() - pos >= 2 && b.len() - pos - 2 >= be_uint(b, pos, 2)
}

/// The `[string]` at `pos`, if its bytes are all there and are UTF-8.
pub open spec fn decoded_string(b: Seq<u8>, pos: int) -> Option<Seq<char>> {
    if string_fits(b, pos) && valid_utf8(string_bytes(b, pos)) {
        Some(decode_utf8(string_bytes(b, pos)))
    } else {
        None
    }
}

/// The failure of a `[string]` read at `pos`: too few bytes for the length,
/// too few for the bytes it gives, or bytes that are not UTF-8.
pub open spec fn string_failure(b: Seq<u8>, pos: int, e: LowLevelDeserializationError) -> bool {
    if b.len() - pos < 2 {
        e == too_few(2, b.len() - pos)
    } else if b.len() - pos - 2 < be_uint(b, pos, 2) {
        e == too_few(be_uint(b, pos, 2) as int, b.len() - pos - 2)
    } else {
        e is UTF8DeserializationError
    }
}

/// Relies on std::str::from_utf8: it succeeds exactly on valid UTF-8, and the
/// string it gives holds those bytes.
#[verifier::external_body]
fn utf8_str(b: &[u8]) -> (r: Result<&str, std::str::Utf8Error>)
    ensures
        r is Ok <==> valid_utf8(b@),
        r matches Ok(s) ==> s@ == decode_utf8(b@),
{
    std::str::from_utf8(b)
}

/// Reads a `[short]`: an unsigned 16-bit big-endian integer at `pos`.
pub fn read_short(buf: &[u8], pos: usize) -> (r: Result<(u16, usize), LowLevelDeserializationError>)
    requires
        pos <= buf@.len(),
    ensures
        buf@.len() - pos >= 2 ==> r == Ok::<(u16, usize), LowLevelDeserializationError>(
            (be_uint(buf@, pos as int, 2) as u16, (pos + 2) as usize),
        ),
        buf@.len() - pos < 2 ==> r == Err::<(u16, usize), LowLevelDeserializationError>(
            too_few(2, buf@.len() - pos),
        ),
{
    if buf.len() - pos < 2 {
        return Err(
            LowLevelDeserializationError::TooFewBytesReceived { expected: 2, received: buf.len() - pos },
        );
    }
    let v: u16 = buf[pos] as u16 * 256 + buf[pos + 1] as u16;
    proof {
        reveal_with_fuel(be_uint, 3);
    }
    Ok((v, pos + 2))
}

/// Reads an `[int]`: a signed 32-bit big-endian integer at `pos`.
pub fn read_int(buf: &[u8], pos: usize) -> (r: Result<(i32, usize), LowLevelDeserializationError>)
    requires
        pos <= buf@.len(),
    ensures
        buf@.len() - pos >= 4 ==> r == Ok::<(i32, usize), LowLevelDeserializationError>(
            (be_i32(buf@, pos as int) as i32, (pos + 4) as usize),
        ),
        buf@.len() - pos < 4 ==> r == Err::<(i32, usize), LowLevelDeserializationError>(
            too_few(4, buf@.len() - pos),
        ),
{
    if buf.len() - pos < 4 {
        return Err(
            LowLevelDeserializationError::TooFewBytesReceived { expected: 4, received: buf.len() - pos },
        );
    }
    let u: u64 = ((buf[pos] as u64 * 256 + buf[pos + 1] as u64) * 256 + buf[pos + 2] as u64) * 256
        + buf[pos + 3] as u64;
    proof {
        reveal_with_fuel(be_uint, 5);
    }
    let v: i32 = if u >= 0x8000_0000 {
        (u as i64 - 0x1_0000_0000) as i32
    } else {
        u as i32
    };
    Ok((v, pos + 4))
}

/// Reads a `[string]` at `pos`: a `[short]` length, then that many bytes of
/// UTF-8.
pub fn read_string(buf: &[u8], pos: usize) -> (r: Result<(String, usize), LowLevelDeserializationError>)
    requires
        pos <= buf@.len(),
    ensures
        r is Ok <==> decoded_string(buf@, pos as int) is Some,
        r matches Ok((s, end)) ==> Some(s@) == decoded_string(buf@, pos as int) && end == pos + 2
            + be_uint(buf@, pos as int, 2),
        r matches Err(e) ==> string_failure(buf@, pos as int, e),
{
    let (n, start) = match read_short(buf, pos) {
        Ok(v) => v,
        Err(e) => return Err(e),
    };
    proof {
        reveal_with_fuel(be_uint, 3);
    }
    let n = n as usize;
    assert(n == be_uint(buf@, pos as int, 2));
    if buf.len() - start < n {
        return Err(
            LowLevelDeserializationError::TooFewBytesReceived { expected: n, received: buf.len() - start },
        );
    }
    let end = start + n;
    let bytes = vstd::slice::slice_subrange(buf, start, end);
    assert(bytes@ =~= string_bytes(buf@, pos as int));
    match utf8_str(bytes) {
        Ok(s) => Ok((String::from_str(s), end)),
        Err(e) => Err(LowLevelDeserializationError::UTF8DeserializationError(e)),
    }
}

/// Appends `s` as a `[string]`; a string of more than 65535 bytes has no such
/// encoding.
pub fn write_string(s: &str, out: &mut Vec<u8>) -> (r: Result<(), ParseError>)
    ensures
        r is Ok <==> encode_utf8(s@).len() <= 0xffff,
        r is Ok ==> final(out)@ == old(out)@ + string_encoding(s@),
        r matches Err(e) ==> e is BadDataToSerialize && final(out)@ == old(out)@,
{
    let b = s.as_bytes();
    assert(b@ == encode_utf8(s@));
    let n = b.len();
    if n > 0xffff {
        return Err(ParseError::BadDataToSerialize(String::from_str("string longer than 65535 bytes")));
    }
    let ghost start = out@;
    out.push((n / 256) as u8);
    out.push((n % 256) as u8);
    let mut i: usize = 0;
    while i < n
        invariant
            i <= n == b@.len(),
            out@ == start + u16_bytes(n as nat) + b@.subrange(0, i as int),
        decreases n - i,
    {
        out.push(b[i]);
        i = i + 1;
        assert(out@ =~= start + u16_bytes(n as nat) + b@.subrange(0, i as int));
    }
    assert(b@.subrange(0, n as int) =~= b@);
    assert(out@ =~= start + string_encoding(s@));
    Ok(())
}

/// A string of at most 65535 UTF-8 bytes is read back exactly from its
/// encoding; its encoding cut short anywhere fails for too few bytes.
pub proof fn lemma_string_round_trip(s: Seq<char>, t: nat)
    requires
        encode_utf8(s).len() <= 0xffff,
    ensures
        decoded_string(string_encoding(s), 0) == Some(s),
        t < string_encoding(s).len() ==> !string_fits(string_encoding(s).subrange(0, t as int), 0),
{
    let e = string_encoding(s);
    let n = encode_utf8(s).len();
    reveal_with_fuel(be_uint, 3);
    assert(be_uint(e, 0, 2) == n);
    assert(string_bytes(e, 0) =~= encode_utf8(s));
    if t < e.len() && t >= 2 {
        let c = e.subrange(0, t as int);
        assert(be_uint(c, 0, 2) == n);
    }
}

/// A consistency level.
#[derive(Debug, Clone, Copy, PartialEq, Eq, Structural)]
pub enum Consistency {
    Any,
    One,
    Two,
    Three,
    Quorum,
    All,
    LocalQuorum,
    EachQuorum,
    Serial,
    LocalSerial,
    LocalOne,
}

/// The consistency level that a code names, if any.
pub open spec fn consistency_of(code: u16) -> Option<Consistency> {
    if code == 0 {
        Some(Consistency::Any)
    } else if code == 1 {
        Some(Consistency::One)
    } else if code == 2 {
        Some(Consistency::Two)
    } else if code == 3 {
        Some(Consistency::Three)
    } else if code == 4 {
        Some(Consistency::Quorum)
    } else if code == 5 {
        Some(Consistency::All)
    } else if code == 6 {
        Some(Consistency::LocalQuorum)
    } else if code == 7 {
        Some(Consistency::EachQuorum)
    } else if code == 8 {
        Some(Consistency::Serial)
    } else if code == 9 {
        Some(Consistency::LocalSerial)
    } else if code == 10 {
        Some(Consistency::LocalOne)
    } else {
        None
    }
}

/// Reads a `[consistency]`: a `[short]` code naming a consistency level.
pub fn read_consistency(buf: &[u8], pos: usize) -> (r: Result<(Consistency, usize), LowLevelDeserializationError>)
    requires
        pos <= buf@.len(),
    ensures
        buf@.len() - pos < 2 ==> r == Err::<(Consistency, usize), LowLevelDeserializationError>(
            too_few(2, buf@.len() - pos),
        ),
        buf@.len() - pos >= 2 ==> ({
            let code = be_uint(buf@, pos as int, 2) as u16;
            &&& consistency_of(code) matches Some(c) ==> r == Ok::<(Consistency, usize), LowLevelDeserializationError>((c, (pos + 2) as usize))
            &&& consistency_of(code) is None ==> r == Err::<(Consistency, usize), LowLevelDeserializationError>(
                LowLevelDeserializationError::UnknownConsistency(code),
            )
        }),
{
    let (code, end) = match read_short(buf, pos) {
        Ok(v) => v,
        Err(e) => return Err(e),
    };
    let c = match code {
        0 => Consistency::Any,
        1 => Consistency::One,
        2 => Consistency::Two,
        3 => Consistency::Three,
        4 => Consistency::Quorum,
        5 => Consistency::All,
        6 => Consistency::LocalQuorum,
        7 => Consistency::EachQuorum,
        8 => Consistency::Serial,
        9 => Consistency::LocalSerial,
        10 => Consistency::LocalOne,
        _ => return Err(LowLevelDeserializationError::UnknownConsistency(code)),
    };
    Ok((c, end))
}

/// A `[value]`: bytes, null, or not set.
#[derive(Debug, PartialEq, Eq)]
pub enum RawValue {
    Null,
    Unset,
    Value(Vec<u8>),
}

/// Reads a `[value]`: an `[int]` length, then that many bytes; the lengths
/// -1 and -2 stand for null and not set, and a lower one is invalid.
pub fn read_value(buf: &[u8], pos: usize) -> (r: Result<(RawValue, usize), LowLevelDeserializationError>)
    requires
        pos <= buf@.len(),
    ensures
        buf@.len() - pos < 4 ==> r == Err::<(RawValue, usize), LowLevelDeserializationError>(
            too_few(4, buf@.len() - pos),
        ),
        buf@.len() - pos >= 4 ==> ({
            let n = be_i32(buf@, pos as int);
            let rem = buf@.len() - pos - 4;
            &&& n == -1 ==> r == Ok::<(RawValue, usize), LowLevelDeserializationError>((RawValue::Null, (pos + 4) as usize))
            &&& n == -2 ==> r == Ok::<(RawValue, usize), LowLevelDeserializationError>((RawValue::Unset, (pos + 4) as usize))
            &&& n < -2 ==> r == Err::<(RawValue, usize), LowLevelDeserializationError>(
                LowLevelDeserializationError::InvalidValueLength(n as i32),
            )
            &&& 0 <= n && rem < n ==> r == Err::<(RawValue, usize), LowLevelDeserializationError>(too_few(n, rem))
            &&& 0 <= n <= rem ==> (r matches Ok((RawValue::Value(v), end)) && v@ == buf@.subrange(pos + 4, pos + 4 + n) && end == pos + 4 + n)
        }),
{
    proof {
        lemma_be_bounds(buf@, pos as int);
    }
    let (n, start) = match read_int(buf, pos) {
        Ok(v) => v,
        Err(e) => return Err(e),
    };
    if n == -1 {
        return Ok((RawValue::Null, start));
    }
    if n == -2 {
        return Ok((RawValue::Unset, start));
    }
    if n < -2 {
        return Err(LowLevelDeserializationError::InvalidValueLength(n));
    }
    let n = n as usize;
    if buf.len() - start < n {
        return Err(
            LowLevelDeserializationError::TooFewBytesReceived { expected: n, received: buf.len() - start },
        );
    }
    let end = start + n;
    let mut v: Vec<u8> = Vec::new();
    let mut i: usize = start;
    while i < end
        invariant
            start <= i <= end <= buf@.len(),
            v@ == buf@.subrange(start as int, i as int),
        decreases end - i,
    {
        v.push(buf[i]);
        i = i + 1;
        assert(v@ =~= buf@.subrange(start as int, i as int));
    }
    Ok((RawValue::Value(v), end))
}

/// An `[inet]`: an IPv4 or IPv6 address and a port.
#[derive(Debug, PartialEq, Eq)]
pub struct Inet {
    pub ip: Vec<u8>,
    pub port: i32,
}

/// Reads an `[inet]`: a length byte of 4 or 16, the address bytes, then an
/// `[int]` port.
pub fn read_inet(buf: &[u8], pos: usize) -> (r: Result<(Inet, usize), LowLevelDeserializationError>)
    requires
        pos <= buf@.len(),
    ensures
        buf@.len() - pos < 1 ==> r == Err::<(Inet, usize), LowLevelDeserializationError>(too_few(1, 0)),
        buf@.len() - pos >= 1 ==> ({
            let n = buf@[pos as int];
            let rem = buf@.len() - pos - 1;
            &&& n != 4 && n != 16 ==> r == Err::<(Inet, usize), LowLevelDeserializationError>(
                LowLevelDeserializationError::InvalidInetLength(n),
            )
            &&& (n == 4 || n == 16) && rem < n ==> r == Err::<(Inet, usize), LowLevelDeserializationError>(too_few(n as int, rem))
            &&& (n == 4 || n == 16) && n <= rem < n + 4 ==> r == Err::<(Inet, usize), LowLevelDeserializationError>(
                too_few(4, rem - n),
            )
            &&& (n == 4 || n == 16) && n + 4 <= rem ==> (r matches Ok((a, end)) && a.ip@ == buf@.subrange(pos + 1, pos + 1 + n)
                && a.port == be_i32(buf@, pos + 1 + n) && end == pos + 5 + n)
        }),
{
    if buf.len() - pos < 1 {
        return Err(LowLevelDeserializationError::TooFewBytesReceived { expected: 1, received: 0 });
    }
    let n = buf[pos];
    if n != 4 && n != 16 {
        return Err(LowLevelDeserializationError::InvalidInetLength(n));
    }
    let start = pos + 1;
    let len = n as usize;
    if buf.len() - start < len {
        return Err(
            LowLevelDeserializationError::TooFewBytesReceived { expected: len, received: buf.len() - start },
        );
    }
    let stop = start + len;
    let mut ip: Vec<u8> = Vec::new();
    let mut i: usize = start;
    while i < stop
        invariant
            start <= i <= stop == start + len <= buf@.len(),
            ip@ == buf@.subrange(start as int, i as int),
        decreases stop - i,
    {
        ip.push(buf[i]);
        i = i + 1;
        assert(ip@ =~= buf@.subrange(start as int, i as int));
    }
    proof {
        lemma_be_bounds(buf@, (start + len) as int);
    }
    let (port, end) = match read_int(buf, stop) {
        Ok(v) => v,
        Err(e) => return Err(e),
    };
    Ok((Inet { ip, port }, end))
}

/// The keyspace and table that a result's columns belong to.
#[derive(Debug)]
pub struct TableSpec {
    pub ks_name: String,
    pub table_name: String,
}

impl TableSpec {
    /// Reads a table specification at `pos`: the keyspace name, then the table
    /// name, each a `[string]`.
    pub fn deserialize(buf: &[u8], pos: usize) -> (r: Result<(TableSpec, usize), TableSpecParseError>)
        requires
            pos <= buf@.len(),
        ensures
            decoded_string(buf@, pos as int) is None ==> (r matches Err(TableSpecParseError::MalformedKeyspaceName(e))
                && string_failure(buf@, pos as int, e)),
            decoded_string(buf@, pos as int) matches Some(ks) ==> ({
                let mid = pos + 2 + be_uint(buf@, pos as int, 2);
                &&& decoded_string(buf@, mid) is None ==> (r matches Err(TableSpecParseError::MalformedTableName(e))
                    && string_failure(buf@, mid, e))
                &&& decoded_string(buf@, mid) matches Some(t) ==> (r matches Ok((spec, end))
                    && spec.ks_name@ == ks && spec.table_name@ == t
                    && end == mid + 2 + be_uint(buf@, mid, 2))
            }),
    {
        let (ks_name, mid) = match read_string(buf, pos) {
            Ok(v) => v,
            Err(e) => return Err(TableSpecParseError::MalformedKeyspaceName(e)),
        };
        let (table_name, end) = match read_string(buf, mid) {
            Ok(v) => v,
            Err(e) => return Err(TableSpecParseError::MalformedTableName(e)),
        };
        Ok((TableSpec { ks_name, table_name }, end))
    }
}

/// The response to a `USE` statement: the keyspace now in use.
#[derive(Debug)]
pub struct SetKeyspace {
    pub keyspace_name: String,
}

impl SetKeyspace {
    /// Reads the keyspace name of a set-keyspace response body.
    pub fn deserialize(buf: &[u8]) -> (r: Result<SetKeyspace, SetKeyspaceParseError>)
        ensures
            r is Ok <==> decoded_string(buf@, 0) is Some,
            r matches Ok(k) ==> Some(k.keyspace_name@) == decoded_string(buf@, 0),
            r matches Err(SetKeyspaceParseError::MalformedKeyspaceName(e)) ==> string_failure(buf@, 0, e),
    {
        match read_string(buf, 0) {
            Ok((keyspace_name, _)) => Ok(SetKeyspace { keyspace_name }),
            Err(e) => Err(SetKeyspaceParseError::MalformedKeyspaceName(e)),
        }
    }

    /// Writes the body of a set-keyspace response.
    pub fn serialize(&self) -> (r: Result<Vec<u8>, ParseError>)
        ensures
            r is Ok <==> encode_utf8(self.keyspace_name@).len() <= 0xffff,
            r matches Ok(b) ==> b@ == string_encoding(self.keyspace_name@),
    {
        let mut out: Vec<u8> = Vec::new();
        match write_string(self.keyspace_name.as_str(), &mut out) {
            Ok(()) => {
                assert(out@ =~= string_encoding(self.keyspace_name@));
                Ok(out)
            },
            Err(e) => Err(e),
        }
    }
}

} // verus!
