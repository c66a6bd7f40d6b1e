//! The packet codec: the fixed 24-byte header, byte-exact encoding and
//! decoding, and the framing of one full response (header, extras, key,
//! value) out of a byte stream.

use crate::code::MAGIC_RESPONSE;
use crate::code::OK_STATUS;
use crate::error::{CommandError, MemcachedError, ServerError};
use crate::wire::{
    lemma_be_bytes_of_val, lemma_be_val_of_bytes, lemma_pow256_bound, read_be, spec_be_bytes,
    spec_be_val, write_be,
};
use vstd::prelude::*;

verus! {

/// The width of the fixed packet header.
pub const HEADER_LEN: usize = 24;

/// The fixed 24-byte header that starts every request and every response.
#[derive(Clone, Copy, Debug, PartialEq, Eq, Structural)]
pub struct PacketHeader {
    /// Packet direction: `MAGIC_REQUEST` or `MAGIC_RESPONSE`.
    pub magic: u8,
    /// The command this packet belongs to.
    pub opcode: u8,
    /// Width of the key section of the body.
    pub key_length: u16,
    /// Width of the extras section of the body.
    pub extras_length: u8,
    /// Reserved; always zero on the wire today.
    pub data_type: u8,
    /// The vbucket id on requests, reused as the status on responses.
    pub vbucket_id_or_status: u16,
    /// Width of the whole body: extras, key and value together.
    pub total_body_length: u32,
    /// Echoed verbatim by the server; unused for correlation here.
    pub opaque: u32,
    /// The compare-and-swap token.
    pub cas: u64,
}

impl Default for PacketHeader {
    /// The all-zero header; builders fill in what their command needs.
    fn default() -> (r: PacketHeader)
        ensures
            r == (PacketHeader {
                magic: 0u8,
                opcode: 0u8,
                key_length: 0u16,
                extras_length: 0u8,
                data_type: 0u8,
                vbucket_id_or_status: 0u16,
                total_body_length: 0u32,
                opaque: 0u32,
                cas: 0u64,
            }),
    {
        PacketHeader {
            magic: 0,
            opcode: 0,
            key_length: 0,
            extras_length: 0,
            data_type: 0,
            vbucket_id_or_status: 0,
            total_body_length: 0,
            opaque: 0,
            cas: 0,
        }
    }
}

/// The 24 bytes that encode a header, fields in wire order, every
/// multi-byte field big-endian.
pub open spec fn spec_header_bytes(h: PacketHeader) -> Seq<u8> {
    seq![h.magic, h.opcode] + spec_be_bytes(h.key_length as nat, 2) + seq![
        h.extras_length,
        h.data_type,
    ] + spec_be_bytes(h.vbucket_id_or_status as nat, 2) + spec_be_bytes(
        h.total_body_length as nat,
        4,
    ) + spec_be_bytes(h.opaque as nat, 4) + spec_be_bytes(h.cas as nat, 8)
}

/// The header denoted by 24 bytes, the inverse of [`spec_header_bytes`].
pub open spec fn spec_parse_header(s: Seq<u8>) -> PacketHeader
    recommends
        s.len() == 24,
{
    PacketHeader {
        magic: s[0],
        opcode: s[1],
        key_length: spec_be_val(s.subrange(2, 4)) as u16,
        extras_length: s[4],
        data_type: s[5],
        vbucket_id_or_status: spec_be_val(s.subrange(6, 8)) as u16,
        total_body_length: spec_be_val(s.subrange(8, 12)) as u32,
        opaque: spec_be_val(s.subrange(12, 16)) as u32,
        cas: spec_be_val(s.subrange(16, 24)) as u64,
    }
}

/// A header's encoding is always exactly 24 bytes.
pub proof fn lemma_header_bytes_len(h: PacketHeader)
    ensures
        spec_header_bytes(h).len() == 24,
{
    crate::wire::lemma_be_bytes_len(h.key_length as nat, 2);
    crate::wire::lemma_be_bytes_len(h.vbucket_id_or_status as nat, 2);
    crate::wire::lemma_be_bytes_len(h.total_body_length as nat, 4);
    crate::wire::lemma_be_bytes_len(h.opaque as nat, 4);
    crate::wire::lemma_be_bytes_len(h.cas as nat, 8);
}

/// Decoding a header's encoding gives the header back.
pub proof fn lemma_header_roundtrip(h: PacketHeader)
    ensures
        spec_parse_header(spec_header_bytes(h)) == h,
{
    let s = spec_header_bytes(h);
    lemma_header_bytes_len(h);
    lemma_pow256_bound(2, 8);
    lemma_pow256_bound(4, 8);
    crate::wire::lemma_be_bytes_len(h.key_length as nat, 2);
    crate::wire::lemma_be_bytes_len(h.vbucket_id_or_status as nat, 2);
    crate::wire::lemma_be_bytes_len(h.total_body_length as nat, 4);
    crate::wire::lemma_be_bytes_len(h.opaque as nat, 4);
    crate::wire::lemma_be_bytes_len(h.cas as nat, 8);
    assert(s.subrange(2, 4) =~= spec_be_bytes(h.key_length as nat, 2));
    assert(s.subrange(6, 8) =~= spec_be_bytes(h.vbucket_id_or_status as nat, 2));
    assert(s.subrange(8, 12) =~= spec_be_bytes(h.total_body_length as nat, 4));
    assert(s.subrange(12, 16) =~= spec_be_bytes(h.opaque as nat, 4));
    assert(s.subrange(16, 24) =~= spec_be_bytes(h.cas as nat, 8));
    lemma_be_val_of_bytes(h.key_length as nat, 2);
    lemma_be_val_of_bytes(h.vbucket_id_or_status as nat, 2);
    lemma_be_val_of_bytes(h.total_body_length as nat, 4);
    lemma_be_val_of_bytes(h.opaque as nat, 4);
    lemma_be_val_of_bytes(h.cas as nat, 8);
}

/// Encoding the header denoted by 24 bytes gives the bytes back.
pub proof fn lemma_header_bytes_of_parse(s: Seq<u8>)
    requires
        s.len() == 24,
    ensures
        spec_header_bytes(spec_parse_header(s)) == s,
{
    let h = spec_parse_header(s);
    lemma_pow256_bound(2, 8);
    lemma_pow256_bound(4, 8);
    lemma_be_bytes_of_val(s.subrange(2, 4));
    lemma_be_bytes_of_val(s.subrange(6, 8));
    lemma_be_bytes_of_val(s.subrange(8, 12));
    lemma_be_bytes_of_val(s.subrange(12, 16));
    lemma_be_bytes_of_val(s.subrange(16, 24));
    assert(spec_header_bytes(h) =~= s);
}

impl PacketHeader {
    /// Append the 24-byte wire encoding of this header to `out`.
    pub fn write(self, out: &mut Vec<u8>)
        ensures
            final(out)@ == old(out)@ + spec_header_bytes(self),
    {
        proof {
            lemma_pow256_bound(2, 8);
            lemma_pow256_bound(4, 8);
        }
        out.push(self.magic);
        out.push(self.opcode);
        write_be(out, self.key_length as u64, 2);
        out.push(self.extras_length);
        out.push(self.data_type);
        write_be(out, self.vbucket_id_or_status as u64, 2);
        write_be(out, self.total_body_length as u64, 4);
        write_be(out, self.opaque as u64, 4);
        write_be(out, self.cas as u64, 8);
        proof {
            assert(out@ =~= old(out)@ + spec_header_bytes(self));
        }
    }

    /// Decode the 24 bytes starting at `at` as a response header; a first
    /// byte other than the response magic is a framing error.
    pub fn read(buf: &[u8], at: usize) -> (r: Result<PacketHeader, MemcachedError>)
        requires
            at + HEADER_LEN <= buf@.len(),
        ensures
            buf@[at as int] != MAGIC_RESPONSE ==> r == Err::<PacketHeader, MemcachedError>(
                MemcachedError::ServerError(ServerError::BadMagic(buf@[at as int])),
            ),
            buf@[at as int] == MAGIC_RESPONSE ==> r == Ok::<PacketHeader, MemcachedError>(
                spec_parse_header(buf@.subrange(at as int, at + HEADER_LEN)),
            ),
    {
        let magic = buf[at];
        if magic != MAGIC_RESPONSE {
            return Err(MemcachedError::ServerError(ServerError::BadMagic(magic)));
        }
        let ghost s = buf@.subrange(at as int, at + HEADER_LEN);
        proof {
            lemma_be_bytes_of_val(s.subrange(2, 4));
            lemma_be_bytes_of_val(s.subrange(6, 8));
            lemma_be_bytes_of_val(s.subrange(8, 12));
            lemma_be_bytes_of_val(s.subrange(12, 16));
            lemma_be_bytes_of_val(s.subrange(16, 24));
            lemma_pow256_bound(2, 8);
            lemma_pow256_bound(4, 8);
            assert(s.subrange(2, 4) =~= buf@.subrange(at + 2, at + 4));
            assert(s.subrange(6, 8) =~= buf@.subrange(at + 6, at + 8));
            assert(s.subrange(8, 12) =~= buf@.subrange(at + 8, at + 12));
            assert(s.subrange(12, 16) =~= buf@.subrange(at + 12, at + 16));
            assert(s.subrange(16, 24) =~= buf@.subrange(at + 16, at + 24));
        }
        let h = PacketHeader {
            magic,
            opcode: buf[at + 1],
            key_length: read_be(buf, at + 2, 2) as u16,
            extras_length: buf[at + 4],
            data_type: buf[at + 5],
            vbucket_id_or_status: read_be(buf, at + 6, 2) as u16,
            total_body_length: read_be(buf, at + 8, 4) as u32,
            opaque: read_be(buf, at + 12, 4) as u32,
            cas: read_be(buf, at + 16, 8),
        };
        Ok(h)
    }
}

/// One full response: the header plus the three body sections, split
/// exactly as the header's lengths dictate.
#[derive(Clone, Debug, PartialEq)]
pub struct Response {
    /// The decoded fixed header.
    pub header: PacketHeader,
    /// The key section of the body.
    pub key: Vec<u8>,
    /// The extras section of the body.
    pub extras: Vec<u8>,
    /// The value section: whatever of the body follows extras and key.
    pub value: Vec<u8>,
}

impl Response {
    /// Pass a successful response through, and translate any non-OK
    /// status into the command error it denotes.
    pub fn err(self) -> (r: Result<Response, MemcachedError>)
        ensures
            self.header.vbucket_id_or_status == OK_STATUS ==> r == Ok::<Response, MemcachedError>(
                self,
            ),
            self.header.vbucket_id_or_status != OK_STATUS ==> r == Err::<Response, MemcachedError>(
                MemcachedError::CommandError(
                    crate::error::spec_status_error(self.header.vbucket_id_or_status),
                ),
            ),
    {
        let status = self.header.vbucket_id_or_status;
        if status == OK_STATUS {
            Ok(self)
        } else {
            Err(MemcachedError::CommandError(CommandError::from(status)))
        }
    }
}

/// Whether one complete, well-formed response sits at offset `at` of the
/// byte stream: enough bytes for the header, the response magic first,
/// a body length no smaller than extras plus key, and the whole body
/// present.
pub open spec fn spec_well_framed_at(s: Seq<u8>, at: int) -> bool {
    let h = spec_parse_header(s.subrange(at, at + 24));
    &&& 0 <= at
    &&& at + 24 <= s.len()
    &&& s[at] == MAGIC_RESPONSE
    &&& h.total_body_length >= h.extras_length + h.key_length
    &&& at + 24 + h.total_body_length <= s.len()
}

/// The offset just past the response that starts at `at`.
pub open spec fn spec_response_end(s: Seq<u8>, at: int) -> int
    recommends
        spec_well_framed_at(s, at),
{
    at + 24 + spec_parse_header(s.subrange(at, at + 24)).total_body_length
}

/// Read one response out of `buf` starting at `at`: the 24-byte header,
/// then exactly `extras_length`, `key_length` and the remaining value
/// bytes of the body, in that order.  Anything short of that is a
/// framing error, fatal to the connection.
pub fn parse_response(buf: &[u8], at: usize) -> (r: Result<(Response, usize), MemcachedError>)
    ensures
        r matches Ok(p) ==> {
            &&& spec_well_framed_at(buf@, at as int)
            &&& p.0.header == spec_parse_header(buf@.subrange(at as int, at + 24))
            &&& p.0.extras@ == buf@.subrange(at + 24, at + 24 + p.0.header.extras_length)
            &&& p.0.key@ == buf@.subrange(
                at + 24 + p.0.header.extras_length,
                at + 24 + p.0.header.extras_length + p.0.header.key_length,
            )
            &&& p.0.value@ == buf@.subrange(
                at + 24 + p.0.header.extras_length + p.0.header.key_length,
                spec_response_end(buf@, at as int),
            )
            &&& p.1 == spec_response_end(buf@, at as int)
        },
        spec_well_framed_at(buf@, at as int) ==> r is Ok,
        r matches Err(e) ==> match e {
            MemcachedError::ServerError(se) => match se {
                ServerError::BadMagic(m) => at + 24 <= buf@.len() && m == buf@[at as int] && m
                    != MAGIC_RESPONSE,
                ServerError::BadResponse(_) => !spec_well_framed_at(buf@, at as int),
                _ => false,
            },
            _ => false,
        },
{
    let blen: usize = buf.len();
    if blen < HEADER_LEN || at > blen - HEADER_LEN {
        return Err(
            MemcachedError::ServerError(
                ServerError::BadResponse(String::from_str("truncated response header")),
            ),
        );
    }
    let head = match PacketHeader::read(buf, at) {
        Ok(h) => h,
        Err(e) => {
            return Err(e);
        },
    };
    let extras_len = head.extras_length as usize;
    let key_len = head.key_length as usize;
    let total = head.total_body_length as usize;
    if total < extras_len + key_len {
        return Err(
            MemcachedError::ServerError(
                ServerError::BadResponse(String::from_str("impossible body length")),
            ),
        );
    }
    if blen - at - HEADER_LEN < total {
        return Err(
            MemcachedError::ServerError(
                ServerError::BadResponse(String::from_str("truncated response body")),
            ),
        );
    }
    let extras = vstd::slice::slice_to_vec(
        vstd::slice::slice_subrange(buf, at + HEADER_LEN, at + HEADER_LEN + extras_len),
    );
    let key = vstd::slice::slice_to_vec(
        vstd::slice::slice_subrange(
            buf,
            at + HEADER_LEN + extras_len,
            at + HEADER_LEN + extras_len + key_len,
        ),
    );
    let value = vstd::slice::slice_to_vec(
        vstd::slice::slice_subrange(buf, at + HEADER_LEN + extras_len + key_len, at + HEADER_LEN + total),
    );
    Ok((Response { header: head, key, extras, value }, at + HEADER_LEN + total))
}

} // verus!
