//! The operation layer: one request builder per verb, producing the
//! exact bytes the wire calls for, and one response parser per verb,
//! interpreting a framed [`Response`] the way the protocol defines.
//!
//! Builders validate the 250-byte key limit and report
//! [`ClientError::KeyTooLong`] without producing any bytes; everything
//! else about a request is pinned down to the byte by the `spec_*`
//! functions here.

use crate::code::{
    MAGIC_REQUEST, OK_STATUS, OP_APPEND, OP_DECREMENT, OP_DELETE, OP_FLUSH, OP_GET, OP_GETKQ,
    OP_INCREMENT, OP_NOOP, OP_PREPEND, OP_STAT, OP_START_AUTH, OP_TOUCH, OP_VERSION,
};
use crate::error::{ClientError, CommandError, MemcachedError, ServerError};
use crate::packet::{
    parse_response, spec_header_bytes, spec_parse_header, spec_response_end, spec_well_framed_at,
    PacketHeader, Response,
};
use crate::value::bytes_to_string;
use crate::wire::{
    lemma_be_bytes_of_val, lemma_pow256_bound, read_be, spec_be_bytes, spec_be_val, write_be,
};
use vstd::prelude::*;
use vstd::string::StringSliceAdditionalSpecFns;
use vstd::utf8::{decode_utf8, encode_utf8, valid_utf8};

verus! {

/// The longest key the client accepts, in bytes.
pub const MAX_KEY_LEN: usize = 250;

/// Append every byte of `b` to `out`.
pub fn push_bytes(out: &mut Vec<u8>, b: &[u8])
    ensures
        final(out)@ == old(out)@ + b@,
{
    let blen: usize = b.len();
    let mut i: usize = 0;
    while i < blen
        invariant
            i <= blen,
            blen == b@.len(),
            out@ == old(out)@ + b@.subrange(0, i as int),
        decreases blen - i,
    {
        out.push(b[i]);
        proof {
            assert(b@.subrange(0, i + 1) =~= b@.subrange(0, i as int).push(b@[i as int]));
        }
        i = i + 1;
    }
    proof {
        assert(b@.subrange(0, blen as int) =~= b@);
    }
}

/// The request header a verb builds: request magic, the given opcode,
/// section widths, and the cas token; vbucket, opaque and data type stay
/// zero.
pub open spec fn spec_request_header(
    opcode: u8,
    key_len: nat,
    extras_len: nat,
    value_len: nat,
    cas: u64,
) -> PacketHeader {
    PacketHeader {
        magic: MAGIC_REQUEST,
        opcode: opcode,
        key_length: key_len as u16,
        extras_length: extras_len as u8,
        data_type: 0u8,
        vbucket_id_or_status: 0u16,
        total_body_length: (extras_len + key_len + value_len) as u32,
        opaque: 0u32,
        cas: cas,
    }
}

/// A request that is all header: `version`, `flush`, `stats`, `noop`.
pub open spec fn spec_bare_request(opcode: u8) -> Seq<u8> {
    spec_header_bytes(spec_request_header(opcode, 0, 0, 0, 0))
}

/// A request with no extras and no value: `get`, `getkq`, `delete`.
pub open spec fn spec_key_request(opcode: u8, key: Seq<u8>) -> Seq<u8> {
    spec_header_bytes(spec_request_header(opcode, key.len(), 0, 0, 0)) + key
}

/// A store request: flags and expiration as extras, then key, then the
/// already-encoded value; `cas` is zero for unconditional stores.
pub open spec fn spec_store_request(
    opcode: u8,
    key: Seq<u8>,
    value: Seq<u8>,
    expiration: u32,
    cas: u64,
) -> Seq<u8> {
    spec_header_bytes(spec_request_header(opcode, key.len(), 8, value.len(), cas)) + spec_be_bytes(
        0,
        4,
    ) + spec_be_bytes(expiration as nat, 4) + key + value
}

/// An append or prepend request: no extras, key then value.
pub open spec fn spec_concat_request(opcode: u8, key: Seq<u8>, value: Seq<u8>) -> Seq<u8> {
    spec_header_bytes(spec_request_header(opcode, key.len(), 0, value.len(), 0)) + key + value
}

/// A counter request: amount, initial value and expiration as 20 bytes
/// of extras, then the key.
pub open spec fn spec_counter_request(opcode: u8, key: Seq<u8>, amount: u64) -> Seq<u8> {
    spec_header_bytes(spec_request_header(opcode, key.len(), 20, 0, 0)) + spec_be_bytes(
        amount as nat,
        8,
    ) + spec_be_bytes(0, 8) + spec_be_bytes(0, 4) + key
}

/// A touch request: the new expiration as 4 bytes of extras, then the key.
pub open spec fn spec_touch_request(key: Seq<u8>, expiration: u32) -> Seq<u8> {
    spec_header_bytes(spec_request_header(OP_TOUCH, key.len(), 4, 0, 0)) + spec_be_bytes(
        expiration as nat,
        4,
    ) + key
}

/// A flush request with a delay: the delay as 4 bytes of extras.
pub open spec fn spec_flush_with_delay_request(delay: u32) -> Seq<u8> {
    spec_header_bytes(spec_request_header(OP_FLUSH, 0, 4, 0, 0)) + spec_be_bytes(delay as nat, 4)
}

/// A SASL PLAIN authentication request: the mechanism name as the key
/// and `\0username\0password` as the value.
pub open spec fn spec_auth_request(username: Seq<u8>, password: Seq<u8>) -> Seq<u8> {
    let value = seq![0u8] + username + seq![0u8] + password;
    spec_header_bytes(spec_request_header(OP_START_AUTH, 5, 0, value.len(), 0)) + "PLAIN"@.map_values(
        |c: char| c as u8,
    ) + value
}

/// Build a `version` request.
pub fn version_request() -> (r: Vec<u8>)
    ensures
        r@ == spec_bare_request(OP_VERSION),
{
    bare_request(OP_VERSION)
}

/// Build an immediate `flush` request.
pub fn flush_request() -> (r: Vec<u8>)
    ensures
        r@ == spec_bare_request(OP_FLUSH),
{
    bare_request(OP_FLUSH)
}

/// Build a `stats` request.
pub fn stats_request() -> (r: Vec<u8>)
    ensures
        r@ == spec_bare_request(OP_STAT),
{
    bare_request(OP_STAT)
}

/// Build a `noop` request, the terminator of a pipelined multi-get.
pub fn noop_request() -> (r: Vec<u8>)
    ensures
        r@ == spec_bare_request(OP_NOOP),
{
    bare_request(OP_NOOP)
}

fn bare_request(opcode: u8) -> (r: Vec<u8>)
    ensures
        r@ == spec_bare_request(opcode),
{
    let header = PacketHeader {
        magic: MAGIC_REQUEST,
        opcode,
        key_length: 0,
        extras_length: 0,
        data_type: 0,
        vbucket_id_or_status: 0,
        total_body_length: 0,
        opaque: 0,
        cas: 0,
    };
    let mut out: Vec<u8> = Vec::new();
    header.write(&mut out);
    proof {
        assert(out@ =~= spec_bare_request(opcode));
    }
    out
}

/// Build a `flush` request that takes effect after `delay` seconds.
pub fn flush_with_delay_request(delay: u32) -> (r: Vec<u8>)
    ensures
        r@ == spec_flush_with_delay_request(delay),
{
    let header = PacketHeader {
        magic: MAGIC_REQUEST,
        opcode: OP_FLUSH,
        key_length: 0,
        extras_length: 4,
        data_type: 0,
        vbucket_id_or_status: 0,
        total_body_length: 4,
        opaque: 0,
        cas: 0,
    };
    let mut out: Vec<u8> = Vec::new();
    header.write(&mut out);
    proof {
        lemma_pow256_bound(4, 8);
    }
    write_be(&mut out, delay as u64, 4);
    proof {
        assert(out@ =~= spec_flush_with_delay_request(delay));
    }
    out
}

fn key_request(opcode: u8, key: &str) -> (r: Result<Vec<u8>, MemcachedError>)
    ensures
        key.spec_bytes().len() > MAX_KEY_LEN ==> r == Err::<Vec<u8>, MemcachedError>(
            MemcachedError::ClientError(ClientError::KeyTooLong),
        ),
        key.spec_bytes().len() <= MAX_KEY_LEN ==> (r matches Ok(v) && v@ == spec_key_request(
            opcode,
            key.spec_bytes(),
        )),
{
    if key.len() > MAX_KEY_LEN {
        return Err(MemcachedError::ClientError(ClientError::KeyTooLong));
    }
    let kb = key.as_bytes();
    let header = PacketHeader {
        magic: MAGIC_REQUEST,
        opcode,
        key_length: kb.len() as u16,
        extras_length: 0,
        data_type: 0,
        vbucket_id_or_status: 0,
        total_body_length: kb.len() as u32,
        opaque: 0,
        cas: 0,
    };
    let mut out: Vec<u8> = Vec::new();
    header.write(&mut out);
    push_bytes(&mut out, kb);
    proof {
        assert(out@ =~= spec_key_request(opcode, key.spec_bytes()));
    }
    Ok(out)
}

/// Build a `get` request, or fail on an over-long key without building
/// anything.
pub fn get_request(key: &str) -> (r: Result<Vec<u8>, MemcachedError>)
    ensures
        key.spec_bytes().len() > MAX_KEY_LEN ==> r == Err::<Vec<u8>, MemcachedError>(
            MemcachedError::ClientError(ClientError::KeyTooLong),
        ),
        key.spec_bytes().len() <= MAX_KEY_LEN ==> (r matches Ok(v) && v@ == spec_key_request(
            OP_GET,
            key.spec_bytes(),
        )),
{
    key_request(OP_GET, key)
}

/// Build the quiet `get-with-key` request that multi-get pipelines.
pub fn getkq_request(key: &str) -> (r: Result<Vec<u8>, MemcachedError>)
    ensures
        key.spec_bytes().len() > MAX_KEY_LEN ==> r == Err::<Vec<u8>, MemcachedError>(
            MemcachedError::ClientError(ClientError::KeyTooLong),
        ),
        key.spec_bytes().len() <= MAX_KEY_LEN ==> (r matches Ok(v) && v@ == spec_key_request(
            OP_GETKQ,
            key.spec_bytes(),
        )),
{
    key_request(OP_GETKQ, key)
}

/// Build a `delete` request, or fail on an over-long key.
pub fn delete_request(key: &str) -> (r: Result<Vec<u8>, MemcachedError>)
    ensures
        key.spec_bytes().len() > MAX_KEY_LEN ==> r == Err::<Vec<u8>, MemcachedError>(
            MemcachedError::ClientError(ClientError::KeyTooLong),
        ),
        key.spec_bytes().len() <= MAX_KEY_LEN ==> (r matches Ok(v) && v@ == spec_key_request(
            OP_DELETE,
            key.spec_bytes(),
        )),
{
    key_request(OP_DELETE, key)
}

/// Build a store request (`set`, `add`, `replace`, or a conditional
/// `set` when `cas` is non-zero), or fail on an over-long key.
pub fn store_request(opcode: u8, key: &str, value: &[u8], expiration: u32, cas: u64) -> (r: Result<
    Vec<u8>,
    MemcachedError,
>)
    requires
        value@.len() + 258 < 0x1_0000_0000,
    ensures
        key.spec_bytes().len() > MAX_KEY_LEN ==> r == Err::<Vec<u8>, MemcachedError>(
            MemcachedError::ClientError(ClientError::KeyTooLong),
        ),
        key.spec_bytes().len() <= MAX_KEY_LEN ==> (r matches Ok(v) && v@ == spec_store_request(
            opcode,
            key.spec_bytes(),
            value@,
            expiration,
            cas,
        )),
{
    if key.len() > MAX_KEY_LEN {
        return Err(MemcachedError::ClientError(ClientError::KeyTooLong));
    }
    let kb = key.as_bytes();
    let header = PacketHeader {
        magic: MAGIC_REQUEST,
        opcode,
        key_length: kb.len() as u16,
        extras_length: 8,
        data_type: 0,
        vbucket_id_or_status: 0,
        total_body_length: (8 + kb.len() + value.len()) as u32,
        opaque: 0,
        cas,
    };
    let mut out: Vec<u8> = Vec::new();
    header.write(&mut out);
    proof {
        lemma_pow256_bound(4, 8);
    }
    write_be(&mut out, 0, 4);
    write_be(&mut out, expiration as u64, 4);
    push_bytes(&mut out, kb);
    push_bytes(&mut out, value);
    proof {
        assert(out@ =~= spec_store_request(opcode, key.spec_bytes(), value@, expiration, cas));
    }
    Ok(out)
}

/// Build an `append` or `prepend` request, or fail on an over-long key.
pub fn concat_request(opcode: u8, key: &str, value: &[u8]) -> (r: Result<Vec<u8>, MemcachedError>)
    requires
        opcode == OP_APPEND || opcode == OP_PREPEND,
        value@.len() + 258 < 0x1_0000_0000,
    ensures
        key.spec_bytes().len() > MAX_KEY_LEN ==> r == Err::<Vec<u8>, MemcachedError>(
            MemcachedError::ClientError(ClientError::KeyTooLong),
        ),
        key.spec_bytes().len() <= MAX_KEY_LEN ==> (r matches Ok(v) && v@ == spec_concat_request(
            opcode,
            key.spec_bytes(),
            value@,
        )),
{
    if key.len() > MAX_KEY_LEN {
        return Err(MemcachedError::ClientError(ClientError::KeyTooLong));
    }
    let kb = key.as_bytes();
    let header = PacketHeader {
        magic: MAGIC_REQUEST,
        opcode,
        key_length: kb.len() as u16,
        extras_length: 0,
        data_type: 0,
        vbucket_id_or_status: 0,
        total_body_length: (kb.len() + value.len()) as u32,
        opaque: 0,
        cas: 0,
    };
    let mut out: Vec<u8> = Vec::new();
    header.write(&mut out);
    push_bytes(&mut out, kb);
    push_bytes(&mut out, value);
    proof {
        assert(out@ =~= spec_concat_request(opcode, key.spec_bytes(), value@));
    }
    Ok(out)
}

/// Build an `increment` or `decrement` request, or fail on an over-long
/// key.  The initial value and expiration of the counter extras are
/// fixed at zero, as this client always sends them.
pub fn counter_request(opcode: u8, key: &str, amount: u64) -> (r: Result<Vec<u8>, MemcachedError>)
    requires
        opcode == OP_INCREMENT || opcode == OP_DECREMENT,
    ensures
        key.spec_bytes().len() > MAX_KEY_LEN ==> r == Err::<Vec<u8>, MemcachedError>(
            MemcachedError::ClientError(ClientError::KeyTooLong),
        ),
        key.spec_bytes().len() <= MAX_KEY_LEN ==> (r matches Ok(v) && v@ == spec_counter_request(
            opcode,
            key.spec_bytes(),
            amount,
        )),
{
    if key.len() > MAX_KEY_LEN {
        return Err(MemcachedError::ClientError(ClientError::KeyTooLong));
    }
    let kb = key.as_bytes();
    let header = PacketHeader {
        magic: MAGIC_REQUEST,
        opcode,
        key_length: kb.len() as u16,
        extras_length: 20,
        data_type: 0,
        vbucket_id_or_status: 0,
        total_body_length: (20 + kb.len()) as u32,
        opaque: 0,
        cas: 0,
    };
    let mut out: Vec<u8> = Vec::new();
    header.write(&mut out);
    proof {
        lemma_pow256_bound(4, 8);
    }
    write_be(&mut out, amount, 8);
    write_be(&mut out, 0, 8);
    write_be(&mut out, 0, 4);
    push_bytes(&mut out, kb);
    proof {
        assert(out@ =~= spec_counter_request(opcode, key.spec_bytes(), amount));
    }
    Ok(out)
}

/// Build a `touch` request, or fail on an over-long key.
pub fn touch_request(key: &str, expiration: u32) -> (r: Result<Vec<u8>, MemcachedError>)
    ensures
        key.spec_bytes().len() > MAX_KEY_LEN ==> r == Err::<Vec<u8>, MemcachedError>(
            MemcachedError::ClientError(ClientError::KeyTooLong),
        ),
        key.spec_bytes().len() <= MAX_KEY_LEN ==> (r matches Ok(v) && v@ == spec_touch_request(
            key.spec_bytes(),
            expiration,
        )),
{
    if key.len() > MAX_KEY_LEN {
        return Err(MemcachedError::ClientError(ClientError::KeyTooLong));
    }
    let kb = key.as_bytes();
    let header = PacketHeader {
        magic: MAGIC_REQUEST,
        opcode: OP_TOUCH,
        key_length: kb.len() as u16,
        extras_length: 4,
        data_type: 0,
        vbucket_id_or_status: 0,
        total_body_length: (4 + kb.len()) as u32,
        opaque: 0,
        cas: 0,
    };
    let mut out: Vec<u8> = Vec::new();
    header.write(&mut out);
    proof {
        lemma_pow256_bound(4, 8);
    }
    write_be(&mut out, expiration as u64, 4);
    push_bytes(&mut out, kb);
    proof {
        assert(out@ =~= spec_touch_request(key.spec_bytes(), expiration));
    }
    Ok(out)
}

/// Build a SASL PLAIN authentication request: the mechanism `PLAIN` as
/// the key, and `\0username\0password` as the value.
pub fn auth_request(username: &str, password: &str) -> (r: Vec<u8>)
    requires
        username.spec_bytes().len() + password.spec_bytes().len() + 300 < 0x1_0000_0000,
    ensures
        r@ == spec_auth_request(username.spec_bytes(), password.spec_bytes()),
{
    let mechanism = "PLAIN";
    let ub = username.as_bytes();
    let pb = password.as_bytes();
    let header = PacketHeader {
        magic: MAGIC_REQUEST,
        opcode: OP_START_AUTH,
        key_length: 5,
        extras_length: 0,
        data_type: 0,
        vbucket_id_or_status: 0,
        total_body_length: (5 + 2 + ub.len() + pb.len()) as u32,
        opaque: 0,
        cas: 0,
    };
    let mut out: Vec<u8> = Vec::new();
    header.write(&mut out);
    proof {
        reveal_strlit("PLAIN");
        vstd::string::is_ascii_spec_bytes(mechanism);
        assert(mechanism.is_ascii());
    }
    push_bytes(&mut out, mechanism.as_bytes());
    out.push(0);
    push_bytes(&mut out, ub);
    out.push(0);
    push_bytes(&mut out, pb);
    proof {
        assert(mechanism.spec_bytes() =~= "PLAIN"@.map_values(|c: char| c as u8));
        assert(out@ =~= spec_auth_request(username.spec_bytes(), password.spec_bytes()));
    }
    out
}

/// Interpret a store (`set`/`add`/`replace`/`append`/`prepend`/`flush`)
/// response: success is silent, any other status is the error it denotes.
pub fn parse_store_response(resp: Response) -> (r: Result<(), MemcachedError>)
    ensures
        resp.header.vbucket_id_or_status == OK_STATUS ==> r == Ok::<(), MemcachedError>(()),
        resp.header.vbucket_id_or_status != OK_STATUS ==> r == Err::<(), MemcachedError>(
            MemcachedError::CommandError(
                crate::error::spec_status_error(resp.header.vbucket_id_or_status),
            ),
        ),
{
    match resp.err() {
        Ok(_) => Ok(()),
        Err(e) => Err(e),
    }
}

/// Interpret a conditional-store response: OK means the swap happened,
/// a stale or missing token means it did not, and anything else is an
/// error.
pub fn parse_cas_response(resp: Response) -> (r: Result<bool, MemcachedError>)
    ensures
        resp.header.vbucket_id_or_status == OK_STATUS ==> r == Ok::<bool, MemcachedError>(true),
        crate::error::spec_status_error(resp.header.vbucket_id_or_status)
            == CommandError::KeyNotFound || crate::error::spec_status_error(
            resp.header.vbucket_id_or_status,
        ) == CommandError::KeyExists ==> r == Ok::<bool, MemcachedError>(false),
        resp.header.vbucket_id_or_status != OK_STATUS && crate::error::spec_status_error(
            resp.header.vbucket_id_or_status,
        ) != CommandError::KeyNotFound && crate::error::spec_status_error(
            resp.header.vbucket_id_or_status,
        ) != CommandError::KeyExists ==> r == Err::<bool, MemcachedError>(
            MemcachedError::CommandError(
                crate::error::spec_status_error(resp.header.vbucket_id_or_status),
            ),
        ),
{
    match resp.err() {
        Ok(_) => Ok(true),
        Err(MemcachedError::CommandError(CommandError::KeyNotFound)) => Ok(false),
        Err(MemcachedError::CommandError(CommandError::KeyExists)) => Ok(false),
        Err(e) => Err(e),
    }
}

/// Interpret a `delete` response: a missing key is `false`, not an error.
pub fn parse_delete_response(resp: Response) -> (r: Result<bool, MemcachedError>)
    ensures
        resp.header.vbucket_id_or_status == OK_STATUS ==> r == Ok::<bool, MemcachedError>(true),
        crate::error::spec_status_error(resp.header.vbucket_id_or_status)
            == CommandError::KeyNotFound ==> r == Ok::<bool, MemcachedError>(false),
        resp.header.vbucket_id_or_status != OK_STATUS && crate::error::spec_status_error(
            resp.header.vbucket_id_or_status,
        ) != CommandError::KeyNotFound ==> r == Err::<bool, MemcachedError>(
            MemcachedError::CommandError(
                crate::error::spec_status_error(resp.header.vbucket_id_or_status),
            ),
        ),
{
    match resp.err() {
        Ok(_) => Ok(true),
        Err(MemcachedError::CommandError(CommandError::KeyNotFound)) => Ok(false),
        Err(e) => Err(e),
    }
}

/// Interpret a `touch` response: a missing key is `false`, not an error.
pub fn parse_touch_response(resp: Response) -> (r: Result<bool, MemcachedError>)
    ensures
        resp.header.vbucket_id_or_status == OK_STATUS ==> r == Ok::<bool, MemcachedError>(true),
        crate::error::spec_status_error(resp.header.vbucket_id_or_status)
            == CommandError::KeyNotFound ==> r == Ok::<bool, MemcachedError>(false),
        resp.header.vbucket_id_or_status != OK_STATUS && crate::error::spec_status_error(
            resp.header.vbucket_id_or_status,
        ) != CommandError::KeyNotFound ==> r == Err::<bool, MemcachedError>(
            MemcachedError::CommandError(
                crate::error::spec_status_error(resp.header.vbucket_id_or_status),
            ),
        ),
{
    match resp.err() {
        Ok(_) => Ok(true),
        Err(MemcachedError::CommandError(CommandError::KeyNotFound)) => Ok(false),
        Err(e) => Err(e),
    }
}

/// Interpret a `get` response: the stored bytes on success, `None` for a
/// missing key, and an error for any other status.
pub fn parse_get_response(resp: Response) -> (r: Result<Option<Vec<u8>>, MemcachedError>)
    ensures
        resp.header.vbucket_id_or_status == OK_STATUS ==> (r matches Ok(o) && o matches Some(v)
            && v@ == resp.value@),
        crate::error::spec_status_error(resp.header.vbucket_id_or_status)
            == CommandError::KeyNotFound ==> r == Ok::<Option<Vec<u8>>, MemcachedError>(None),
        resp.header.vbucket_id_or_status != OK_STATUS && crate::error::spec_status_error(
            resp.header.vbucket_id_or_status,
        ) != CommandError::KeyNotFound ==> r == Err::<Option<Vec<u8>>, MemcachedError>(
            MemcachedError::CommandError(
                crate::error::spec_status_error(resp.header.vbucket_id_or_status),
            ),
        ),
{
    match resp.err() {
        Ok(ok) => Ok(Some(ok.value)),
        Err(MemcachedError::CommandError(CommandError::KeyNotFound)) => Ok(None),
        Err(e) => Err(e),
    }
}

/// Interpret an `increment`/`decrement` response: the new counter value
/// as the first eight bytes of the value section, big-endian.
pub fn parse_counter_response(resp: Response) -> (r: Result<u64, MemcachedError>)
    ensures
        resp.header.vbucket_id_or_status != OK_STATUS ==> r == Err::<u64, MemcachedError>(
            MemcachedError::CommandError(
                crate::error::spec_status_error(resp.header.vbucket_id_or_status),
            ),
        ),
        resp.header.vbucket_id_or_status == OK_STATUS && resp.value@.len() >= 8 ==> r == Ok::<
            u64,
            MemcachedError,
        >(spec_be_val(resp.value@.subrange(0, 8)) as u64),
        resp.header.vbucket_id_or_status == OK_STATUS && resp.value@.len() < 8 ==> (r matches Err(e)
            && e matches MemcachedError::ServerError(se) && se matches ServerError::BadResponse(_)),
{
    let resp = match resp.err() {
        Ok(ok) => ok,
        Err(e) => {
            return Err(e);
        },
    };
    if resp.value.len() < 8 {
        return Err(
            MemcachedError::ServerError(
                ServerError::BadResponse(String::from_str("short counter value")),
            ),
        );
    }
    proof {
        crate::wire::lemma_be_bytes_of_val(resp.value@.subrange(0, 8));
        lemma_pow256_bound(8, 8);
    }
    Ok(read_be(resp.value.as_slice(), 0, 8))
}

/// Interpret an authentication response: OK means the server accepted
/// the credentials; any other status is fatal to the connection being
/// built.
pub fn parse_start_auth_response(resp: Response) -> (r: Result<bool, MemcachedError>)
    ensures
        resp.header.vbucket_id_or_status == OK_STATUS ==> r == Ok::<bool, MemcachedError>(true),
        resp.header.vbucket_id_or_status != OK_STATUS ==> r == Err::<bool, MemcachedError>(
            MemcachedError::CommandError(
                crate::error::spec_status_error(resp.header.vbucket_id_or_status),
            ),
        ),
{
    match resp.err() {
        Ok(_) => Ok(true),
        Err(e) => Err(e),
    }
}


/// Interpret a `version` response: the server's version string, sent as
/// UTF-8 text in the value section.
pub fn parse_version_response(resp: Response) -> (r: Result<String, MemcachedError>)
    ensures
        resp.header.vbucket_id_or_status != OK_STATUS ==> r == Err::<String, MemcachedError>(
            MemcachedError::CommandError(
                crate::error::spec_status_error(resp.header.vbucket_id_or_status),
            ),
        ),
        resp.header.vbucket_id_or_status == OK_STATUS && valid_utf8(resp.value@) ==> (r matches Ok(
            s,
        ) && s@ == decode_utf8(resp.value@)),
        resp.header.vbucket_id_or_status == OK_STATUS && !valid_utf8(resp.value@) ==> r == Err::<
            String,
            MemcachedError,
        >(MemcachedError::ParseError(crate::error::ParseError::String)),
{
    let resp = match resp.err() {
        Ok(ok) => ok,
        Err(e) => {
            return Err(e);
        },
    };
    match bytes_to_string(resp.value.as_slice()) {
        Some(s) => Ok(s),
        None => Err(MemcachedError::ParseError(crate::error::ParseError::String)),
    }
}

/// The pipelined multi-get request for one shard's keys: one quiet
/// `get-with-key` per key, in order, closed by a single `noop`.
pub open spec fn spec_gets_request(keys: Seq<Seq<char>>) -> Seq<u8>
    decreases keys.len(),
{
    if keys.len() == 0 {
        spec_bare_request(OP_NOOP)
    } else {
        spec_key_request(OP_GETKQ, encode_utf8(keys[0])) + spec_gets_request(keys.drop_first())
    }
}

/// Build the pipelined multi-get request for one shard's keys, or fail
/// on the first over-long key with nothing built and nothing sent.
pub fn gets_request(keys: &Vec<String>) -> (r: Result<Vec<u8>, MemcachedError>)
    ensures
        (forall|i: int|
            0 <= i < keys@.len() ==> encode_utf8((#[trigger] keys@[i])@).len() <= MAX_KEY_LEN) ==> (
        r matches Ok(v) && v@ == spec_gets_request(keys.deep_view())),
        (exists|i: int|
            0 <= i < keys@.len() && encode_utf8((#[trigger] keys@[i])@).len() > MAX_KEY_LEN) ==> r
            == Err::<Vec<u8>, MemcachedError>(
            MemcachedError::ClientError(ClientError::KeyTooLong),
        ),
{
    match crate::client::check_keys(keys) {
        Err(e) => {
            return Err(e);
        },
        Ok(_) => {},
    }
    let n = keys.len();
    let mut out: Vec<u8> = Vec::new();
    proof {
        assert(keys.deep_view().subrange(0, n as int) =~= keys.deep_view());
        assert(Seq::<u8>::empty() + spec_gets_request(keys.deep_view()) =~= spec_gets_request(
            keys.deep_view(),
        ));
        assert(out@ =~= Seq::<u8>::empty());
    }
    let mut i: usize = 0;
    while i < n
        invariant
            i <= n,
            n == keys@.len(),
            forall|k: int|
                0 <= k < keys@.len() ==> encode_utf8((#[trigger] keys@[k])@).len() <= MAX_KEY_LEN,
            spec_gets_request(keys.deep_view()) == out@ + spec_gets_request(
                keys.deep_view().subrange(i as int, n as int),
            ),
        decreases n - i,
    {
        let ghost suffix = keys.deep_view().subrange(i as int, n as int);
        proof {
            assert(suffix[0] == keys.deep_view()[i as int]);
            assert(suffix.drop_first() =~= keys.deep_view().subrange(i + 1, n as int));
        }
        match getkq_request(keys[i].as_str()) {
            Ok(req) => {
                push_bytes(&mut out, req.as_slice());
            },
            Err(_) => {
                proof {
                    assert(false);
                }
                return Err(MemcachedError::ClientError(ClientError::KeyTooLong));
            },
        }
        i = i + 1;
    }
    proof {
        assert(keys.deep_view().subrange(n as int, n as int) =~= Seq::<Seq<char>>::empty());
    }
    let noop = noop_request();
    push_bytes(&mut out, noop.as_slice());
    Ok(out)
}

/// What a multi-get response stream means: the entries before the
/// terminating `noop`, or the way the stream went wrong.
pub enum GetsParse {
    /// The stream terminated properly and yielded these entries, each a
    /// key with its value bytes, flags and cas token.
    Entries(Seq<(Seq<char>, (Seq<u8>, u32, u64))>),
    /// A response carried this non-OK status.
    Failed(crate::error::CommandError),
    /// A framing error, short extras, or a key that is not UTF-8.
    Malformed,
    /// More responses than keys arrived without a terminating `noop`.
    Overrun,
}

/// The meaning of the multi-get response stream at offset `at`, with
/// `remaining` responses still allowed.
pub open spec fn spec_parse_gets(s: Seq<u8>, at: int, remaining: nat) -> GetsParse
    decreases remaining,
{
    if remaining == 0 {
        GetsParse::Overrun
    } else if !spec_well_framed_at(s, at) {
        GetsParse::Malformed
    } else {
        let h = spec_parse_header(s.subrange(at, at + 24));
        let end = spec_response_end(s, at);
        if h.vbucket_id_or_status != OK_STATUS {
            GetsParse::Failed(crate::error::spec_status_error(h.vbucket_id_or_status))
        } else if h.opcode == OP_NOOP {
            GetsParse::Entries(Seq::empty())
        } else {
            let extras = s.subrange(at + 24, at + 24 + h.extras_length);
            let key = s.subrange(at + 24 + h.extras_length, at + 24 + h.extras_length + h.key_length);
            let value = s.subrange(at + 24 + h.extras_length + h.key_length, end);
            if extras.len() < 4 {
                GetsParse::Malformed
            } else if !valid_utf8(key) {
                GetsParse::Malformed
            } else {
                let flags = spec_be_val(extras.subrange(0, 4)) as u32;
                match spec_parse_gets(s, end, (remaining - 1) as nat) {
                    GetsParse::Entries(rest) => GetsParse::Entries(
                        seq![(decode_utf8(key), (value, flags, h.cas))] + rest,
                    ),
                    other => other,
                }
            }
        }
    }
}

/// Read the pipelined responses of a multi-get out of `buf`: one entry
/// per non-`noop` response, ended by the `noop` echo.  Reading more
/// than `max_responses + 1` responses without a `noop` is a protocol
/// violation, never a silent truncation.
pub fn parse_gets_response(buf: &[u8], max_responses: usize) -> (r: Result<
    Vec<(String, (Vec<u8>, u32, u64))>,
    MemcachedError,
>)
    requires
        max_responses < usize::MAX,
    ensures
        ({
            let outcome = spec_parse_gets(buf@, 0, (max_responses + 1) as nat);
            match r {
                Ok(v) => outcome == GetsParse::Entries(v.deep_view()),
                Err(e) => match outcome {
                    GetsParse::Failed(ce) => e == MemcachedError::CommandError(ce),
                    GetsParse::Overrun => (e matches MemcachedError::ServerError(se) && se matches
                        ServerError::BadResponse(_)),
                    GetsParse::Malformed => (e matches MemcachedError::ServerError(_) || e matches
                        MemcachedError::ParseError(_)),
                    GetsParse::Entries(_) => false,
                },
            }
        }),
{
    let limit = max_responses + 1;
    let mut result: Vec<(String, (Vec<u8>, u32, u64))> = Vec::new();
    let mut at: usize = 0;
    let mut count: usize = 0;
    while count < limit
        invariant
            count <= limit,
            limit == max_responses + 1,
            spec_parse_gets(buf@, 0, limit as nat) == (match spec_parse_gets(
                buf@,
                at as int,
                (limit - count) as nat,
            ) {
                GetsParse::Entries(rest) => GetsParse::Entries(result.deep_view() + rest),
                other => other,
            }),
        decreases limit - count,
    {
        let ghost rem = (limit - count) as nat;
        let (resp, next) = match parse_response(buf, at) {
            Ok(p) => p,
            Err(e) => {
                return Err(e);
            },
        };
        let resp = match resp.err() {
            Ok(ok) => ok,
            Err(e) => {
                return Err(e);
            },
        };
        if resp.header.opcode == OP_NOOP {
            proof {
                assert(result.deep_view() + Seq::<(Seq<char>, (Seq<u8>, u32, u64))>::empty()
                    =~= result.deep_view());
            }
            return Ok(result);
        }
        if resp.extras.len() < 4 {
            return Err(
                MemcachedError::ServerError(
                    ServerError::BadResponse(String::from_str("short flags extras")),
                ),
            );
        }
        proof {
            lemma_be_bytes_of_val(resp.extras@.subrange(0, 4));
            lemma_pow256_bound(4, 8);
        }
        let flags = read_be(resp.extras.as_slice(), 0, 4) as u32;
        let key = match bytes_to_string(resp.key.as_slice()) {
            Some(k) => k,
            None => {
                return Err(MemcachedError::ParseError(crate::error::ParseError::String));
            },
        };
        let ghost old_result = result.deep_view();
        let ghost entry_view = (key@, (resp.value@, flags, resp.header.cas));
        result.push((key, (resp.value, flags, resp.header.cas)));
        proof {
            let s = buf@;
            let a = at as int;
            let h = spec_parse_header(s.subrange(a, a + 24));
            let end = spec_response_end(s, a);
            let extras = s.subrange(a + 24, a + 24 + h.extras_length);
            let kb = s.subrange(a + 24 + h.extras_length, a + 24 + h.extras_length + h.key_length);
            let value = s.subrange(a + 24 + h.extras_length + h.key_length, end);
            assert(resp.extras@ == extras);
            assert(resp.key@ == kb);
            assert(resp.value@ == value);
            assert(extras.subrange(0, 4) =~= resp.extras@.subrange(0, 4));
            assert(flags == spec_be_val(extras.subrange(0, 4)) as u32);
            assert(key@ == decode_utf8(kb));
            assert(resp.header == h);
            assert(rem > 0);
            assert(spec_well_framed_at(s, a));
            assert(h.vbucket_id_or_status == OK_STATUS);
            assert(h.opcode != OP_NOOP);
            assert(extras.len() >= 4);
            assert(valid_utf8(kb));
            assert(result.deep_view() =~~= old_result + seq![entry_view]);
            reveal_with_fuel(spec_parse_gets, 2);
            assert(spec_parse_gets(s, a, rem) == (match spec_parse_gets(
                s,
                end,
                (rem - 1) as nat,
            ) {
                GetsParse::Entries(rest) => GetsParse::Entries(
                    seq![(decode_utf8(kb), (value, flags, h.cas))] + rest,
                ),
                other => other,
            }));
            match spec_parse_gets(s, end, (rem - 1) as nat) {
                GetsParse::Entries(rest) => {
                    assert(old_result + (seq![entry_view] + rest) =~= result.deep_view() + rest);
                },
                _ => {},
            }
        }
        at = next;
        count = count + 1;
    }
    Err(
        MemcachedError::ServerError(
            ServerError::BadResponse(String::from_str("expected end of gets response")),
        ),
    )
}


/// What a stats response stream means: the key/value pairs before the
/// empty terminating pair, or the way the stream went wrong.
pub enum StatsParse {
    /// The stream terminated properly and yielded these pairs.
    Entries(Seq<(Seq<char>, Seq<char>)>),
    /// A response carried this non-OK status.
    Failed(crate::error::CommandError),
    /// A framing error, or a key or value that is not UTF-8.
    Malformed,
}

/// The meaning of the stats response stream at offset `at`: pairs until
/// a response whose key and value are both empty.
pub open spec fn spec_parse_stats(s: Seq<u8>, at: int) -> StatsParse
    decreases s.len() - at,
{
    if !spec_well_framed_at(s, at) {
        StatsParse::Malformed
    } else {
        let h = spec_parse_header(s.subrange(at, at + 24));
        let end = spec_response_end(s, at);
        if h.vbucket_id_or_status != OK_STATUS {
            StatsParse::Failed(crate::error::spec_status_error(h.vbucket_id_or_status))
        } else {
            let key = s.subrange(at + 24 + h.extras_length, at + 24 + h.extras_length + h.key_length);
            let value = s.subrange(at + 24 + h.extras_length + h.key_length, end);
            if !valid_utf8(key) || !valid_utf8(value) {
                StatsParse::Malformed
            } else if key.len() == 0 && value.len() == 0 {
                StatsParse::Entries(Seq::empty())
            } else {
                match spec_parse_stats(s, end) {
                    StatsParse::Entries(rest) => StatsParse::Entries(
                        seq![(decode_utf8(key), decode_utf8(value))] + rest,
                    ),
                    other => other,
                }
            }
        }
    }
}

/// Read a stats response stream out of `buf`: one key/value pair per
/// response, ended by a response whose key and value are both empty.
pub fn parse_stats_response(buf: &[u8]) -> (r: Result<Vec<(String, String)>, MemcachedError>)
    ensures
        ({
            let outcome = spec_parse_stats(buf@, 0);
            match r {
                Ok(v) => outcome == StatsParse::Entries(v.deep_view()),
                Err(e) => match outcome {
                    StatsParse::Failed(ce) => e == MemcachedError::CommandError(ce),
                    StatsParse::Malformed => (e matches MemcachedError::ServerError(_) || e matches
                        MemcachedError::ParseError(_)),
                    StatsParse::Entries(_) => false,
                },
            }
        }),
{
    let blen: usize = buf.len();
    let mut result: Vec<(String, String)> = Vec::new();
    let mut at: usize = 0;
    while at <= blen
        invariant
            blen == buf@.len(),
            spec_parse_stats(buf@, 0) == (match spec_parse_stats(buf@, at as int) {
                StatsParse::Entries(rest) => StatsParse::Entries(result.deep_view() + rest),
                other => other,
            }),
        decreases blen - at,
    {
        let (resp, next) = match parse_response(buf, at) {
            Ok(p) => p,
            Err(e) => {
                return Err(e);
            },
        };
        let resp = match resp.err() {
            Ok(ok) => ok,
            Err(e) => {
                return Err(e);
            },
        };
        let key_empty = resp.key.len() == 0;
        let value_empty = resp.value.len() == 0;
        let key = match bytes_to_string(resp.key.as_slice()) {
            Some(k) => k,
            None => {
                return Err(MemcachedError::ParseError(crate::error::ParseError::String));
            },
        };
        let value = match bytes_to_string(resp.value.as_slice()) {
            Some(v) => v,
            None => {
                return Err(MemcachedError::ParseError(crate::error::ParseError::String));
            },
        };
        if key_empty && value_empty {
            proof {
                assert(result.deep_view() + Seq::<(Seq<char>, Seq<char>)>::empty()
                    =~= result.deep_view());
            }
            return Ok(result);
        }
        let ghost old_result = result.deep_view();
        let ghost entry_view = (key@, value@);
        result.push((key, value));
        proof {
            let s = buf@;
            let a = at as int;
            let h = spec_parse_header(s.subrange(a, a + 24));
            let end = spec_response_end(s, a);
            let kb = s.subrange(a + 24 + h.extras_length, a + 24 + h.extras_length + h.key_length);
            let vb = s.subrange(a + 24 + h.extras_length + h.key_length, end);
            assert(resp.key@ == kb);
            assert(resp.value@ == vb);
            assert(result.deep_view() =~~= old_result + seq![entry_view]);
            assert(spec_parse_stats(s, a) == (match spec_parse_stats(s, end) {
                StatsParse::Entries(rest) => StatsParse::Entries(
                    seq![(decode_utf8(kb), decode_utf8(vb))] + rest,
                ),
                other => other,
            }));
            match spec_parse_stats(s, end) {
                StatsParse::Entries(rest) => {
                    assert(old_result + (seq![entry_view] + rest) =~= result.deep_view() + rest);
                },
                _ => {},
            }
        }
        at = next;
    }
    Err(
        MemcachedError::ServerError(
            ServerError::BadResponse(String::from_str("truncated stats response")),
        ),
    )
}

} // verus!
