//! The client-side half of the facade that needs no socket: the key
//! length gate, the default key hash, and the router that assigns every
//! key — and every batch of keys — to a shard.

use crate::commands::{
    parse_get_response, spec_concat_request, spec_store_request, store_request, MAX_KEY_LEN,
};
use crate::error::{ClientError, MemcachedError};
use crate::packet::Response;
use crate::value::{FromMemcachedValue, FromMemcachedValueExt, ToMemcachedValue};
use vstd::multiset::Multiset;
use vstd::prelude::*;
use vstd::string::StringSliceAdditionalSpecFns;

verus! {

/// Reject a key longer than 250 bytes before any bytes touch the
/// network; every operation calls this gate first.
pub fn check_key_len(key: &str) -> (r: Result<(), MemcachedError>)
    ensures
        key.spec_bytes().len() <= MAX_KEY_LEN ==> r == Ok::<(), MemcachedError>(()),
        key.spec_bytes().len() > MAX_KEY_LEN ==> r == Err::<(), MemcachedError>(
            MemcachedError::ClientError(ClientError::KeyTooLong),
        ),
{
    if key.as_bytes().len() > MAX_KEY_LEN {
        Err(MemcachedError::ClientError(ClientError::KeyTooLong))
    } else {
        Ok(())
    }
}

/// Check a whole batch before a multi-key operation: all keys pass, or
/// the first over-long key fails the batch and nothing is sent anywhere.
pub fn check_keys(keys: &Vec<String>) -> (r: Result<(), MemcachedError>)
    ensures
        (forall|i: int|
            0 <= i < keys@.len() ==> vstd::utf8::encode_utf8((#[trigger] keys@[i])@).len()
                <= MAX_KEY_LEN) <==> r is Ok,
        r is Err ==> r == Err::<(), MemcachedError>(
            MemcachedError::ClientError(ClientError::KeyTooLong),
        ),
{
    let n = keys.len();
    let mut i: usize = 0;
    while i < n
        invariant
            i <= n,
            n == keys@.len(),
            forall|k: int|
                0 <= k < i ==> vstd::utf8::encode_utf8((#[trigger] keys@[k])@).len() <= MAX_KEY_LEN,
        decreases n - i,
    {
        if keys[i].as_str().as_bytes().len() > MAX_KEY_LEN {
            return Err(MemcachedError::ClientError(ClientError::KeyTooLong));
        }
        i = i + 1;
    }
    Ok(())
}

/// The digest the default hash assigns to a key's text.
pub uninterp spec fn default_key_hash(key: Seq<char>) -> u64;

/// Relies on std's `DefaultHasher`: `new` always constructs the same
/// hasher, so feeding it a key yields a digest that depends on the
/// key's text alone, stable across calls.
#[verifier::external_body]
pub fn default_hash_function(key: &str) -> (r: u64)
    ensures
        r == default_key_hash(key@),
{
    let mut hasher = std::collections::hash_map::DefaultHasher::new();
    std::hash::Hash::hash(key, &mut hasher);
    std::hash::Hasher::finish(&hasher)
}

/// The shard a hash value routes to.
pub open spec fn spec_shard_index(hash: u64, shard_count: nat) -> nat
    recommends
        shard_count > 0,
{
    (hash as nat) % shard_count
}

/// The shard a key routes to under the default hash: a pure function of
/// the key's text and the shard count.
pub open spec fn spec_shard_of(key: Seq<char>, shard_count: nat) -> nat
    recommends
        shard_count > 0,
{
    spec_shard_index(default_key_hash(key), shard_count)
}

/// Map a hash value onto one of `shard_count` shards.
pub fn shard_index(hash: u64, shard_count: usize) -> (r: usize)
    requires
        shard_count > 0,
    ensures
        r as nat == spec_shard_index(hash, shard_count as nat),
        r < shard_count,
{
    (hash % (shard_count as u64)) as usize
}

/// Route a key to its shard with the default hash.
pub fn shard_for(key: &str, shard_count: usize) -> (r: usize)
    requires
        shard_count > 0,
    ensures
        r as nat == spec_shard_of(key@, shard_count as nat),
        r < shard_count,
{
    shard_index(default_hash_function(key), shard_count)
}

/// Routing is deterministic: two calls that see the same key text and
/// the same shard count name the same shard, in this process or any
/// other.
pub proof fn lemma_shard_deterministic(k1: Seq<char>, k2: Seq<char>, shard_count: nat)
    requires
        k1 == k2,
        shard_count > 0,
    ensures
        spec_shard_of(k1, shard_count) == spec_shard_of(k2, shard_count),
{
}

/// The keys among `keys` whose hash routes them to shard `j`, kept in
/// their input order.
pub open spec fn spec_bucket(keys: Seq<Seq<char>>, hashes: Seq<u64>, n: nat, j: int) -> Seq<
    Seq<char>,
>
    recommends
        keys.len() == hashes.len(),
        n > 0,
    decreases keys.len(),
{
    if keys.len() == 0 || keys.len() != hashes.len() {
        Seq::empty()
    } else {
        let rest = spec_bucket(keys.drop_last(), hashes.drop_last(), n, j);
        if spec_shard_index(hashes.last(), n) == j {
            rest.push(keys.last())
        } else {
            rest
        }
    }
}

/// Split a batch of keys into one list per shard: key `i` goes to the
/// bucket its hash names, and nowhere else.
pub fn partition_keys(keys: &Vec<String>, hashes: &Vec<u64>, shard_count: usize) -> (r: Vec<
    Vec<String>,
>)
    requires
        keys@.len() == hashes@.len(),
        shard_count > 0,
    ensures
        r@.len() == shard_count,
        forall|j: int|
            0 <= j < shard_count ==> (#[trigger] r@[j]).deep_view() == spec_bucket(
                keys.deep_view(),
                hashes@,
                shard_count as nat,
                j,
            ),
{
    let n = keys.len();
    let mut r: Vec<Vec<String>> = Vec::new();
    let mut j: usize = 0;
    while j < shard_count
        invariant
            j <= shard_count,
            n == keys@.len(),
            keys@.len() == hashes@.len(),
            shard_count > 0,
            r@.len() == j,
            forall|m: int|
                0 <= m < j ==> (#[trigger] r@[m]).deep_view() == spec_bucket(
                    keys.deep_view(),
                    hashes@,
                    shard_count as nat,
                    m,
                ),
        decreases shard_count - j,
    {
        let mut bucket: Vec<String> = Vec::new();
        let mut i: usize = 0;
        while i < n
            invariant
                i <= n,
                n == keys@.len(),
                keys@.len() == hashes@.len(),
                shard_count > 0,
                j < shard_count,
                bucket.deep_view() == spec_bucket(
                    keys.deep_view().subrange(0, i as int),
                    hashes@.subrange(0, i as int),
                    shard_count as nat,
                    j as int,
                ),
            decreases n - i,
        {
            proof {
                assert(keys.deep_view().subrange(0, i + 1).drop_last() =~= keys.deep_view()
                    .subrange(0, i as int));
                assert(hashes@.subrange(0, i + 1).drop_last() =~= hashes@.subrange(0, i as int));
                assert(keys.deep_view().subrange(0, i + 1).last() == keys.deep_view()[i as int]);
                assert(hashes@.subrange(0, i + 1).last() == hashes@[i as int]);
            }
            if shard_index(hashes[i], shard_count) == j {
                bucket.push(keys[i].clone());
                proof {
                    assert(bucket.deep_view() =~= spec_bucket(
                        keys.deep_view().subrange(0, i + 1),
                        hashes@.subrange(0, i + 1),
                        shard_count as nat,
                        j as int,
                    ));
                }
            }
            i = i + 1;
        }
        proof {
            assert(keys.deep_view().subrange(0, n as int) =~= keys.deep_view());
            assert(hashes@.subrange(0, n as int) =~= hashes@);
        }
        r.push(bucket);
        j = j + 1;
    }
    r
}

/// The multiset of every key the buckets `0..j` hold together.
pub open spec fn spec_buckets_union(
    keys: Seq<Seq<char>>,
    hashes: Seq<u64>,
    n: nat,
    j: int,
) -> Multiset<Seq<char>>
    decreases j,
{
    if j <= 0 {
        Multiset::empty()
    } else {
        spec_buckets_union(keys, hashes, n, j - 1).add(
            spec_bucket(keys, hashes, n, j - 1).to_multiset(),
        )
    }
}

proof fn lemma_union_of_empty(hashes: Seq<u64>, n: nat, j: int)
    ensures
        spec_buckets_union(Seq::empty(), hashes, n, j) =~= Multiset::empty(),
    decreases j,
{
    if j > 0 {
        lemma_union_of_empty(hashes, n, j - 1);
        assert(spec_bucket(Seq::empty(), hashes, n, j - 1) =~= Seq::<Seq<char>>::empty());
        Seq::<Seq<char>>::empty().to_multiset_ensures();
        assert(Seq::<Seq<char>>::empty().to_multiset().len() == 0);
        assert(Seq::<Seq<char>>::empty().to_multiset() =~= Multiset::empty());
    }
}

proof fn lemma_union_step(keys: Seq<Seq<char>>, hashes: Seq<u64>, n: nat, j: int)
    requires
        keys.len() == hashes.len(),
        keys.len() > 0,
        n > 0,
    ensures
        spec_buckets_union(keys, hashes, n, j) =~= spec_buckets_union(
            keys.drop_last(),
            hashes.drop_last(),
            n,
            j,
        ).add(
            if spec_shard_index(hashes.last(), n) < j {
                Multiset::empty().insert(keys.last())
            } else {
                Multiset::empty()
            },
        ),
    decreases j,
{
    if j <= 0 {
    } else {
        lemma_union_step(keys, hashes, n, j - 1);
        let b_new = spec_bucket(keys, hashes, n, j - 1);
        let b_old = spec_bucket(keys.drop_last(), hashes.drop_last(), n, j - 1);
        if spec_shard_index(hashes.last(), n) == j - 1 {
            assert(b_new == b_old.push(keys.last()));
            b_old.to_multiset_ensures();
            assert(b_new.to_multiset() =~= b_old.to_multiset().insert(keys.last()));
        } else {
            assert(b_new == b_old);
        }
    }
}

/// Partition coverage: taken together, the buckets hold exactly the
/// input keys — every key appears in the bucket its hash names, and no
/// key is duplicated or dropped.
pub proof fn lemma_partition_covers(keys: Seq<Seq<char>>, hashes: Seq<u64>, n: nat)
    requires
        keys.len() == hashes.len(),
        n > 0,
    ensures
        spec_buckets_union(keys, hashes, n, n as int) =~= keys.to_multiset(),
    decreases keys.len(),
{
    if keys.len() == 0 {
        assert(keys =~= Seq::<Seq<char>>::empty());
        lemma_union_of_empty(hashes, n, n as int);
        keys.to_multiset_ensures();
        assert(keys.to_multiset().len() == 0);
        assert forall|x: Seq<char>| keys.to_multiset().count(x) == 0 by {
            if keys.to_multiset().count(x) > 0 {
                assert(keys.contains(x));
            }
        }
        assert(keys.to_multiset() =~= Multiset::empty());
    } else {
        lemma_partition_covers(keys.drop_last(), hashes.drop_last(), n);
        lemma_union_step(keys, hashes, n, n as int);
        assert(spec_shard_index(hashes.last(), n) < n) by {
            vstd::arithmetic::div_mod::lemma_mod_division_less_than_divisor(
                hashes.last() as int,
                n as int,
            );
        }
        keys.drop_last().to_multiset_ensures();
        assert(keys =~= keys.drop_last().push(keys.last()));
        assert(keys.to_multiset() =~= keys.drop_last().to_multiset().insert(keys.last()));
        assert(keys.drop_last().to_multiset().add(Multiset::empty().insert(keys.last()))
            =~= keys.drop_last().to_multiset().insert(keys.last()));
    }
}

/// A bucket is empty exactly when no key in the batch hashes to it: a
/// multi-get never contacts a shard that owns none of its keys.
pub proof fn lemma_empty_bucket(keys: Seq<Seq<char>>, hashes: Seq<u64>, n: nat, j: int)
    requires
        keys.len() == hashes.len(),
        n > 0,
    ensures
        spec_bucket(keys, hashes, n, j).len() == 0 <==> (forall|i: int|
            0 <= i < hashes.len() ==> spec_shard_index(#[trigger] hashes[i], n) != j),
    decreases keys.len(),
{
    if keys.len() > 0 {
        lemma_empty_bucket(keys.drop_last(), hashes.drop_last(), n, j);
        let b = spec_bucket(keys, hashes, n, j);
        let rest = spec_bucket(keys.drop_last(), hashes.drop_last(), n, j);
        assert(hashes.drop_last().len() == hashes.len() - 1);
        if b.len() == 0 {
            assert(rest.len() == 0);
            assert(spec_shard_index(hashes.last(), n) != j);
            assert forall|i: int| 0 <= i < hashes.len() implies spec_shard_index(
                #[trigger] hashes[i],
                n,
            ) != j by {
                if i < hashes.len() - 1 {
                    assert(hashes[i] == hashes.drop_last()[i]);
                    assert(spec_shard_index(hashes.drop_last()[i], n) != j);
                } else {
                    assert(hashes[i] == hashes.last());
                }
            }
        }
        if forall|i: int| 0 <= i < hashes.len() ==> spec_shard_index(#[trigger] hashes[i], n)
            != j {
            assert(spec_shard_index(hashes[hashes.len() - 1], n) != j);
            assert forall|i: int| 0 <= i < hashes.drop_last().len() implies spec_shard_index(
                #[trigger] hashes.drop_last()[i],
                n,
            ) != j by {
                assert(hashes.drop_last()[i] == hashes[i]);
            }
            assert(rest.len() == 0);
            assert(b.len() == 0);
        }
    }
}


/// Serialize a typed value and build the store request that carries it:
/// `set`, `add` and `replace` by opcode, and conditional `set` when
/// `cas` is non-zero.
pub fn store_command<V: ToMemcachedValue>(
    opcode: u8,
    key: &str,
    value: &V,
    expiration: u32,
    cas: u64,
) -> (r: Result<Vec<u8>, MemcachedError>)
    requires
        value.spec_encoded().len() + 258 < 0x1_0000_0000,
    ensures
        key.spec_bytes().len() > MAX_KEY_LEN ==> r == Err::<Vec<u8>, MemcachedError>(
            MemcachedError::ClientError(ClientError::KeyTooLong),
        ),
        key.spec_bytes().len() <= MAX_KEY_LEN ==> (r matches Ok(v) && v@ == spec_store_request(
            opcode,
            key.spec_bytes(),
            value.spec_encoded(),
            expiration,
            cas,
        )),
{
    let mut encoded: Vec<u8> = Vec::new();
    value.write_to(&mut encoded);
    store_request(opcode, key, encoded.as_slice(), expiration, cas)
}

/// Serialize a typed value and build the `append` or `prepend` request
/// that carries it.
pub fn concat_command<V: ToMemcachedValue>(opcode: u8, key: &str, value: &V) -> (r: Result<
    Vec<u8>,
    MemcachedError,
>)
    requires
        opcode == crate::code::OP_APPEND || opcode == crate::code::OP_PREPEND,
        value.spec_encoded().len() + 258 < 0x1_0000_0000,
    ensures
        key.spec_bytes().len() > MAX_KEY_LEN ==> r == Err::<Vec<u8>, MemcachedError>(
            MemcachedError::ClientError(ClientError::KeyTooLong),
        ),
        key.spec_bytes().len() <= MAX_KEY_LEN ==> (r matches Ok(v) && v@ == spec_concat_request(
            opcode,
            key.spec_bytes(),
            value.spec_encoded(),
        )),
{
    let mut encoded: Vec<u8> = Vec::new();
    value.write_to(&mut encoded);
    crate::commands::concat_request(opcode, key, encoded.as_slice())
}

/// Interpret a `get` response as a typed value: the decoded value on
/// success, `None` for a missing key, the status's error otherwise, and
/// the decoding failure `spec_decode` assigns when the bytes do not
/// parse as `V`.
pub fn decode_get<V: FromMemcachedValue>(resp: Response) -> (r: Result<Option<V>, MemcachedError>)
    ensures
        resp.header.vbucket_id_or_status == crate::code::OK_STATUS ==> (match V::spec_decode(
            resp.value@,
            0,
        ) {
            Ok(m) => r matches Ok(o) && o matches Some(x) && x@ == m,
            Err(pe) => r matches Err(e) && e == MemcachedError::ParseError(pe),
        }),
        crate::error::spec_status_error(resp.header.vbucket_id_or_status)
            == crate::error::CommandError::KeyNotFound ==> r == Ok::<Option<V>, MemcachedError>(
            None,
        ),
        resp.header.vbucket_id_or_status != crate::code::OK_STATUS
            && crate::error::spec_status_error(resp.header.vbucket_id_or_status)
            != crate::error::CommandError::KeyNotFound ==> r == Err::<Option<V>, MemcachedError>(
            MemcachedError::CommandError(
                crate::error::spec_status_error(resp.header.vbucket_id_or_status),
            ),
        ),
{
    match parse_get_response(resp) {
        Ok(Some(v)) => match V::from_memcached_value(v, 0) {
            Ok(x) => Ok(Some(x)),
            Err(e) => Err(e),
        },
        Ok(None) => Ok(None),
        Err(e) => Err(e),
    }
}

/// Decode every raw multi-get entry as a typed value, keeping keys,
/// flags and cas tokens; the first entry whose bytes do not parse as
/// `V` fails the whole batch with its decoding error.
pub fn decode_gets_entries<V: FromMemcachedValueExt>(
    entries: &Vec<(String, (Vec<u8>, u32, u64))>,
) -> (r: Result<Vec<(String, V)>, MemcachedError>)
    ensures
        r matches Ok(out) ==> {
            &&& out@.len() == entries@.len()
            &&& forall|i: int|
                0 <= i < out@.len() ==> {
                    &&& (#[trigger] out@[i]).0@ == entries@[i].0@
                    &&& V::spec_decode_ext(
                        entries@[i].1.0@,
                        entries@[i].1.1,
                        Some(entries@[i].1.2),
                    ) matches Ok(m) && out@[i].1@ == m
                }
        },
        r matches Err(e) ==> (exists|i: int|
            0 <= i < entries@.len() && (V::spec_decode_ext(
                (#[trigger] entries@[i]).1.0@,
                entries@[i].1.1,
                Some(entries@[i].1.2),
            ) matches Err(pe) && e == MemcachedError::ParseError(pe))),
{
    let n = entries.len();
    let mut out: Vec<(String, V)> = Vec::new();
    let mut i: usize = 0;
    while i < n
        invariant
            i <= n,
            n == entries@.len(),
            out@.len() == i,
            forall|k: int|
                0 <= k < i ==> {
                    &&& (#[trigger] out@[k]).0@ == entries@[k].0@
                    &&& V::spec_decode_ext(
                        entries@[k].1.0@,
                        entries@[k].1.1,
                        Some(entries@[k].1.2),
                    ) matches Ok(m) && out@[k].1@ == m
                },
        decreases n - i,
    {
        let key = entries[i].0.clone();
        let bytes = entries[i].1.0.clone();
        let flags = entries[i].1.1;
        let cas = entries[i].1.2;
        proof {
            assert(bytes@ =~= entries@[i as int].1.0@);
        }
        match V::from_memcached_value(bytes, flags, Some(cas)) {
            Ok(x) => {
                out.push((key, x));
            },
            Err(e) => {
                return Err(e);
            },
        }
        i = i + 1;
    }
    Ok(out)
}

} // verus!
