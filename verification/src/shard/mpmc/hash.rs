use crate::pow2::{is_pow2, lemma_mask_is_mod, nearest_power_of_two};
use vstd::prelude::*;
use vstd::utf8::encode_utf8;

verus! {

/// The hash of `input` by XXH3, 64 bit, without a seed.
pub uninterp spec fn xxh3_64_of(input: Seq<u8>) -> u64;

/// Calls `xxhash_rust::xxh3::xxh3_64`, which hashes `input` with the default secret and
/// seed 0. The contract claims that the result is a function of the bytes alone; what
/// function is left unsaid.
#[verifier::external_body]
fn xxh3_64(input: &[u8]) -> (h: u64)
    ensures
        h == xxh3_64_of(input@),
{
    xxhash_rust::xxh3::xxh3_64(input)
}

/// Calls `num_cpus::get`, which asks the system how many processors this process may use.
/// The contract claims what its documentation promises: there is at least one. How many
/// depends on the machine.
#[verifier::external_body]
pub(crate) fn cpu_count() -> (n: usize)
    ensures
        n >= 1,
{
    num_cpus::get()
}

/// FNV-1a over bytes, before the final mix.
pub open spec fn fnv1a_fold(bytes: Seq<u8>) -> u64
    decreases bytes.len(),
{
    if bytes.len() == 0 {
        14695981039346656037
    } else {
        (fnv1a_fold(bytes.drop_last()) ^ (bytes.last() as u64)).wrapping_mul(1099511628211)
    }
}

/// FNV-1a with a multiplicative mix whose upper half is kept, so that every bit of the key
/// reaches the low bits.
pub open spec fn fnv1a_of(bytes: Seq<u8>) -> usize {
    (fnv1a_fold(bytes).wrapping_mul(0x9E3779B97F4A7C15) >> 32) as usize
}

/// The hash of a key: FNV-1a up to 16 bytes, XXH3 beyond.
pub open spec fn hash_of(key: Seq<char>) -> usize {
    let bytes = encode_utf8(key);
    if bytes.len() <= 16 {
        fnv1a_of(bytes)
    } else {
        xxh3_64_of(bytes) as usize
    }
}

/// The shard of a hash among `shards`.
pub open spec fn shard_of_hash(hash: usize, shards: int) -> int {
    hash as int % shards
}

/// The shard of a key among `shards`.
pub open spec fn shard_of(key: Seq<char>, shards: int) -> int {
    shard_of_hash(hash_of(key), shards)
}

/// FNV-1a of a short key.
pub fn fnv1a(bytes: &[u8]) -> (h: usize)
    ensures
        h == fnv1a_of(bytes@),
        h == (fnv1a_fold(bytes@).wrapping_mul(0x9E3779B97F4A7C15) >> 32) as usize,
{
    let mut h: u64 = 14695981039346656037;
    let mut i: usize = 0;
    assert(bytes@.subrange(0, 0) =~= Seq::empty());
    while i < bytes.len()
        invariant
            i <= bytes@.len(),
            h == fnv1a_fold(bytes@.subrange(0, i as int)),
        decreases bytes@.len() - i,
    {
        proof {
            let s = bytes@.subrange(0, i + 1);
            assert(s.drop_last() =~= bytes@.subrange(0, i as int));
            assert(s.last() == bytes@[i as int]);
        }
        h = (h ^ (bytes[i] as u64)).wrapping_mul(1099511628211);
        i = i + 1;
    }
    assert(bytes@.subrange(0, i as int) =~= bytes@);
    #[verifier::truncate]
    let r: usize = (h.wrapping_mul(0x9E3779B97F4A7C15) >> 32) as usize;
    r
}

/// The part of a 64-bit hash that a machine word takes: its low bits.
pub fn hash_word(h: u64) -> (r: usize)
    ensures
        r == h as usize,
{
    #[verifier::truncate]
    let r: usize = h as usize;
    r
}

/// The hash of a key.
pub fn hash_key(key: &str) -> (h: usize)
    ensures
        h == hash_of(key@),
        encode_utf8(key@).len() > 16 ==> h == xxh3_64_of(encode_utf8(key@)) as usize,
        encode_utf8(key@).len() <= 16 ==> h == fnv1a_of(encode_utf8(key@)),
{
    let bytes = key.as_bytes();
    if bytes.len() <= 16 {
        fnv1a(bytes)
    } else {
        hash_word(xxh3_64(bytes))
    }
}

/// The shard of a hash among `shards`, a power of two.
pub fn hash_shard(hash: usize, shards: usize) -> (s: usize)
    requires
        is_pow2(shards as int),
    ensures
        s == shard_of_hash(hash, shards as int),
        s == hash as int % shards as int,
        s < shards,
{
    proof {
        lemma_mask_is_mod(hash, shards);
    }
    hash & (shards - 1)
}

/// As many shards as there are processors, rounded up to a power of two. If that does not
/// fit a machine word, the error says how many processors there are.
pub fn auto_shards() -> (r: Result<usize, usize>)
    ensures
        r is Ok ==> is_pow2(r->Ok_0 as int) && r->Ok_0 >= 1,
        r is Err ==> r->Err_0 > usize::MAX / 2 + 1,
{
    let n: usize = cpu_count();
    match shards_for(n) {
        Some(shards) => Ok(shards),
        None => Err(n),
    }
}

/// As many shards as asked for, rounded up to a power of two; `None` if that does not fit
/// a machine word.
pub fn shards_for(n: usize) -> (r: Option<usize>)
    ensures
        r is Some <==> n <= usize::MAX / 2 + 1,
        r is Some ==> crate::pow2::is_pow2_ceil(n as int, r->Some_0 as int) && r->Some_0 >= 1,
{
    if n <= usize::MAX / 2 + 1 {
        Some(nearest_power_of_two(n))
    } else {
        None
    }
}

/// A key of more than 16 bytes is hashed whole: its hash is the low word of what XXH3 gives
/// for all of its bytes, and its shard the remainder of that by the number of shards.
pub proof fn law_long_keys_are_hashed_whole(key: Seq<char>, shards: int)
    requires
        encode_utf8(key).len() > 16,
        shards > 0,
    ensures
        hash_of(key) == xxh3_64_of(encode_utf8(key)) as usize,
        shard_of(key, shards) == (xxh3_64_of(encode_utf8(key)) as usize) as int % shards,
        shard_of_hash(hash_of(key), shards) == shard_of(key, shards),
{
}

/// A key of up to 16 bytes is hashed by FNV-1a, byte by byte to its end: the hash starts from
/// the offset basis, and every byte is mixed in and multiplied by the prime. The key's hash is
/// the upper half of one more product.
pub proof fn law_short_keys_are_hashed_whole(key: Seq<char>, bytes: Seq<u8>, b: u8, shards: int)
    requires
        shards > 0,
    ensures
        fnv1a_fold(Seq::empty()) == 0xcbf29ce484222325,
        fnv1a_fold(bytes.push(b)) == (fnv1a_fold(bytes) ^ (b as u64)).wrapping_mul(0x100000001b3),
        encode_utf8(key).len() <= 16 ==> hash_of(key) == (fnv1a_fold(
            encode_utf8(key),
        ).wrapping_mul(0x9E3779B97F4A7C15) >> 32) as usize,
        encode_utf8(key).len() <= 16 ==> shard_of(key, shards) == ((fnv1a_fold(
            encode_utf8(key),
        ).wrapping_mul(0x9E3779B97F4A7C15) >> 32) as usize) as int % shards,
{
    assert(bytes.push(b).drop_last() =~= bytes);
}

/// Keys are routed by what they are: equal keys go to the same shard, and every key goes
/// to a shard that exists.
pub proof fn law_routing(a: Seq<char>, b: Seq<char>, shards: int)
    requires
        shards > 0,
    ensures
        a == b ==> shard_of(a, shards) == shard_of(b, shards),
        0 <= shard_of(a, shards) < shards,
{
}

} // verus!
