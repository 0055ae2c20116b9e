//! The seeded draw source: a persistent secret seed is combined with
//! per-call entropy through a one-way extension function and expanded into a
//! stream of pseudo-random bytes, consumed eight bytes at a time per draw.
//!
//! The stream is a pure function of the seed, the entropy and the number of
//! bytes already drawn, which is what makes gene rolling deterministic for a
//! fixed (seed, entropy, context).
use base64::encode as base64_encode_raw;
use rand::seq::SliceRandom;
use rand_core::RngCore;
use rand_core::SeedableRng;
use sha2::Digest;
use vstd::prelude::*;
use vstd::string::StringSliceAdditionalSpecFns;

verus! {

/// The 32-byte digest that the one-way extension function produces.
pub uninterp spec fn sha256_of(data: Seq<u8>) -> Seq<u8>;

/// The bytes that the expanded stream for key `key` yields at byte
/// offset `pos`, `n` bytes long.
pub uninterp spec fn chacha_block(key: Seq<u8>, pos: nat, n: nat) -> Seq<u8>;

/// Relies on sha2::Sha256::digest: the 32-byte digest of the input,
/// a function of the input bytes alone.
#[verifier::external_body]
pub fn sha_256(data: &[u8]) -> (r: Vec<u8>)
    ensures
        r@ == sha256_of(data@),
        r@.len() == 32,
{
    sha2::Sha256::digest(data).to_vec()
}

/// The ghost description of a draw source: the key its stream was seeded
/// with and how many bytes have been drawn so far.
pub ghost struct PrngView {
    pub key: Seq<u8>,
    pub pos: nat,
}

/// A seeded pseudo-random byte stream, drawn from eight bytes at a time.
pub struct Prng {
    rng: rand_chacha::ChaCha20Rng,
    state: Ghost<PrngView>,
}

#[verifier::external_type_specification]
#[verifier::external_body]
pub struct ExChaCha20Rng(rand_chacha::ChaCha20Rng);

impl View for Prng {
    type V = PrngView;

    closed spec fn view(&self) -> PrngView {
        self.state@
    }
}

/// Relies on rand_chacha::ChaCha20Rng::from_seed: seeds the generator whose
/// output stream is a function of the 32-byte seed alone; what that stream
/// holds is stated on the methods that draw from it.
#[verifier::external_body]
fn chacha_from_key(key: &Vec<u8>) -> (r: rand_chacha::ChaCha20Rng)
    requires
        key@.len() == 32,
{
    let mut seed = [0u8; 32];
    seed.copy_from_slice(key.as_slice());
    rand_chacha::ChaCha20Rng::from_seed(seed)
}

impl Prng {
    /// Builds the draw source for one call: the persistent seed extended by
    /// the per-call entropy through the one-way function.
    pub fn new(seed: &[u8], entropy: &[u8]) -> (r: Prng)
        ensures
            r@.key == sha256_of(seed@ + entropy@),
            r@.pos == 0,
    {
        let mut combined: Vec<u8> = Vec::new();
        append_bytes(&mut combined, seed);
        append_bytes(&mut combined, entropy);
        assert(combined@ =~= seed@ + entropy@);
        let key = sha_256(combined.as_slice());
        let rng = chacha_from_key(&key);
        Prng { rng, state: Ghost(PrngView { key: key@, pos: 0 }) }
    }

    /// Relies on rand_core::RngCore::fill_bytes on a ChaCha generator: the
    /// bytes produced are a function of the seed key and of how many bytes
    /// were drawn before, and nothing else.
    #[verifier::external_body]
    pub fn eight_bytes(&mut self) -> (r: [u8; 8])
        ensures
            r@ == chacha_block(old(self)@.key, old(self)@.pos, 8),
            r@.len() == 8,
            final(self)@.key == old(self)@.key,
            final(self)@.pos == old(self)@.pos + 8,
    {
        let mut b = [0u8; 8];
        self.rng.fill_bytes(&mut b);
        b
    }

    /// Relies on rand_core::RngCore::fill_bytes, as `eight_bytes` does, for
    /// a 32-byte draw.
    #[verifier::external_body]
    pub fn rand_bytes(&mut self) -> (r: Vec<u8>)
        ensures
            r@ == chacha_block(old(self)@.key, old(self)@.pos, 32),
            r@.len() == 32,
            final(self)@.key == old(self)@.key,
            final(self)@.pos == old(self)@.pos + 32,
    {
        let mut b = [0u8; 32];
        self.rng.fill_bytes(&mut b);
        b.to_vec()
    }
}

/// Appends every byte of `more` to `out`, in order.
pub fn append_bytes(out: &mut Vec<u8>, more: &[u8])
    ensures
        final(out)@ == old(out)@ + more@,
{
    let ghost orig = out@;
    let mut i: usize = 0;
    while i < more.len()
        invariant
            i <= more@.len(),
            out@ == orig + more@.take(i as int),
        decreases more@.len() - i,
    {
        out.push(more[i]);
        assert(orig + more@.take(i as int) + seq![more@[i as int]] =~= orig + more@.take(
            i as int + 1,
        ));
        i = i + 1;
    }
    assert(orig + more@.take(more@.len() as int) =~= orig + more@);
}

/// The big-endian value of a byte string.
pub open spec fn be_value(s: Seq<u8>) -> int
    decreases s.len(),
{
    if s.len() == 0 {
        0
    } else {
        be_value(s.drop_last()) * 256 + s.last()
    }
}

/// Relies on u64::from_be_bytes: the value whose big-endian bytes these are.
#[verifier::external_body]
pub fn u64_from_be(b: &[u8; 8]) -> (r: u64)
    ensures
        r as int == be_value(b@),
{
    u64::from_be_bytes(*b)
}

/// Relies on u64::to_be_bytes: the eight big-endian bytes of the value.
#[verifier::external_body]
pub fn u64_to_be(x: u64) -> (r: Vec<u8>)
    ensures
        be_value(r@) == x as int,
        r@.len() == 8,
{
    x.to_be_bytes().to_vec()
}

/// A draw: the next eight bytes of the stream read as a big-endian integer.
pub open spec fn stream_u64(key: Seq<u8>, pos: nat) -> int {
    be_value(chacha_block(key, pos, 8))
}

impl Prng {
    /// One draw of the source: eight stream bytes as one unsigned value.
    pub fn next_u64(&mut self) -> (r: u64)
        ensures
            r as int == stream_u64(old(self)@.key, old(self)@.pos),
            final(self)@.key == old(self)@.key,
            final(self)@.pos == old(self)@.pos + 8,
    {
        let b = self.eight_bytes();
        u64_from_be(&b)
    }
}

/// The standard printable encoding of a byte string, with padding.
pub uninterp spec fn base64_of(data: Seq<u8>) -> Seq<char>;

/// Relies on base64::encode: the standard, padded encoding of the bytes,
/// a function of the bytes alone, four characters for every started group
/// of three bytes.
#[verifier::external_body]
pub fn base64_encode(data: &Vec<u8>) -> (r: String)
    ensures
        r@ == base64_of(data@),
        r@.len() == 4 * ((data@.len() + 2) / 3),
{
    base64_encode_raw(data.as_slice())
}

/// Derives the persistent seed at system initialization: the instantiating
/// entropy, printably encoded and hashed once.
pub fn new_prng_seed(entropy: &[u8]) -> (r: Vec<u8>)
    ensures
        r@ == sha256_of(
            vstd::utf8::encode_utf8(base64_of(entropy@)),
        ),
        r@.len() == 32,
{
    let mut data: Vec<u8> = Vec::new();
    append_bytes(&mut data, entropy);
    assert(data@ =~= entropy@);
    let encoded = base64_encode(&data);
    let bytes = str_bytes(encoded.as_str());
    sha_256(bytes.as_slice())
}

/// Copies a string slice's utf-8 bytes.
fn str_bytes(s: &str) -> (r: Vec<u8>)
    ensures
        r@ == vstd::utf8::encode_utf8(s@),
{
    let mut r: Vec<u8> = Vec::new();
    append_bytes(&mut r, s.as_bytes());
    proof {
        assert(r@ =~= s.spec_bytes());
    }
    r
}

impl Prng {
    /// Relies on rand::seq::SliceRandom::shuffle: reorders the indices in
    /// place; the result is a permutation of the input, holding exactly
    /// the same values.
    #[verifier::external_body]
    pub fn shuffle_indices(&mut self, v: &mut Vec<usize>)
        ensures
            final(v)@.len() == old(v)@.len(),
            final(v)@.to_multiset() == old(v)@.to_multiset(),
            forall|x: usize| final(v)@.contains(x) == old(v)@.contains(x),
            final(self)@.key == old(self)@.key,
    {
        v.shuffle(&mut self.rng);
    }
}

/// Holds when `r` is the per-call entropy for the given context: the
/// big-endian block height, the big-endian block time, the caller and the
/// caller-supplied entropy string, concatenated in that order.
pub open spec fn is_extended_entropy(
    r: Seq<u8>,
    height: u64,
    time: u64,
    sender: Seq<u8>,
    entropy: Seq<u8>,
) -> bool {
    &&& r.len() == 16 + sender.len() + entropy.len()
    &&& be_value(r.take(8)) == height as int
    &&& be_value(r.subrange(8, 16)) == time as int
    &&& r.skip(16) == sender + entropy
}

/// Extends the caller-supplied entropy with the visible call context, so
/// that no two calls feed the draw source the same input unless everything
/// about them matches.
pub fn extend_entropy(height: u64, time: u64, sender: &[u8], entropy: &[u8]) -> (r: Vec<u8>)
    ensures
        is_extended_entropy(r@, height, time, sender@, entropy@),
{
    let mut r = u64_to_be(height);
    let ghost h = r@;
    let t = u64_to_be(time);
    append_bytes(&mut r, t.as_slice());
    append_bytes(&mut r, sender);
    append_bytes(&mut r, entropy);
    proof {
        assert(r@.take(8) =~= h);
        assert(r@.subrange(8, 16) =~= t@);
        assert(r@.skip(16) =~= sender@ + entropy@);
    }
    r
}

} // verus!
