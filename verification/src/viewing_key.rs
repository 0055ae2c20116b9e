//! Viewing keys: a random key drawn from the seeded source, stored only as
//! its digest and checked by comparing digests.
use crate::rng::{base64_of, chacha_block, is_extended_entropy, sha256_of, Prng};
use vstd::prelude::*;
use vstd::utf8::encode_utf8;

verus! {

pub const VIEWING_KEY_SIZE: usize = 32;

/// An authentication key string.
#[derive(Clone, PartialEq, Debug)]
pub struct ViewingKey(pub String);

/// The digest a key string is stored and compared as.
pub open spec fn hashed_key(key: &ViewingKey) -> Seq<u8> {
    sha256_of(encode_utf8(key.0@))
}

impl ViewingKey {
    /// Draws a fresh key from the seeded source: the caller-visible context
    /// extends the seed, 32 stream bytes are drawn, hashed, and printably
    /// encoded.
    pub fn new(height: u64, time: u64, sender: &[u8], seed: &[u8], entropy: &[u8]) -> (r:
        ViewingKey)
        ensures
            exists|ext: Seq<u8>|
                is_extended_entropy(ext, height, time, sender@, entropy@) && r.0@ == base64_of(
                    #[trigger] sha256_of(chacha_block(sha256_of(seed@ + ext), 0, 32)),
                ),
    {
        let rng_entropy = crate::rng::extend_entropy(height, time, sender, entropy);
        let mut rng = Prng::new(seed, rng_entropy.as_slice());
        let rand_slice = rng.rand_bytes();
        let key = crate::rng::sha_256(rand_slice.as_slice());
        let encoded = crate::rng::base64_encode(&key);
        proof {
            assert(is_extended_entropy(rng_entropy@, height, time, sender@, entropy@)
                && encoded@ == base64_of(
                sha256_of(chacha_block(sha256_of(seed@ + rng_entropy@), 0, 32)),
            ));
        }
        ViewingKey(encoded)
    }

    /// Whether this key matches a stored digest: the key is hashed and the
    /// two digests compared.
    pub fn check_viewing_key(&self, hashed_pw: &[u8]) -> (r: bool)
        ensures
            r == (hashed_key(self) == hashed_pw@),
    {
        let mine_hashed = create_hashed_password(&self.0);
        slices_equal(mine_hashed.as_slice(), hashed_pw)
    }

    /// The digest under which this key is stored.
    pub fn to_hashed(&self) -> (r: Vec<u8>)
        ensures
            r@ == hashed_key(self),
            r@.len() == VIEWING_KEY_SIZE,
    {
        create_hashed_password(&self.0)
    }
}

/// Hashes a key string into the form it is stored in.
pub fn create_hashed_password(s1: &String) -> (r: Vec<u8>)
    ensures
        r@ == sha256_of(encode_utf8(s1@)),
        r@.len() == VIEWING_KEY_SIZE,
{
    crate::rng::sha_256(s1.as_str().as_bytes())
}

/// Whether two byte strings are equal.  The scan always walks the whole
/// length, never bailing out at the first differing byte, so the running
/// time does not betray how long a common prefix a guess achieved.
#[verifier::loop_isolation(false)]
pub fn slices_equal(a: &[u8], b: &[u8]) -> (r: bool)
    ensures
        r == (a@ == b@),
{
    if a.len() != b.len() {
        proof {
            if a@ == b@ {
                assert(a@ =~= b@);
                assert(false);
            }
        }
        return false;
    }
    let mut diff: u8 = 0;
    let mut i: usize = 0;
    while i < a.len()
        invariant
            i <= a@.len(),
            a@.len() == b@.len(),
            (diff == 0) == (forall|k: int| 0 <= k < i ==> a@[k] == b@[k]),
        decreases a@.len() - i,
    {
        let ghost was = diff;
        diff = diff | (a[i] ^ b[i]);
        proof {
            let x = a@[i as int];
            let y = b@[i as int];
            assert((x ^ y) == 0 <==> x == y) by (bit_vector);
            assert((was | (x ^ y)) == 0 <==> (was == 0 && (x ^ y) == 0)) by (bit_vector);
        }
        i = i + 1;
    }
    proof {
        if diff == 0 {
            assert(a@ =~= b@);
        } else {
            if a@ == b@ {
                assert(a@ =~= b@);
                assert(false);
            }
        }
    }
    diff == 0
}

} // verus!
