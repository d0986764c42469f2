use vstd::prelude::*;
use xxhash_rust::xxh3::xxh3_64_with_seed;

verus! {

use crate::RingPosition;

/// Seed under which a key's default ring position is derived; also the first
/// of the two seeds used for double hashing.
pub const DEFAULT_SEED1: u64 = 12345;

/// The second seed for double hashing.
pub const DEFAULT_SEED2: u64 = 67890;

/// The 64-bit XXH3 digest of a byte sequence under a seed: a fixed,
/// deterministic function of its two arguments, left abstract here.
pub uninterp spec fn xxh3_of(key: Seq<u8>, seed: u64) -> u64;

/// The probe sequence for a key: `k` candidate positions derived from the two
/// seeded hashes `h1` and `h2` by double hashing, the `i`-th probe being
/// `h1 + i * h2` with wraparound (modulo 2^64) addition and multiplication.
pub open spec fn probe_sequence(h1: u64, h2: u64, k: nat) -> Seq<u64> {
    Seq::new(k, |i: int| ((h1 + i * h2) % 0x1_0000_0000_0000_0000) as u64)
}

/// A keyspace partitioning strategy.
///
/// A partitioner maps keys, given as byte strings, to positions on the ring,
/// i.e. it knows how to partition the keyspace. Each implementation fixes one
/// abstract seeded hash function and must answer every query with it, so that
/// the answers are reproducible.
pub trait Partitioner: Sized {
    /// The position assigned to `key` when hashed under `seed`.
    spec fn hash_spec(&self, key: Seq<u8>, seed: u64) -> RingPosition;

    /// Returns the ring position for a given key (using the default seed).
    fn position(&self, key: &[u8]) -> (r: RingPosition)
        ensures
            r == self.hash_spec(key@, DEFAULT_SEED1),
    ;

    /// Returns the ring position for a given key under the given seed.
    ///
    /// By supplying a seed, the same key is sent to a different, still
    /// deterministic, position. This is particularly useful when implementing
    /// double hashing.
    fn position_seeded(&self, key: &[u8], seed: u64) -> (r: RingPosition)
        ensures
            r == self.hash_spec(key@, seed),
    ;

    /// Returns the sequence of `k` probe positions for a given key.
    fn positions(&self, key: &[u8], k: usize) -> (r: Vec<RingPosition>)
        ensures
            r@ == probe_sequence(
                self.hash_spec(key@, DEFAULT_SEED1),
                self.hash_spec(key@, DEFAULT_SEED2),
                k as nat,
            ),
    ;
}

/// A partitioner that uses the XXH3 hash function to partition the keyspace.
#[derive(Clone)]
pub struct Xxh3Partitioner {}

impl Xxh3Partitioner {
    pub fn new() -> (r: Self) {
        Xxh3Partitioner {  }
    }

    /// Hashes a key under the given seed.
    ///
    /// Relies on xxhash_rust::xxh3::xxh3_64_with_seed: the digest is a fixed
    /// deterministic function of the input bytes and the seed alone.
    #[verifier::external_body]
    pub fn hash(&self, key: &[u8], seed: RingPosition) -> (r: RingPosition)
        ensures
            r == xxh3_of(key@, seed),
    {
        xxh3_64_with_seed(key, seed)
    }
}

impl Default for Xxh3Partitioner {
    fn default() -> (r: Self) {
        Self::new()
    }
}

impl Partitioner for Xxh3Partitioner {
    closed spec fn hash_spec(&self, key: Seq<u8>, seed: u64) -> RingPosition {
        xxh3_of(key, seed)
    }

    fn position(&self, key: &[u8]) -> (r: RingPosition) {
        self.hash(key, DEFAULT_SEED1)
    }

    fn position_seeded(&self, key: &[u8], seed: u64) -> (r: RingPosition) {
        self.hash(key, seed)
    }

    fn positions(&self, key: &[u8], k: usize) -> (r: Vec<RingPosition>) {
        let h1 = self.hash(key, DEFAULT_SEED1);
        let h2 = self.hash(key, DEFAULT_SEED2);
        let ghost probes = probe_sequence(h1, h2, k as nat);
        let mut out: Vec<RingPosition> = Vec::new();
        let mut p: u64 = h1;
        let mut i: usize = 0;
        while i < k
            invariant
                i <= k,
                out@.len() == i,
                probes == probe_sequence(h1, h2, k as nat),
                forall|j: int| 0 <= j < i ==> out@[j] == probes[j],
                p == (h1 + (i as int) * h2) % 0x1_0000_0000_0000_0000,
            decreases k - i,
    {
            proof {
                assert(probes[i as int] == ((h1 + (i as int) * h2)
                    % 0x1_0000_0000_0000_0000) as u64);
            }
            out.push(p);
            proof {
                let m: int = 0x1_0000_0000_0000_0000;
                let ii = i as int;
                assert((ii + 1) * h2 == ii * h2 + h2) by (nonlinear_arith);
                vstd::arithmetic::div_mod::lemma_add_mod_noop(h1 + ii * h2, h2 as int, m);
                assert((h2 as int) % m == h2);
                assert((p + h2) % m == (h1 + (ii + 1) * h2) % m);
            }
            p = p.wrapping_add(h2);
            i = i + 1;
        }
        assert(out@ =~= probes);
        out
    }
}

/// Default partitioner.
pub type DefaultPartitioner = Xxh3Partitioner;

} // verus!
