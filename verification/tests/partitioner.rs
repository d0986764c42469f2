use mpchash::{DefaultPartitioner, Partitioner, Xxh3Partitioner, DEFAULT_SEED1, DEFAULT_SEED2};

#[test]
fn default_partitioner() {
    let partitioner = DefaultPartitioner::new();
    assert_eq!(partitioner.position(&0u64.to_le_bytes()), 0x1424aa9885a1d5c7);
    assert_eq!(partitioner.position(&1u64.to_le_bytes()), 0xcfb732e08be9ec0);
    assert_eq!(
        partitioner.position(&123456u64.to_le_bytes()),
        0x4879daae426e14fb
    );
}

#[test]
fn position() {
    let partitioner = Xxh3Partitioner::new();
    assert_eq!(partitioner.position(&0u64.to_le_bytes()), 0x1424aa9885a1d5c7);
    assert_eq!(partitioner.position(&1u64.to_le_bytes()), 0xcfb732e08be9ec0);
    assert_eq!(
        partitioner.position(&123456u64.to_le_bytes()),
        0x4879daae426e14fb
    );
}

#[test]
fn position_seeded() {
    let partitioner = Xxh3Partitioner::new();
    assert_eq!(
        partitioner.position_seeded(&0u64.to_le_bytes(), 0),
        0xc77b3abb6f87acd9
    );
    assert_eq!(
        partitioner.position_seeded(&1u64.to_le_bytes(), 0),
        0x2fbc593564db792e
    );
    assert_eq!(
        partitioner.position_seeded(&123456u64.to_le_bytes(), 0),
        0xf3088e53441a77c5
    );
    assert_eq!(
        partitioner.position_seeded(&0u64.to_le_bytes(), 1),
        0x9e51ad6d2f3e695c
    );
    assert_eq!(
        partitioner.position_seeded(&1u64.to_le_bytes(), 1),
        0x85671091eda75eb5
    );
    assert_eq!(
        partitioner.position_seeded(&123456u64.to_le_bytes(), 1),
        0x75a073dcf2e9322a
    );
}

#[test]
fn positions_deterministic_double_hashing() {
    let partitioner = Xxh3Partitioner::new();
    let key = b"some key";

    // Re-running the same key yields the same probe sequence.
    let a = partitioner.positions(key, 23);
    let b = partitioner.positions(key, 23);
    assert_eq!(a, b);
    assert_eq!(a.len(), 23);

    // The i-th probe is h1 + i * h2 with wraparound arithmetic.
    let h1 = partitioner.position_seeded(key, DEFAULT_SEED1);
    let h2 = partitioner.position_seeded(key, DEFAULT_SEED2);
    for (i, probe) in a.iter().enumerate() {
        assert_eq!(*probe, h1.wrapping_add((i as u64).wrapping_mul(h2)));
    }

    // The default position is the first probe.
    assert_eq!(partitioner.position(key), h1);
    assert_eq!(a[0], h1);
}
