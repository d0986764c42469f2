use mpchash::KeyRange;

#[test]
fn basic() {
    let range = KeyRange::new(10, 5);

    assert!(range.is_wrapping());
    assert!(range.contains(&0));
    assert!(!range.contains(&5));
    assert!(!range.contains(&7));
    assert!(!range.contains(&9));
    assert!(range.contains(&0));
    assert!(range.contains(&4));
    assert!(range.contains(&10));
    assert!(range.contains(&u64::MAX));

    let range = KeyRange::new(5, 10);

    assert!(!range.is_wrapping());
    assert!(!range.contains(&0));
    assert!(range.contains(&5));
    assert!(range.contains(&7));
    assert!(range.contains(&9));
    assert!(!range.contains(&0));
    assert!(!range.contains(&4));
    assert!(!range.contains(&10));
    assert!(!range.contains(&u64::MAX));
}

#[test]
fn overlap() {
    {
        // =====
        //    =====
        let r1 = KeyRange::new(5, 10);
        let r2 = KeyRange::new(8, 13);

        assert!(r1.is_overlapping(&r2));
        assert!(r2.is_overlapping(&r1));
    }

    {
        // =====
        //      =====
        let r1 = KeyRange::new(5, 10);
        let r2 = KeyRange::new(10, 15);

        assert!(!r1.is_overlapping(&r2));
        assert!(!r2.is_overlapping(&r1));
    }

    {
        //     =====
        // ====     ====
        let r1 = KeyRange::new(5, 10);
        let r2 = KeyRange::new(10, 5);

        assert!(!r1.is_overlapping(&r2));
        assert!(!r2.is_overlapping(&r1));
    }

    {
        //     =====
        // ======   ====
        let r1 = KeyRange::new(5, 10);
        let r2 = KeyRange::new(10, 7);

        assert!(r1.is_overlapping(&r2));
        assert!(r2.is_overlapping(&r1));
    }

    {
        //       =====
        // ======   ====
        let r1 = KeyRange::new(5, 10);
        let r2 = KeyRange::new(7, 5);

        assert!(r1.is_overlapping(&r2));
        assert!(r2.is_overlapping(&r1));
    }

    {
        //       =====
        // =============
        let r1 = KeyRange::new(5, 10);
        let r2 = KeyRange::new(5, 5);

        assert!(r1.is_overlapping(&r2));
        assert!(r2.is_overlapping(&r1));
    }

    {
        // =====     ====
        // =======  =====
        let r1 = KeyRange::new(10, 5);
        let r2 = KeyRange::new(9, 6);

        assert!(r1.is_overlapping(&r2));
        assert!(r2.is_overlapping(&r1));
    }
}

#[test]
fn size() {
    // Wrapping ranges.
    assert_eq!(KeyRange::new(0, 0).size(), u64::MAX);
    assert_eq!(KeyRange::new(10, 10).size(), u64::MAX);
    assert_eq!(KeyRange::new(10, 9).size(), u64::MAX - 1);

    // Regular ranges.
    assert_eq!(KeyRange::new(5, 10).size(), 5);
}

#[test]
fn merged() {
    // All test cases are structured around the origin 0 i.e. one of the ranges
    // crosses the origin, or other, or their intersection includes the origin. This
    // allows to capture all the possible wrapping cases.

    {
        // =====
        //               0
        //        =====
        let r1 = KeyRange::new(5, 10);
        let r2 = KeyRange::new(50, 100);
        assert_eq!(r1.merged(&r2), None);
        assert_eq!(r2.merged(&r1), None);
    }

    {
        // =====
        //            0
        //      =====
        let r1 = KeyRange::new(5, 10);
        let r2 = KeyRange::new(10, 100);
        let expected = KeyRange::new(5, 100);

        assert_eq!(r1.merged(&r2), Some(expected.clone()));
        assert_eq!(r2.merged(&r1), Some(expected));
    }

    {
        // =====
        //    0
        //        =====
        let r1 = KeyRange::new(u64::MAX - 100, 10);
        let r2 = KeyRange::new(50, 100);
        assert_eq!(r1.merged(&r2), None);
        assert_eq!(r2.merged(&r1), None);
    }

    {
        // =====
        //    0
        //      =====
        let r1 = KeyRange::new(u64::MAX - 100, 10);
        let r2 = KeyRange::new(10, 100);
        let expected = KeyRange::new(u64::MAX - 100, 100);

        assert_eq!(r1.merged(&r2), Some(expected.clone()));
        assert_eq!(r2.merged(&r1), Some(expected));
    }

    {
        //      =====
        //         0
        // =====
        let r1 = KeyRange::new(u64::MAX - 100, 10);
        let r2 = KeyRange::new(u64::MAX - 200, u64::MAX - 100);
        let expected = KeyRange::new(u64::MAX - 200, 10);

        assert_eq!(r1.merged(&r2), Some(expected.clone()));
        assert_eq!(r2.merged(&r1), Some(expected));
    }

    {
        // =====
        //           0
        //    =====
        let r1 = KeyRange::new(5, 100);
        let r2 = KeyRange::new(80, 120);
        let expected = KeyRange::new(5, 120);

        assert_eq!(r1.merged(&r2), Some(expected.clone()));
        assert_eq!(r2.merged(&r1), Some(expected));
    }

    {
        // =========
        //           0
        //   =====
        let r1 = KeyRange::new(5, 100);
        let r2 = KeyRange::new(25, 80);
        let expected = KeyRange::new(5, 100);

        assert_eq!(r1.merged(&r2), Some(expected.clone()));
        assert_eq!(r2.merged(&r1), Some(expected));
    }

    {
        //  =====
        //         0
        //  =====
        let r1 = KeyRange::new(5, 100);
        let r2 = KeyRange::new(5, 100);
        let expected = KeyRange::new(5, 100);

        assert_eq!(r1.merged(&r2), Some(expected.clone()));
        assert_eq!(r2.merged(&r1), Some(expected));
    }

    {
        // =====
        //  0
        //    =====
        let r1 = KeyRange::new(u64::MAX - 100, 10);
        let r2 = KeyRange::new(5, 50);
        let expected = KeyRange::new(u64::MAX - 100, 50);

        assert_eq!(r1.merged(&r2), Some(expected.clone()));
        assert_eq!(r2.merged(&r1), Some(expected));
    }

    {
        // ==========
        //  0
        //    =====
        let r1 = KeyRange::new(u64::MAX - 100, 100);
        let r2 = KeyRange::new(5, 50);
        let expected = KeyRange::new(u64::MAX - 100, 100);

        assert_eq!(r1.merged(&r2), Some(expected.clone()));
        assert_eq!(r2.merged(&r1), Some(expected));
    }

    {
        //     =====
        //        0
        // =====
        let r1 = KeyRange::new(u64::MAX - 100, 10);
        let r2 = KeyRange::new(u64::MAX - 150, u64::MAX - 50);
        let expected = KeyRange::new(u64::MAX - 150, 10);

        assert_eq!(r1.merged(&r2), Some(expected.clone()));
        assert_eq!(r2.merged(&r1), Some(expected));
    }

    {
        // =========
        //        0
        //  =====
        let r1 = KeyRange::new(u64::MAX - 200, 10);
        let r2 = KeyRange::new(u64::MAX - 150, u64::MAX - 50);
        let expected = KeyRange::new(u64::MAX - 200, 10);

        assert_eq!(r1.merged(&r2), Some(expected.clone()));
        assert_eq!(r2.merged(&r1), Some(expected));
    }

    {
        //   =====
        //    0
        // =========
        let r1 = KeyRange::new(u64::MAX - 100, 10);
        let r2 = KeyRange::new(u64::MAX - 150, 50);
        let expected = KeyRange::new(u64::MAX - 150, 50);

        assert_eq!(r1.merged(&r2), Some(expected.clone()));
        assert_eq!(r2.merged(&r1), Some(expected));
    }

    {
        //   =====
        //    0
        // =====
        let r1 = KeyRange::new(u64::MAX - 100, 10);
        let r2 = KeyRange::new(u64::MAX - 150, 5);
        let expected = KeyRange::new(u64::MAX - 150, 10);

        assert_eq!(r1.merged(&r2), Some(expected.clone()));
        assert_eq!(r2.merged(&r1), Some(expected));
    }

    {
        //  =====
        //    0
        //  =====
        let r1 = KeyRange::new(u64::MAX - 200, 10);
        let r2 = KeyRange::new(u64::MAX - 200, 10);
        let expected = KeyRange::new(u64::MAX - 200, 10);

        assert_eq!(r1.merged(&r2), Some(expected.clone()));
        assert_eq!(r2.merged(&r1), Some(expected));
    }

    {
        // ====[=======
        //     0
        //       ====
        let r1 = KeyRange::new(0u64, 0);
        let r2 = KeyRange::new(100, 200);
        let expected = KeyRange::new(0, 0);

        assert_eq!(r1.merged(&r2), Some(expected.clone()));
        assert_eq!(r2.merged(&r1), Some(expected));
    }

    {
        //     [====
        //     0
        //       =====
        let r1 = KeyRange::new(0u64, 100);
        let r2 = KeyRange::new(100, 200);
        let expected = KeyRange::new(0, 200);

        assert_eq!(r1.merged(&r2), Some(expected.clone()));
        assert_eq!(r2.merged(&r1), Some(expected));
    }

    {
        //     ====)
        //         0
        // =====
        let r1 = KeyRange::new(u64::MAX - 200, 0);
        let r2 = KeyRange::new(u64::MAX - 1000, u64::MAX - 200);
        let expected = KeyRange::new(u64::MAX - 1000, 0);

        assert_eq!(r1.merged(&r2), Some(expected.clone()));
        assert_eq!(r2.merged(&r1), Some(expected));
    }

    {
        // ====)
        //     0
        //     [=====
        let r1 = KeyRange::new(u64::MAX - 200, 0);
        let r2 = KeyRange::new(0, 200);
        let expected = KeyRange::new(u64::MAX - 200, 200);

        assert_eq!(r1.merged(&r2), Some(expected.clone()));
        assert_eq!(r2.merged(&r1), Some(expected));
    }

    {
        // ====[=========
        //     0
        // ======)  [====
        let r1 = KeyRange::new(0u64, 0);
        let r2 = KeyRange::new(1000, 100);
        let expected = KeyRange::new(0, 0);

        assert_eq!(r1.merged(&r2), Some(expected.clone()));
        assert_eq!(r2.merged(&r1), Some(expected));
    }

    {
        // ====[=======
        //  0  k
        //       ====
        let r1 = KeyRange::new(50u64, 50);
        let r2 = KeyRange::new(100, 200);
        let expected = KeyRange::new(0, 0);

        assert_eq!(r1.merged(&r2), Some(expected.clone()));
        assert_eq!(r2.merged(&r1), Some(expected));
    }
}

#[test]
fn wrapping_containment_examples() {
    // A wrapping range covers the top of the ring and the part below the
    // origin; a plain range covers only what lies between its bounds.
    let wrapping = KeyRange::new(10, 5);
    assert!(wrapping.is_wrapping());
    assert!(wrapping.contains(&0));
    assert!(!wrapping.contains(&7));

    let plain = KeyRange::new(5, 10);
    assert!(!plain.is_wrapping());
    assert!(plain.contains(&7));
    assert!(!plain.contains(&10));

    // Inverted but ending at the origin: no part below the origin.
    let to_origin = KeyRange::new(10, 0);
    assert!(to_origin.is_inverted());
    assert!(to_origin.ends_at_origin());
    assert!(!to_origin.is_wrapping());
    assert!(to_origin.contains(&u64::MAX));
    assert!(!to_origin.contains(&0));

    // Equal bounds cover the whole ring.
    let whole = KeyRange::new(3, 3);
    assert!(whole.covers_whole_ring());
    assert!(whole.contains(&0));
    assert!(whole.contains(&3));
    assert!(whole.contains(&u64::MAX));
}
