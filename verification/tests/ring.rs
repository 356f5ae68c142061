use atom_engine::codec::{decode_caller_entry, encode_caller_entry};
use atom_engine::params::{
    BYPASS_FP_SIZE, FP_MASK, MRT_MAX_BYPASS, RING_BUFFER_SIZE, RING_SLOT_SPAN,
};
use atom_engine::ring::{
    proof_push_caller_mrt_cursor_and_bounds, push_caller_mrt, RecentCallerRing,
};

fn caller(n: u64) -> (u64, u8) {
    ((n.wrapping_mul(0x9E37_79B9_7F4A_7C15) ^ n) & FP_MASK, (n % 101) as u8)
}

fn slots(ring: &RecentCallerRing) -> Vec<u64> {
    (0..RING_BUFFER_SIZE).map(|i| ring.recent_at(i).unwrap()).collect()
}

fn bypass_slots(ring: &RecentCallerRing) -> Vec<u64> {
    (0..BYPASS_FP_SIZE).map(|i| ring.bypass_fingerprint_at(i).unwrap()).collect()
}

#[test]
fn ring_sizes() {
    assert_eq!(RING_BUFFER_SIZE, 64);
    assert_eq!(BYPASS_FP_SIZE, 16);
    assert_eq!(MRT_MAX_BYPASS, 8);
    assert_eq!(RING_SLOT_SPAN, 64);
    assert!((MRT_MAX_BYPASS as usize) <= BYPASS_FP_SIZE);
    assert!(RING_BUFFER_SIZE <= 255);
}

#[test]
fn new_ring_is_empty() {
    let ring = RecentCallerRing::new();
    assert_eq!(ring.cursor(), 0);
    assert_eq!(ring.ring_base_slot(), 0);
    assert_eq!(ring.bypass_fp_cursor(), 0);
    assert_eq!(ring.bypass_count(), 0);
    assert_eq!(slots(&ring), vec![0u64; 64]);
    assert_eq!(bypass_slots(&ring), vec![0u64; 16]);
    assert_eq!(ring.recent_entries(), vec![0u64; 64]);
    assert_eq!(ring.bypass_entries(), Vec::<u64>::new());
    assert_eq!(ring.recent_at(64), None);
    assert_eq!(ring.bypass_fingerprint_at(16), None);
}

#[test]
fn push_writes_under_the_cursor() {
    let mut ring = RecentCallerRing::new();
    push_caller_mrt(&mut ring, 0x00AA_BBCC_DDEE_FF, 42, 3, false);
    assert_eq!(ring.cursor(), 1);
    assert_eq!(ring.recent_at(0), Some(0x2A00_AABB_CCDD_EEFF));
    assert_eq!(decode_caller_entry(ring.recent_at(0).unwrap()), (0x00AA_BBCC_DDEE_FF, 42, false));
    assert_eq!(ring.recent_at(1), Some(0));
    assert_eq!(ring.ring_base_slot(), 0);
    assert_eq!(ring.bypass_count(), 0);
    assert_eq!(ring.bypass_fp_cursor(), 0);
    assert_eq!(bypass_slots(&ring), vec![0u64; 16]);

    push_caller_mrt(&mut ring, 7, 100, 3, false);
    assert_eq!(ring.cursor(), 2);
    assert_eq!(ring.recent_at(0), Some(0x2A00_AABB_CCDD_EEFF));
    assert_eq!(ring.recent_at(1), Some(encode_caller_entry(7, 100, false)));
    assert_eq!(ring.recent_at(1), Some(0x6400_0000_0000_0007));
}

#[test]
fn ring_wraparound() {
    let mut ring = RecentCallerRing::new();
    for n in 1..=(RING_BUFFER_SIZE as u64 + 1) {
        let (fingerprint, score) = caller(n);
        push_caller_mrt(&mut ring, fingerprint, score, 0, false);
    }
    assert_eq!(ring.cursor(), 1);
    let (last_fp, last_score) = caller(RING_BUFFER_SIZE as u64 + 1);
    let (first_fp, first_score) = caller(1);
    assert_ne!(last_fp, first_fp);
    assert_eq!(ring.recent_at(0), Some(encode_caller_entry(last_fp, last_score, false)));
    assert_ne!(ring.recent_at(0), Some(encode_caller_entry(first_fp, first_score, false)));
    for i in 1..RING_BUFFER_SIZE {
        let (fingerprint, score) = caller(i as u64 + 1);
        assert_eq!(ring.recent_at(i), Some(encode_caller_entry(fingerprint, score, false)));
    }
}

#[test]
fn cursor_wraps_from_the_last_slot() {
    let mut ring =
        RecentCallerRing::from_parts([0u64; 64], 63, 0, [0u64; 16], 15, 0).unwrap();
    push_caller_mrt(&mut ring, 9, 1, 0, true);
    assert_eq!(ring.cursor(), 0);
    assert_eq!(ring.bypass_fp_cursor(), 0);
    assert_eq!(ring.recent_at(63), Some(encode_caller_entry(9, 1, false)));
    assert_eq!(ring.bypass_fingerprint_at(15), Some(9));
    assert_eq!(ring.bypass_count(), 1);
}

#[test]
fn window_is_oldest_first() {
    let mut ring = RecentCallerRing::new();
    let mut pushed: Vec<u64> = vec![0u64; 64];
    for n in 1..=150u64 {
        let (fingerprint, score) = caller(n);
        push_caller_mrt(&mut ring, fingerprint, score, n, false);
        pushed.push(encode_caller_entry(fingerprint, score, false));
        let expected: Vec<u64> = pushed[pushed.len() - 64..].to_vec();
        assert_eq!(ring.recent_entries(), expected);
        assert_eq!(ring.cursor() as u64, n % 64);
    }
}

#[test]
fn base_slot_slides_and_never_goes_back() {
    let mut ring = RecentCallerRing::new();
    push_caller_mrt(&mut ring, 1, 1, 64, false);
    assert_eq!(ring.ring_base_slot(), 0);
    push_caller_mrt(&mut ring, 1, 1, 65, false);
    assert_eq!(ring.ring_base_slot(), 1);
    push_caller_mrt(&mut ring, 1, 1, 10, false);
    assert_eq!(ring.ring_base_slot(), 1);
    push_caller_mrt(&mut ring, 1, 1, 0, false);
    assert_eq!(ring.ring_base_slot(), 1);
    push_caller_mrt(&mut ring, 1, 1, 1000, false);
    assert_eq!(ring.ring_base_slot(), 936);
    push_caller_mrt(&mut ring, 1, 1, 1000, false);
    assert_eq!(ring.ring_base_slot(), 936);
    push_caller_mrt(&mut ring, 1, 1, 999, false);
    assert_eq!(ring.ring_base_slot(), 936);
    push_caller_mrt(&mut ring, 1, 1, u64::MAX, false);
    assert_eq!(ring.ring_base_slot(), u64::MAX - 64);
    push_caller_mrt(&mut ring, 1, 1, 5, false);
    assert_eq!(ring.ring_base_slot(), u64::MAX - 64);

    let mut late =
        RecentCallerRing::from_parts([0u64; 64], 0, u64::MAX, [0u64; 16], 0, 0).unwrap();
    push_caller_mrt(&mut late, 1, 1, u64::MAX, false);
    assert_eq!(late.ring_base_slot(), u64::MAX);
    push_caller_mrt(&mut late, 1, 1, 0, false);
    assert_eq!(late.ring_base_slot(), u64::MAX);
}

#[test]
fn bypass_goes_to_the_side_list() {
    let mut ring = RecentCallerRing::new();
    push_caller_mrt(&mut ring, 11, 5, 0, true);
    assert_eq!(ring.bypass_count(), 1);
    assert_eq!(ring.bypass_fp_cursor(), 1);
    assert_eq!(ring.bypass_fingerprint_at(0), Some(11));
    assert_eq!(ring.bypass_entries(), vec![11]);
    assert_eq!(ring.recent_at(0), Some(encode_caller_entry(11, 5, false)));
    push_caller_mrt(&mut ring, 12, 5, 0, false);
    assert_eq!(ring.bypass_count(), 1);
    assert_eq!(ring.bypass_fp_cursor(), 1);
    assert_eq!(ring.bypass_entries(), vec![11]);
    push_caller_mrt(&mut ring, 13, 5, 0, true);
    assert_eq!(ring.bypass_count(), 2);
    assert_eq!(ring.bypass_fp_cursor(), 2);
    assert_eq!(ring.bypass_fingerprint_at(1), Some(13));
    assert_eq!(ring.bypass_entries(), vec![11, 13]);
}

#[test]
fn bypass_count_stops_at_its_cap() {
    let mut ring = RecentCallerRing::new();
    for n in 1..=40u64 {
        push_caller_mrt(&mut ring, 1000 + n, 50, 0, true);
        assert_eq!(ring.bypass_count() as u64, n.min(MRT_MAX_BYPASS as u64));
        assert_eq!(ring.bypass_fp_cursor() as u64, n % 16);
        assert_eq!(ring.bypass_fingerprint_at(((n - 1) % 16) as usize), Some(1000 + n));
        let first = if n > 8 { n - 7 } else { 1 };
        let expected: Vec<u64> = (first..=n).map(|k| 1000 + k).collect();
        assert_eq!(ring.bypass_entries(), expected);
    }
    assert_eq!(ring.bypass_count(), MRT_MAX_BYPASS);
    let mut expected = vec![0u64; 16];
    for n in 25..=40u64 {
        expected[((n - 1) % 16) as usize] = 1000 + n;
    }
    assert_eq!(bypass_slots(&ring), expected);
}

#[test]
fn from_parts_checks_cursors_and_count() {
    assert!(RecentCallerRing::from_parts([0; 64], 63, 5, [0; 16], 15, 8).is_some());
    assert!(RecentCallerRing::from_parts([0; 64], 64, 5, [0; 16], 15, 8).is_none());
    assert!(RecentCallerRing::from_parts([0; 64], 63, 5, [0; 16], 16, 8).is_none());
    assert!(RecentCallerRing::from_parts([0; 64], 63, 5, [0; 16], 15, 9).is_none());
    assert!(RecentCallerRing::from_parts([0; 64], 255, 0, [0; 16], 255, 255).is_none());
    assert!(RecentCallerRing::from_parts([0; 64], 0, 0, [0; 16], 0, 0).is_some());
    assert!(RecentCallerRing::from_parts([u64::MAX; 64], 0, 0, [0; 16], 0, 0).is_none());
    assert!(RecentCallerRing::from_parts([0; 64], 0, 0, [u64::MAX; 16], 0, 0).is_none());

    let mut scored = [encode_caller_entry(FP_MASK, 100, true); 64];
    assert!(RecentCallerRing::from_parts(scored, 0, 0, [FP_MASK; 16], 0, 0).is_some());
    scored[63] = 101u64 << 56;
    assert!(RecentCallerRing::from_parts(scored, 0, 0, [FP_MASK; 16], 0, 0).is_none());
    scored[63] = 100u64 << 56;
    assert!(RecentCallerRing::from_parts(scored, 0, 0, [FP_MASK; 16], 0, 0).is_some());
    let mut wide = [FP_MASK; 16];
    wide[15] = FP_MASK + 1;
    assert!(RecentCallerRing::from_parts(scored, 0, 0, wide, 0, 0).is_none());

    let mut recent = [0u64; 64];
    let mut side = [0u64; 16];
    for i in 0..64 {
        recent[i] = 100 + i as u64;
    }
    for i in 0..16 {
        side[i] = 500 + i as u64;
    }
    let ring = RecentCallerRing::from_parts(recent, 10, 77, side, 2, 5).unwrap();
    assert_eq!(ring.cursor(), 10);
    assert_eq!(ring.ring_base_slot(), 77);
    assert_eq!(ring.bypass_fp_cursor(), 2);
    assert_eq!(ring.bypass_count(), 5);
    assert_eq!(slots(&ring), recent.to_vec());
    assert_eq!(bypass_slots(&ring), side.to_vec());
    let window: Vec<u64> = (0..64u64).map(|i| 100 + (10 + i) % 64).collect();
    assert_eq!(ring.recent_entries(), window);
    assert_eq!(ring.bypass_entries(), vec![513, 514, 515, 500, 501]);
}

#[test]
fn stored_values_stay_in_range() {
    let mut ring = RecentCallerRing::new();
    for n in 0..500u64 {
        let (fingerprint, score) = caller(n);
        push_caller_mrt(&mut ring, fingerprint, score, n / 7, n % 3 == 0);
        for word in slots(&ring) {
            let (fp, s, revoked) = decode_caller_entry(word);
            assert!(fp <= FP_MASK);
            assert!(s <= 100);
            assert!(!revoked);
        }
        for fp in bypass_slots(&ring) {
            assert!(fp <= FP_MASK);
        }
    }
}

#[test]
fn bounds_hold_from_every_start() {
    for cursor in 0..64u8 {
        for bypass_fp_cursor in 0..16u8 {
            for bypass_count in 0..=MRT_MAX_BYPASS {
                for bypass in [false, true] {
                    let mut ring = RecentCallerRing::from_parts(
                        [0; 64],
                        cursor,
                        9,
                        [0; 16],
                        bypass_fp_cursor,
                        bypass_count,
                    )
                    .unwrap();
                    for n in 0..3u64 {
                        push_caller_mrt(&mut ring, n, 100, 9 + n, bypass);
                        assert!((ring.cursor() as usize) < RING_BUFFER_SIZE);
                        assert!((ring.bypass_fp_cursor() as usize) < BYPASS_FP_SIZE);
                        assert!(ring.bypass_count() <= MRT_MAX_BYPASS);
                    }
                    assert_eq!(ring.cursor(), (cursor + 3) % 64);
                    if bypass {
                        assert_eq!(ring.bypass_fp_cursor(), (bypass_fp_cursor + 3) % 16);
                        assert_eq!(ring.bypass_count(), (bypass_count + 3).min(MRT_MAX_BYPASS));
                    } else {
                        assert_eq!(ring.bypass_fp_cursor(), bypass_fp_cursor);
                        assert_eq!(ring.bypass_count(), bypass_count);
                    }
                }
            }
        }
    }
}

#[test]
fn one_push_from_given_values() {
    assert_eq!(proof_push_caller_mrt_cursor_and_bounds(0, 0, 0, 0, 0, 0, 0, false), (1, 0, 0));
    assert_eq!(proof_push_caller_mrt_cursor_and_bounds(0, 0, 0, 0, 0, 0, 0, true), (1, 1, 1));
    assert_eq!(
        proof_push_caller_mrt_cursor_and_bounds(63, 5, 8, 15, u64::MAX, 100, u64::MAX, true),
        (0, 0, 8)
    );
    assert_eq!(
        proof_push_caller_mrt_cursor_and_bounds(255, 5, 7, 255, u64::MAX, 100, 0, true),
        (0, 0, 8)
    );
    assert_eq!(
        proof_push_caller_mrt_cursor_and_bounds(200, 5, 7, 200, 77, 1, 0, false),
        (9, 8, 7)
    );
    for cursor in 0..=255u8 {
        for bypass_count in 0..=MRT_MAX_BYPASS {
            for bypass in [false, true] {
                let (c, b, n) = proof_push_caller_mrt_cursor_and_bounds(
                    cursor,
                    cursor as u64 * 1000,
                    bypass_count,
                    cursor.wrapping_mul(3),
                    u64::MAX - cursor as u64,
                    cursor % 101,
                    7,
                    bypass,
                );
                assert!((c as usize) < RING_BUFFER_SIZE);
                assert!((b as usize) < BYPASS_FP_SIZE);
                assert!(n <= MRT_MAX_BYPASS);
                assert_eq!(c, (cursor % 64 + 1) % 64);
            }
        }
    }
}
