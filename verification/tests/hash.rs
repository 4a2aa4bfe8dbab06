use camello::hash::{OffsetHasher, MULTIPLIER};

fn mix(h: u64, word: u64) -> u64 {
    (h.rotate_left(5) ^ word).wrapping_mul(MULTIPLIER)
}

#[test]
fn a_fresh_hasher_is_zero() {
    assert_eq!(OffsetHasher::new().finish(), 0);
    assert_eq!(OffsetHasher::default().finish(), 0);
}

#[test]
fn an_offset_is_one_mix() {
    let mut h = OffsetHasher::new();
    h.write_u32(42);
    assert_eq!(h.finish(), 42u64.wrapping_mul(MULTIPLIER));
    h.write_u64(7);
    assert_eq!(h.finish(), mix(42u64.wrapping_mul(MULTIPLIER), 7));
}

#[test]
fn bytes_are_mixed_one_at_a_time() {
    let mut h = OffsetHasher::new();
    h.write(&[1, 2, 3]);
    assert_eq!(h.finish(), mix(mix(mix(0, 1), 2), 3));
    let mut g = OffsetHasher::new();
    g.write_usize(3);
    assert_eq!(g.finish(), mix(0, 3));
}
