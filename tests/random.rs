use tenk::random::random_for_draw;

fn expected(seed: &[u8], counter: u64) -> u64 {
    let mut input = seed.to_vec();
    input.extend_from_slice(&counter.to_le_bytes());
    let digest = near_sdk::env::sha256(&input);
    let mut first = [0u8; 8];
    first.copy_from_slice(&digest[..8]);
    u64::from_le_bytes(first)
}

#[test]
fn random_value_is_the_digest_prefix() {
    let seed: Vec<u8> = (0u8..32).collect();
    for counter in [0u64, 1, 2, 1000, u64::MAX] {
        assert_eq!(random_for_draw(&seed, counter), expected(&seed, counter));
    }
}

#[test]
fn random_value_of_empty_seed() {
    // SHA-256 of eight zero bytes begins with af 55 70 f5 a1 81 0b 7a
    assert_eq!(random_for_draw(&Vec::new(), 0), 0x7a0b81a1f57055af);
}

#[test]
fn counter_changes_the_value() {
    let seed = vec![1u8; 32];
    let a = random_for_draw(&seed, 0);
    let b = random_for_draw(&seed, 1);
    let c = random_for_draw(&seed, 2);
    assert!(a != b && b != c && a != c);
    assert_eq!(a, random_for_draw(&seed, 0));
}
