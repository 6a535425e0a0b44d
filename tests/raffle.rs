use tenk::raffle::{DrawError, Raffle};

fn draw_everything(n: u64, randoms: &[u64]) -> Vec<u64> {
    let mut pool = Raffle::new(n);
    let mut out = Vec::new();
    for i in 0..n as usize {
        out.push(pool.draw_with(randoms[i % randoms.len()]).unwrap());
        assert_eq!(pool.len(), n - i as u64 - 1);
    }
    assert_eq!(pool.draw_with(7), Err(DrawError::PoolExhausted));
    out
}

#[test]
fn new_pool_holds_every_identifier() {
    let pool = Raffle::new(4);
    assert_eq!(pool.len(), 4);
    assert_eq!(pool.size(), 4);
}

#[test]
fn draws_form_a_permutation() {
    let seeds: [&[u64]; 4] = [&[0], &[1, 2, 3], &[u64::MAX, 17, 5], &[123456789, 42]];
    for n in 0..20u64 {
        for randoms in seeds.iter() {
            let mut drawn = draw_everything(n, randoms);
            drawn.sort();
            let expected: Vec<u64> = (0..n).collect();
            assert_eq!(drawn, expected);
        }
    }
}

#[test]
fn empty_pool_is_exhausted() {
    let mut pool = Raffle::new(0);
    assert_eq!(pool.draw_with(0), Err(DrawError::PoolExhausted));
    assert_eq!(pool.len(), 0);
}

#[test]
fn swap_to_end_draw() {
    let mut pool = Raffle::new(5);
    // index 1 leaves, the last identifier moves into its place
    assert_eq!(pool.draw_with(6), Ok(1));
    // the pool is now [0, 4, 2, 3]
    assert_eq!(pool.draw_with(1), Ok(4));
    // the pool is now [0, 3, 2]
    assert_eq!(pool.draw_with(0), Ok(0));
    // the pool is now [2, 3]
    assert_eq!(pool.draw_with(0), Ok(2));
    assert_eq!(pool.draw_with(0), Ok(3));
    assert_eq!(pool.draw_with(0), Err(DrawError::PoolExhausted));
}

#[test]
fn each_remaining_identifier_equally_likely() {
    // over a uniform source, each remaining identifier is drawn equally often
    let n: u64 = 7;
    let trials: u64 = 7000;
    let mut counts = vec![0u64; n as usize];
    let mut state: u64 = 0x9e3779b97f4a7c15;
    for _ in 0..trials {
        state = state.wrapping_mul(6364136223846793005).wrapping_add(1442695040888963407);
        let mut pool = Raffle::new(n);
        let v = pool.draw_with(state >> 11).unwrap();
        counts[v as usize] += 1;
    }
    for c in counts {
        assert!(c > 800 && c < 1200, "count {}", c);
    }
    // and exactly: every random value below the length picks a distinct one
    let mut seen = Vec::new();
    for r in 0..n {
        let mut pool = Raffle::new(n);
        seen.push(pool.draw_with(r).unwrap());
    }
    seen.sort();
    assert_eq!(seen, (0..n).collect::<Vec<u64>>());
}
