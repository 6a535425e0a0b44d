//! Random values for draws, derived from the block's random seed and a
//! counter that grows with each draw.
use vstd::prelude::*;

verus! {

/// The SHA-256 digest of `b`.
pub uninterp spec fn sha256_of(b: Seq<u8>) -> Seq<u8>;

/// Relies on near_sdk::env::sha256: the SHA-256 digest of its input, a
/// 32-byte array turned into a vector.
#[verifier::external_body]
fn sha256(b: &Vec<u8>) -> (r: Vec<u8>)
    ensures
        r@ == sha256_of(b@),
        r@.len() == 32,
{
    near_sdk::env::sha256(b)
}

/// The `k` lowest bytes of `n`, least significant first.
pub open spec fn le_bytes(n: nat, k: nat) -> Seq<u8>
    decreases k,
{
    if k == 0 {
        seq![]
    } else {
        seq![(n % 256) as u8] + le_bytes(n / 256, (k - 1) as nat)
    }
}

/// The number whose bytes, least significant first, are `b`.
pub open spec fn le_value(b: Seq<u8>) -> nat
    decreases b.len(),
{
    if b.len() == 0 {
        0
    } else {
        b[0] as nat + 256 * le_value(b.skip(1))
    }
}

/// The random value of the draw numbered `counter` under the block seed
/// `seed`: the first eight bytes of the digest of the seed followed by the
/// counter's eight bytes.
pub open spec fn draw_random(seed: Seq<u8>, counter: u64) -> nat {
    le_value(sha256_of(seed + le_bytes(counter as nat, 8)).take(8))
}

proof fn lemma_le_value_bound(b: Seq<u8>)
    ensures
        le_value(b) < pow256(b.len()),
    decreases b.len(),
{
    if b.len() > 0 {
        lemma_le_value_bound(b.skip(1));
        let r = le_value(b.skip(1));
        let p = pow256(b.skip(1).len());
        assert(b[0] as nat + 256 * r < 256 * p) by (nonlinear_arith)
            requires
                r < p,
                b[0] < 256,
        ;
    }
}

pub open spec fn pow256(k: nat) -> nat
    decreases k,
{
    if k == 0 {
        1
    } else {
        256 * pow256((k - 1) as nat)
    }
}

/// The eight bytes of `n`, least significant first.
fn u64_le_bytes(n: u64) -> (r: Vec<u8>)
    ensures
        r@ == le_bytes(n as nat, 8),
{
    let mut r: Vec<u8> = Vec::new();
    let mut m: u64 = n;
    let mut i: u64 = 0;
    while i < 8
        invariant
            i <= 8,
            r@ + le_bytes(m as nat, (8 - i) as nat) == le_bytes(n as nat, 8),
        decreases 8 - i,
    {
        proof {
            let rest = le_bytes(m as nat, (8 - i) as nat);
            assert(rest == seq![(m as nat % 256) as u8] + le_bytes(m as nat / 256, (8 - i - 1) as nat));
            assert(r@.push((m % 256) as u8) + le_bytes((m / 256) as nat, (8 - i - 1) as nat)
                =~= r@ + rest);
        }
        r.push((m % 256) as u8);
        m = m / 256;
        i += 1;
    }
    assert(r@ + le_bytes(m as nat, 0) =~= r@);
    r
}

/// The number whose first eight bytes, least significant first, are those
/// of `b`.
fn u64_from_le(b: &Vec<u8>) -> (r: u64)
    requires
        b@.len() >= 8,
    ensures
        r == le_value(b@.take(8)),
{
    let ghost t = b@.take(8);
    let mut acc: u64 = 0;
    let mut i: usize = 8;
    while i > 0
        invariant
            i <= 8,
            t == b@.take(8),
            b@.len() >= 8,
            acc == le_value(t.skip(i as int)),
        decreases i,
    {
        proof {
            assert(t.skip(i - 1).skip(1) =~= t.skip(i as int));
            assert(t.skip(i - 1)[0] == b@[i - 1]);
            lemma_le_value_bound(t.skip(i - 1));
            reveal_with_fuel(pow256, 9);
            assert(pow256(t.skip(i - 1).len()) <= pow256(8)) by {
                lemma_pow256_monotone(t.skip(i - 1).len(), 8);
            }
        }
        acc = b[i - 1] as u64 + 256 * acc;
        i -= 1;
    }
    assert(t.skip(0) =~= t);
    acc
}

proof fn lemma_pow256_monotone(a: nat, b: nat)
    requires
        a <= b,
    ensures
        pow256(a) <= pow256(b),
    decreases b,
{
    if a < b {
        lemma_pow256_monotone(a, (b - 1) as nat);
    }
}

/// The random value of the draw numbered `counter` under the block seed
/// `seed`.
pub fn random_for_draw(seed: &Vec<u8>, counter: u64) -> (r: u64)
    ensures
        r == draw_random(seed@, counter),
{
    let mut input = seed.clone();
    let mut suffix = u64_le_bytes(counter);
    input.append(&mut suffix);
    let digest = sha256(&input);
    u64_from_le(&digest)
}

} // verus!
