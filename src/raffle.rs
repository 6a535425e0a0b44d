//! The draw pool: the identifiers not minted yet, drawn without replacement.
use vstd::arithmetic::div_mod::lemma_small_mod;
use vstd::prelude::*;

verus! {

/// Why a draw could not be made.
#[derive(Debug, Clone, Copy, PartialEq, Eq, Structural)]
pub enum DrawError {
    PoolExhausted,
}

/// The identifiers `0..size` that have not been drawn yet, in no
/// particular order.
pub struct Raffle {
    ids: Vec<u64>,
    size: u64,
}

/// The pool as created: every identifier below `n`, in order.
pub open spec fn full_pool(n: nat) -> Seq<u64> {
    Seq::new(n, |i: int| i as u64)
}

/// One swap-to-end draw with the random value `r`: the element at
/// `r % len` leaves, and the last element takes its place.
pub open spec fn draw_spec(pool: Seq<u64>, r: u64) -> (Seq<u64>, u64)
    recommends
        pool.len() > 0,
{
    let idx = r as int % pool.len() as int;
    let last = pool.len() - 1;
    (pool.update(idx, pool[last]).drop_last(), pool[idx])
}

/// The drawn values and what remains after drawing once for each value of
/// `rs`, in order, while the pool is not empty.
pub open spec fn draw_all(pool: Seq<u64>, rs: Seq<u64>) -> (Seq<u64>, Seq<u64>)
    decreases rs.len(),
{
    if rs.len() == 0 || pool.len() == 0 {
        (seq![], pool)
    } else {
        let (rest, v) = draw_spec(pool, rs[0]);
        let (drawn, remaining) = draw_all(rest, rs.skip(1));
        (seq![v].add(drawn), remaining)
    }
}

impl View for Raffle {
    type V = Seq<u64>;

    closed spec fn view(&self) -> Seq<u64> {
        self.ids@
    }
}

impl Raffle {
    /// The number of identifiers the pool was created with.
    pub closed spec fn spec_size(&self) -> nat {
        self.size as nat
    }

    /// Each identifier in the pool is below the size and appears once.
    pub open spec fn wf(&self) -> bool {
        self@.no_duplicates() && self@.len() <= self.spec_size() && forall|i: int|
            0 <= i < self@.len() ==> (#[trigger] self@[i]) < self.spec_size()
    }

    /// A pool of every identifier below `size`.
    pub fn new(size: u64) -> (r: Raffle)
        ensures
            r.wf(),
            r@ == full_pool(size as nat),
            r.spec_size() == size,
    {
        let mut ids: Vec<u64> = Vec::new();
        let mut i: u64 = 0;
        while i < size
            invariant
                i <= size,
                ids@ == full_pool(i as nat),
            decreases size - i,
        {
            ids.push(i);
            i += 1;
            assert(ids@ =~= full_pool(i as nat));
        }
        let r = Raffle { ids, size };
        assert(r@.no_duplicates());
        r
    }

    /// How many identifiers are left.
    pub fn len(&self) -> (r: u64)
        requires
            self.wf(),
        ensures
            r == self@.len(),
    {
        self.ids.len() as u64
    }

    /// The number of identifiers the pool was created with.
    pub fn size(&self) -> (r: u64)
        ensures
            r == self.spec_size(),
    {
        self.size
    }

    /// Removes and returns the identifier at `r % len`, moving the last one
    /// into its place; fails on an empty pool, which it leaves as it is.
    pub fn draw_with(&mut self, r: u64) -> (res: Result<u64, DrawError>)
        requires
            old(self).wf(),
        ensures
            final(self).wf(),
            final(self).spec_size() == old(self).spec_size(),
            old(self)@.len() == 0 ==> res == Err::<u64, DrawError>(DrawError::PoolExhausted)
                && final(self)@ == old(self)@,
            old(self)@.len() > 0 ==> res == Ok::<u64, DrawError>(draw_spec(old(self)@, r).1)
                && final(self)@ == draw_spec(old(self)@, r).0,
    {
        let n = self.ids.len();
        if n == 0 {
            return Err(DrawError::PoolExhausted);
        }
        let idx = (r % (n as u64)) as usize;
        let ghost pool = self@;
        let v = self.ids[idx];
        let last = self.ids.pop().unwrap();
        if idx < n - 1 {
            self.ids.set(idx, last);
        }
        proof {
            assert(self@ =~= draw_spec(pool, r).0);
            lemma_draw_keeps_rest(pool, r);
            assert forall|i: int| 0 <= i < self@.len() implies (#[trigger] self@[i])
                < self.spec_size() by {
                assert(pool.contains(self@[i]));
            }
        }
        Ok(v)
    }
}

/// One draw from a pool without repeats: the drawn value leaves, the others
/// stay, and no value repeats afterwards.
pub proof fn lemma_draw_keeps_rest(pool: Seq<u64>, r: u64)
    requires
        pool.no_duplicates(),
        pool.len() > 0,
    ensures
        ({
            let (rest, v) = draw_spec(pool, r);
            &&& rest.no_duplicates()
            &&& rest.len() == pool.len() - 1
            &&& pool.contains(v)
            &&& !rest.contains(v)
            &&& forall|x: u64| #[trigger] pool.contains(x) <==> (x == v || rest.contains(x))
        }),
{
    let (rest, v) = draw_spec(pool, r);
    let idx = r as int % pool.len() as int;
    let last = pool.len() - 1;
    assert(pool[idx] == v);
    assert forall|x: u64| #[trigger] pool.contains(x) implies (x == v || rest.contains(x)) by {
        let j = choose|j: int| 0 <= j < pool.len() && pool[j] == x;
        if j != idx {
            if j == last {
                assert(rest[idx] == x);
            } else {
                assert(rest[j] == x);
            }
        }
    }
    assert forall|x: u64| rest.contains(x) implies #[trigger] pool.contains(x) by {
        let j = choose|j: int| 0 <= j < rest.len() && rest[j] == x;
        if j == idx {
            assert(pool[last] == x);
        } else {
            assert(pool[j] == x);
        }
    }
    assert(!rest.contains(v)) by {
        if rest.contains(v) {
            let j = choose|j: int| 0 <= j < rest.len() && rest[j] == v;
            if j == idx {
                assert(pool[last] == v);
            } else {
                assert(pool[j] == v);
            }
        }
    }
    assert forall|i: int, j: int| 0 <= i < rest.len() && 0 <= j < rest.len() && i != j implies
        rest[i] != rest[j] by {
        let pi = if i == idx { last } else { i };
        let pj = if j == idx { last } else { j };
        assert(rest[i] == pool[pi]);
        assert(rest[j] == pool[pj]);
    }
}

/// Drawing as many times as a pool without repeats holds empties it and
/// yields each of its identifiers exactly once, whatever the random values.
pub proof fn lemma_draw_all_permutation(pool: Seq<u64>, rs: Seq<u64>)
    requires
        pool.no_duplicates(),
        rs.len() == pool.len(),
    ensures
        ({
            let (drawn, remaining) = draw_all(pool, rs);
            &&& remaining.len() == 0
            &&& drawn.len() == pool.len()
            &&& drawn.no_duplicates()
            &&& drawn.to_set() == pool.to_set()
        }),
    decreases rs.len(),
{
    let (drawn, remaining) = draw_all(pool, rs);
    if rs.len() == 0 {
        assert(drawn.to_set() =~= pool.to_set());
    } else {
        let (rest, v) = draw_spec(pool, rs[0]);
        lemma_draw_keeps_rest(pool, rs[0]);
        lemma_draw_all_permutation(rest, rs.skip(1));
        let (d2, rem2) = draw_all(rest, rs.skip(1));
        assert(drawn == seq![v].add(d2));
        assert forall|i: int, j: int| 0 <= i < drawn.len() && 0 <= j < drawn.len() && i != j
            implies drawn[i] != drawn[j] by {
            if i == 0 {
                assert(d2.to_set().contains(drawn[j]));
            } else if j == 0 {
                assert(d2.to_set().contains(drawn[i]));
            } else {
                assert(drawn[i] == d2[i - 1] && drawn[j] == d2[j - 1]);
            }
        }
        assert forall|x: u64| drawn.to_set().contains(x) <==> pool.to_set().contains(x) by {
            if drawn.contains(x) {
                let j = choose|j: int| 0 <= j < drawn.len() && drawn[j] == x;
                if j > 0 {
                    assert(d2[j - 1] == x);
                    assert(d2.to_set().contains(x));
                }
            }
            if pool.contains(x) {
                if x == v {
                    assert(drawn[0] == x);
                } else {
                    assert(rest.to_set().contains(x));
                    let j = choose|j: int| 0 <= j < d2.len() && d2[j] == x;
                    assert(drawn[j + 1] == x);
                }
            }
        }
        assert(drawn.to_set() =~= pool.to_set());
    }
}

/// A pool created with `n` identifiers, drawn from `n` times, yields every
/// identifier below `n` exactly once and is then empty, so that a further
/// draw fails.
pub proof fn lemma_full_pool_draws(n: u64, rs: Seq<u64>)
    requires
        rs.len() == n,
    ensures
        ({
            let (drawn, remaining) = draw_all(full_pool(n as nat), rs);
            &&& remaining.len() == 0
            &&& drawn.len() == n
            &&& drawn.no_duplicates()
            &&& drawn.to_set() == Set::new(|x: u64| x < n)
        }),
{
    let pool = full_pool(n as nat);
    lemma_draw_all_permutation(pool, rs);
    assert forall|x: u64| pool.to_set().contains(x) <==> x < n by {
        if x < n {
            assert(pool[x as int] == x);
        }
    }
    assert(pool.to_set() =~= Set::new(|x: u64| x < n));
}

/// Each identifier in the pool is drawn by exactly one random value in
/// `0..len`: a source uniform over `0..len` draws every remaining
/// identifier with the same chance.
pub proof fn lemma_draw_uniform(pool: Seq<u64>, x: u64)
    requires
        pool.no_duplicates(),
        pool.contains(x),
        pool.len() <= u64::MAX,
    ensures
        exists|r: u64| #![auto] r < pool.len() && draw_spec(pool, r).1 == x,
        forall|r1: u64, r2: u64|
            r1 < pool.len() && r2 < pool.len() && #[trigger] draw_spec(pool, r1).1 == x
                && #[trigger] draw_spec(pool, r2).1 == x ==> r1 == r2,
{
    let j = choose|j: int| 0 <= j < pool.len() && pool[j] == x;
    let r = j as u64;
    lemma_small_mod(r as nat, pool.len());
    assert(draw_spec(pool, r).1 == x);
    assert forall|r1: u64, r2: u64|
        r1 < pool.len() && r2 < pool.len() && #[trigger] draw_spec(pool, r1).1 == x
            && #[trigger] draw_spec(pool, r2).1 == x implies r1 == r2 by {
        lemma_small_mod(r1 as nat, pool.len());
        lemma_small_mod(r2 as nat, pool.len());
        assert(pool[r1 as int] == pool[r2 as int]);
    }
}

} // verus!
