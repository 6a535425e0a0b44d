//! Decimal prices and their conversion to the chain's smallest denomination.
use vstd::prelude::*;

verus! {

/// Number of decimal places between one whole token and its smallest unit.
pub const DECIMALS: u32 = 24;

/// The least unit price that still pays for one token record's storage.
pub const MIN_STORAGE_DEPOSIT: u128 = 7_020_000_000_000_000_000_000;

pub open spec fn is_digit(c: char) -> bool {
    '0' <= c && c <= '9'
}

pub open spec fn digit_value(c: char) -> nat {
    (c as u32 - '0' as u32) as nat
}

/// A non-empty run of decimal digits.
pub open spec fn is_digits(s: Seq<char>) -> bool {
    s.len() > 0 && forall|i: int| 0 <= i < s.len() ==> is_digit(#[trigger] s[i])
}

/// The number that a run of decimal digits spells, most significant first.
pub open spec fn digits_value(s: Seq<char>) -> nat
    decreases s.len(),
{
    if s.len() == 0 {
        0
    } else {
        digits_value(s.drop_last()) * 10 + digit_value(s.last())
    }
}

pub open spec fn pow10(n: nat) -> nat
    decreases n,
{
    if n == 0 {
        1
    } else {
        10 * pow10((n - 1) as nat)
    }
}

/// Whether `k` splits `s` into a whole part, a dot and a fractional part of
/// at most `DECIMALS` digits.
pub open spec fn splits_at(s: Seq<char>, k: int) -> bool {
    0 <= k < s.len() && s[k] == '.' && is_digits(s.take(k)) && is_digits(s.skip(k + 1))
        && s.len() - k - 1 <= DECIMALS
}

/// The amount, in the smallest unit, that the decimal text `s` denotes:
/// `W` or `W.F` with `W` and `F` runs of digits and `F` at most `DECIMALS`
/// long. Any other text denotes nothing.
pub open spec fn yocto_amount(s: Seq<char>) -> Option<nat> {
    if is_digits(s) {
        Some(digits_value(s) * pow10(DECIMALS as nat))
    } else if exists|k: int| splits_at(s, k) {
        let k = choose|k: int| splits_at(s, k);
        Some(
            digits_value(s.take(k)) * pow10(DECIMALS as nat) + digits_value(s.skip(k + 1)) * pow10(
                (DECIMALS - (s.len() - k - 1)) as nat,
            ),
        )
    } else {
        None
    }
}

/// `yocto_amount`, where it exists and fits in a `u128`.
pub open spec fn yocto_u128(s: Seq<char>) -> Option<u128> {
    match yocto_amount(s) {
        Some(v) => if v <= u128::MAX {
            Some(v as u128)
        } else {
            None
        },
        None => None,
    }
}

proof fn lemma_pow10_positive(n: nat)
    ensures
        pow10(n) >= 1,
    decreases n,
{
    if n > 0 {
        lemma_pow10_positive((n - 1) as nat);
    }
}

proof fn lemma_digits_value_prefix(s: Seq<char>, i: int, j: int)
    requires
        0 <= i <= j <= s.len(),
    ensures
        digits_value(s.take(i)) <= digits_value(s.take(j)),
    decreases j - i,
{
    if i < j {
        lemma_digits_value_prefix(s, i, j - 1);
        assert(s.take(j).drop_last() =~= s.take(j - 1));
    }
}

proof fn lemma_digits_bound(s: Seq<char>)
    requires
        forall|i: int| 0 <= i < s.len() ==> is_digit(#[trigger] s[i]),
    ensures
        digits_value(s) < pow10(s.len()),
    decreases s.len(),
{
    if s.len() > 0 {
        let t = s.drop_last();
        assert forall|i: int| 0 <= i < t.len() implies is_digit(#[trigger] t[i]) by {
            assert(t[i] == s[i]);
        }
        lemma_digits_bound(t);
        assert(is_digit(s[s.len() - 1]));
    }
}

/// Reads the run of digits `s[from..to]`; `None` when it holds another
/// character or its value does not fit in a `u128`.
fn parse_digits(s: &str, from: usize, to: usize) -> (r: Option<u128>)
    requires
        from <= to <= s@.len(),
    ensures
        r is Some <==> (forall|i: int| from <= i < to ==> is_digit(#[trigger] s@[i]))
            && digits_value(s@.subrange(from as int, to as int)) <= u128::MAX,
        r matches Some(v) ==> v == digits_value(s@.subrange(from as int, to as int)),
{
    let ghost t = s@.subrange(from as int, to as int);
    let mut acc: u128 = 0;
    let mut i: usize = from;
    while i < to
        invariant
            from <= i <= to <= s@.len(),
            t == s@.subrange(from as int, to as int),
            forall|j: int| from <= j < i ==> is_digit(#[trigger] s@[j]),
            acc == digits_value(t.take(i - from)),
        decreases to - i,
    {
        let c = s.get_char(i);
        if c < '0' || c > '9' {
            return None;
        }
        let d = (c as u32 - '0' as u32) as u128;
        proof {
            assert(t.take(i - from + 1).drop_last() =~= t.take(i - from));
            assert(t.take(i - from + 1).last() == c);
        }
        let next = match acc.checked_mul(10) {
            Some(m) => m.checked_add(d),
            None => None,
        };
        match next {
            Some(n) => {
                acc = n;
            },
            None => {
                proof {
                    lemma_digits_value_prefix(t, i - from + 1, t.len() as int);
                    assert(t.take(t.len() as int) =~= t);
                }
                return None;
            },
        }
        i += 1;
    }
    proof {
        assert(t.take(i - from) =~= t);
    }
    Some(acc)
}

proof fn lemma_digits_of_sub(s: Seq<char>, from: int, to: int)
    requires
        0 <= from <= to <= s.len(),
    ensures
        is_digits(s.subrange(from, to)) <==> from < to && (forall|i: int|
            from <= i < to ==> is_digit(#[trigger] s[i])),
{
    let t = s.subrange(from, to);
    if from < to && (forall|i: int| from <= i < to ==> is_digit(#[trigger] s[i])) {
        assert forall|i: int| 0 <= i < t.len() implies is_digit(#[trigger] t[i]) by {
            assert(t[i] == s[from + i]);
        }
    }
    if is_digits(t) {
        assert forall|i: int| from <= i < to implies is_digit(#[trigger] s[i]) by {
            assert(t[i - from] == s[i]);
        }
    }
}

/// The position of the first dot in `s`, or its length when it has none.
fn find_dot(s: &str) -> (k: usize)
    ensures
        k <= s@.len(),
        forall|j: int| 0 <= j < k ==> s@[j] != '.',
        k < s@.len() ==> s@[k as int] == '.',
{
    let n = s.unicode_len();
    let mut k: usize = 0;
    while k < n
        invariant
            k <= n,
            n == s@.len(),
            forall|j: int| 0 <= j < k ==> s@[j] != '.',
        decreases n - k,
    {
        if s.get_char(k) == '.' {
            return k;
        }
        k += 1;
    }
    k
}

/// Converts a decimal amount of whole tokens (`"3"`, `"0.25"`) into the
/// smallest unit. `None` when the text is no such amount, has more than
/// `DECIMALS` fractional digits, or the amount does not fit in a `u128`.
pub fn to_yocto(value: &str) -> (r: Option<u128>)
    ensures
        r == yocto_u128(value@),
{
    let ghost s = value@;
    let n = value.unicode_len();
    let k = find_dot(value);
    assert(s.take(k as int) =~= s.subrange(0, k as int));
    proof {
        lemma_pow10_positive(DECIMALS as nat);
        lemma_pow10_decimals();
        lemma_digits_of_sub(s, 0, k as int);
        assert(s.subrange(0, n as int) =~= s);
        if k < n {
            assert(s.skip(k + 1) =~= s.subrange(k + 1, n as int));
            lemma_digits_of_sub(s, k + 1, n as int);
            // the split is at the first dot, and is the only candidate
            assert forall|j: int| splits_at(s, j) implies j == k by {
                if j > k {
                    assert(s.take(j)[k as int] == '.');
                }
                if j < k {
                    assert(s[j] != '.');
                }
            }
            assert(!is_digits(s)) by {
                assert(!is_digit(s[k as int]));
            }
        } else {
            assert forall|j: int| !splits_at(s, j) by {}
        }
    }
    if k == 0 {
        return None;
    }
    let whole = match parse_digits(value, 0, k) {
        Some(w) => w,
        None => {
            return None;
        },
    };
    if k == n {
        // the whole text is a run of digits
        assert(digits_value(s) <= digits_value(s) * pow10(DECIMALS as nat)) by (nonlinear_arith)
            requires
                pow10(DECIMALS as nat) >= 1,
        ;
        return whole.checked_mul(1_000_000_000_000_000_000_000_000u128);
    }
    assert(splits_at(s, k as int) <==> (k + 1 < n && n - k - 1 <= DECIMALS && (forall|i: int|
        k + 1 <= i < n ==> is_digit(#[trigger] s[i])) && (forall|i: int|
        0 <= i < k ==> is_digit(#[trigger] s[i]))));
    if k + 1 == n || n - k - 1 > 24 {
        return None;
    }
    let frac = match parse_digits(value, k + 1, n) {
        Some(f) => f,
        None => {
            proof {
                if forall|i: int| k + 1 <= i < n ==> is_digit(#[trigger] s[i]) {
                    lemma_digits_of_sub(s, k + 1, n as int);
                    lemma_digits_bound(s.subrange(k + 1, n as int));
                    lemma_pow10_monotone((n - k - 1) as nat, DECIMALS as nat);
                }
            }
            return None;
        },
    };
    let power = (n - k - 1) as u32;
    let scale = pow10_exec(DECIMALS - power);
    proof {
        lemma_digits_bound(s.subrange(k + 1, n as int));
        lemma_pow10_add(power as nat, (DECIMALS - power) as nat);
        lemma_pow10_monotone(power as nat, DECIMALS as nat);
        lemma_pow10_positive((DECIMALS - power) as nat);
        assert(frac * scale < pow10(DECIMALS as nat)) by (nonlinear_arith)
            requires
                frac < pow10(power as nat),
                pow10(power as nat) * scale == pow10(DECIMALS as nat),
                scale >= 1,
        ;
        lemma_pow10_decimals();
    }
    let part2 = frac * scale;
    match whole.checked_mul(1_000_000_000_000_000_000_000_000u128) {
        Some(part1) => part1.checked_add(part2),
        None => {
            assert(whole * pow10(DECIMALS as nat) + part2 > u128::MAX);
            None
        },
    }
}

proof fn lemma_pow10_add(a: nat, b: nat)
    ensures
        pow10(a) * pow10(b) == pow10(a + b),
    decreases a,
{
    if a > 0 {
        let a1 = (a - 1) as nat;
        lemma_pow10_add(a1, b);
        assert(pow10(a) == 10 * pow10(a1));
        assert(pow10(a1 + b + 1) == 10 * pow10(a1 + b));
        assert(a1 + b + 1 == a + b);
        assert(pow10(a) * pow10(b) == pow10(a + b)) by (nonlinear_arith)
            requires
                pow10(a) == 10 * pow10(a1),
                pow10(a + b) == 10 * pow10(a1 + b),
                pow10(a1) * pow10(b) == pow10(a1 + b),
        ;
    } else {
        assert(pow10(a) == 1);
        assert(a + b == b);
        assert(pow10(a) * pow10(b) == pow10(b)) by (nonlinear_arith)
            requires
                pow10(a) == 1,
        ;
    }
}

proof fn lemma_pow10_monotone(a: nat, b: nat)
    requires
        a <= b,
    ensures
        pow10(a) <= pow10(b),
    decreases b,
{
    if a < b {
        lemma_pow10_monotone(a, (b - 1) as nat);
    }
}

proof fn lemma_pow10_decimals()
    ensures
        pow10(DECIMALS as nat) == 1_000_000_000_000_000_000_000_000,
{
    reveal_with_fuel(pow10, 25);
}

fn pow10_exec(n: u32) -> (r: u128)
    requires
        n <= DECIMALS,
    ensures
        r == pow10(n as nat),
{
    let mut r: u128 = 1;
    let mut i: u32 = 0;
    while i < n
        invariant
            i <= n <= DECIMALS,
            r == pow10(i as nat),
        decreases n - i,
    {
        proof {
            lemma_pow10_monotone((i + 1) as nat, DECIMALS as nat);
            lemma_pow10_decimals();
        }
        r = r * 10;
        i += 1;
    }
    r
}

/// The price of `num` tokens at `unit_price` each, in the smallest unit.
/// `None` when the price is no amount or the product does not fit.
pub fn total_cost(unit_price: &str, num: u32) -> (r: Option<u128>)
    ensures
        r == (match yocto_u128(unit_price@) {
            Some(p) => if p * num <= u128::MAX {
                Some((p * num) as u128)
            } else {
                None
            },
            None => None,
        }),
{
    match to_yocto(unit_price) {
        Some(p) => p.checked_mul(num as u128),
        None => None,
    }
}

} // verus!
