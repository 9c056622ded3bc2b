use vstd::arithmetic::div_mod::{
    lemma_fundamental_div_mod, lemma_fundamental_div_mod_converse, lemma_mod_add_multiples_vanish,
    lemma_mod_multiples_basic,
};
use vstd::prelude::*;

verus! {

/// Whether `k` is a prime number: at least 2, and divisible by nothing between 1 and itself.
pub open spec fn is_prime(k: int) -> bool {
    k >= 2 && forall|d: int| 2 <= d < k ==> #[trigger] (k % d) != 0
}

/// How many primes there are among `0, 1, ..., n`.
pub open spec fn count_primes(n: int) -> nat
    decreases n,
{
    if n < 2 {
        0
    } else {
        count_primes(n - 1) + if is_prime(n) {
            1nat
        } else {
            0nat
        }
    }
}

/// Whether some `d` with `2 <= d < bound` divides `k` without being `k` itself.
pub open spec fn has_divisor_below(k: int, bound: int) -> bool {
    exists|d: int| 2 <= d < bound && d < k && #[trigger] (k % d) == 0
}

/// A divisor of a divisor is a divisor.
proof fn lemma_divisor_of_divisor(k: int, p: int, d: int)
    requires
        d > 0,
        p > 0,
        p % d == 0,
        k % p == 0,
    ensures
        k % d == 0,
{
    lemma_fundamental_div_mod(k, p);
    lemma_fundamental_div_mod(p, d);
    let a = k / p;
    let b = p / d;
    assert(k == (b * a) * d) by (nonlinear_arith)
        requires
            k == p * a,
            p == d * b,
    ;
    lemma_mod_multiples_basic(b * a, d);
}

/// Strictly between two neighbouring multiples of `p` lies no multiple of `p`.
proof fn lemma_no_multiple_between(i: int, p: int, k: int)
    requires
        p > 0,
        i % p == 0,
        i < k < i + p,
    ensures
        k % p != 0,
{
    lemma_fundamental_div_mod(i, p);
    let q = i / p;
    assert(k == q * p + (k - i)) by (nonlinear_arith)
        requires
            i == p * q,
    ;
    lemma_fundamental_div_mod_converse(k, p, q, k - i);
}

/// Raising the bound by one adds exactly the multiples of the old bound.
proof fn lemma_divisor_bound_step(k: int, p: int)
    requires
        p >= 2,
    ensures
        has_divisor_below(k, p + 1) <==> has_divisor_below(k, p) || (p < k && k % p == 0),
{
    if has_divisor_below(k, p + 1) {
        let d = choose|d: int| 2 <= d < p + 1 && d < k && #[trigger] (k % d) == 0;
        if d < p {
            assert(has_divisor_below(k, p));
        }
    }
    if has_divisor_below(k, p) {
        let d = choose|d: int| 2 <= d < p && d < k && #[trigger] (k % d) == 0;
        assert(2 <= d < p + 1 && d < k && k % d == 0);
    }
    if p < k && k % p == 0 {
        assert(2 <= p < p + 1 && p < k && k % p == 0);
    }
}

/// The multiples of a composite bound already have a smaller divisor.
proof fn lemma_composite_bound_adds_nothing(k: int, p: int)
    requires
        p >= 2,
        has_divisor_below(p, p),
    ensures
        has_divisor_below(k, p + 1) <==> has_divisor_below(k, p),
{
    lemma_divisor_bound_step(k, p);
    if p < k && k % p == 0 {
        let d = choose|d: int| 2 <= d < p && d < p && #[trigger] (p % d) == 0;
        lemma_divisor_of_divisor(k, p, d);
        assert(2 <= d < p && d < k && k % d == 0);
    }
}

/// A number with a proper divisor has one below any bound whose square exceeds it.
proof fn lemma_small_divisor(k: int, d: int, p: int)
    requires
        2 <= d < k,
        k % d == 0,
        2 <= p,
        k < p * p,
    ensures
        has_divisor_below(k, p),
{
    lemma_fundamental_div_mod(k, d);
    let e = k / d;
    assert(2 <= e < k) by (nonlinear_arith)
        requires
            k == d * e,
            2 <= d < k,
    ;
    assert(k % e == 0) by {
        lemma_mod_multiples_basic(d, e);
    }
    if d < p {
        assert(2 <= d < p && d < k && k % d == 0);
    } else {
        assert(e < p) by (nonlinear_arith)
            requires
                k == d * e,
                d >= p,
                k < p * p,
                p >= 2,
                e >= 2,
        ;
        assert(2 <= e < p && e < k && k % e == 0);
    }
}

/// Once the square of the bound exceeds `k`, having no divisor below the bound means being prime.
proof fn lemma_sieve_verdict(k: int, p: int)
    requires
        2 <= k < p * p,
        2 <= p,
    ensures
        !has_divisor_below(k, p) <==> is_prime(k),
{
    if !is_prime(k) {
        let d = choose|d: int| 2 <= d < k && #[trigger] (k % d) == 0;
        lemma_small_divisor(k, d, p);
    }
}

/// Counts the primes among `0, 1, ..., n` with the sieve of Eratosthenes.
pub fn primes_count_sieve(n: usize) -> (r: u64)
    requires
        1 <= n < usize::MAX,
    ensures
        r == count_primes(n as int),
{
    let mut sieve: Vec<bool> = Vec::new();
    let mut filled: usize = 0;
    while filled <= n
        invariant
            n < usize::MAX,
            filled <= n + 1,
            sieve.len() == filled,
            forall|k: int| 0 <= k < filled ==> #[trigger] sieve@[k],
        decreases n + 1 - filled,
    {
        sieve.push(true);
        filled += 1;
    }
    let mut p: usize = 2;
    while p <= n / p
        invariant
            1 <= n < usize::MAX,
            2 <= p <= n + 1,
            sieve.len() == n + 1,
            forall|k: int| 0 <= k <= n ==> #[trigger] sieve@[k] == !has_divisor_below(k, p as int),
        decreases n + 1 - p,
    {
        proof {
            lemma_fundamental_div_mod(n as int, p as int);
        }
        assert(p * p <= n && 2 * p <= n) by (nonlinear_arith)
            requires
                2 <= p <= n / p,
                n == p * (n / p) + n % p,
                0 <= n % p,
        ;
        if sieve[p] {
            let mut i: usize = p * 2;
            proof {
                lemma_mod_multiples_basic(2, p as int);
                lemma_mod_multiples_basic(1, p as int);
                assert forall|k: int| p < k < i implies #[trigger] (k % p as int) != 0 by {
                    lemma_no_multiple_between(p as int, p as int, k);
                }
            }
            while i <= n
                invariant_except_break
                    forall|k: int|
                        0 <= k <= n ==> #[trigger] sieve@[k] == !(has_divisor_below(k, p as int)
                            || (p < k < i && k % p as int == 0)),
                invariant
                    n < usize::MAX,
                    2 <= p <= n,
                    sieve.len() == n + 1,
                    2 * p <= i,
                    i as int % p as int == 0,
                ensures
                    forall|k: int|
                        0 <= k <= n ==> #[trigger] sieve@[k] == !has_divisor_below(k, p + 1),
                decreases n + 1 - i,
            {
                sieve[i] = false;
                assert forall|k: int| i < k < i + p implies #[trigger] (k % p as int) != 0 by {
                    lemma_no_multiple_between(i as int, p as int, k);
                }
                if n - i < p {
                    assert forall|k: int| 0 <= k <= n implies #[trigger] sieve@[k]
                        == !has_divisor_below(k, p + 1) by {
                        lemma_divisor_bound_step(k, p as int);
                    }
                    break ;
                }
                proof {
                    lemma_mod_add_multiples_vanish(i as int, p as int);
                }
                i += p;
            }
            proof {
                assert forall|k: int| 0 <= k <= n implies #[trigger] sieve@[k]
                    == !has_divisor_below(k, p + 1) by {
                    lemma_divisor_bound_step(k, p as int);
                }
            }
        } else {
            assert forall|k: int| 0 <= k <= n implies #[trigger] sieve@[k] == !has_divisor_below(
                k,
                p + 1,
            ) by {
                lemma_composite_bound_adds_nothing(k, p as int);
            }
        }
        p += 1;
    }
    proof {
        lemma_fundamental_div_mod(n as int, p as int);
    }
    assert(n < p * p) by (nonlinear_arith)
        requires
            2 <= p,
            n / p < p,
            n == p * (n / p) + n % p,
            n % p < p,
    ;
    sieve[0] = false;
    sieve[1] = false;
    let mut count: u64 = 0;
    let mut idx: usize = 0;
    while idx <= n
        invariant
            1 <= n < usize::MAX,
            2 <= p,
            n < p * p,
            sieve.len() == n + 1,
            idx <= n + 1,
            count <= idx,
            count == count_primes(idx - 1),
            !sieve@[0],
            !sieve@[1],
            forall|k: int| 2 <= k <= n ==> #[trigger] sieve@[k] == !has_divisor_below(k, p as int),
        decreases n + 1 - idx,
    {
        proof {
            if idx >= 2 {
                assert(idx < p * p);
                lemma_sieve_verdict(idx as int, p as int);
            }
        }
        if sieve[idx] {
            count += 1;
        }
        idx += 1;
    }
    count
}

} // verus!
