use vstd::prelude::*;

verus! {

/// The product of the integers from 1 to `n`; 1 for `n == 0`.
pub open spec fn spec_factorial(n: nat) -> nat
    decreases n,
{
    if n == 0 {
        1
    } else {
        n * spec_factorial((n - 1) as nat)
    }
}

/// The largest argument whose factorial fits in 128 bits.
pub const MAX_FACTORIAL_ARG: u128 = 34;

/// The factorial never shrinks as its argument grows.
pub proof fn lemma_factorial_monotonic(a: nat, b: nat)
    requires
        a <= b,
    ensures
        1 <= spec_factorial(a) <= spec_factorial(b),
    decreases b,
{
    if b > 0 {
        let below = (b - 1) as nat;
        lemma_factorial_monotonic(if a < b { a } else { below }, below);
        let f = spec_factorial(below);
        assert(f <= b * f) by (nonlinear_arith)
            requires
                b >= 1,
                f >= 0,
        ;
    }
}

/// The factorial of 34, the last one below 2^128.
pub proof fn lemma_factorial_34()
    ensures
        spec_factorial(34) == 295232799039604140847618609643520000000,
        spec_factorial(34) <= u128::MAX,
{
    assert(spec_factorial(0) == 1);
    assert(spec_factorial(1) == 1);
    assert(spec_factorial(2) == 2);
    assert(spec_factorial(3) == 6);
    assert(spec_factorial(4) == 24);
    assert(spec_factorial(5) == 120);
    assert(spec_factorial(6) == 720);
    assert(spec_factorial(7) == 5040);
    assert(spec_factorial(8) == 40320);
    assert(spec_factorial(9) == 362880);
    assert(spec_factorial(10) == 3628800);
    assert(spec_factorial(11) == 39916800);
    assert(spec_factorial(12) == 479001600);
    assert(spec_factorial(13) == 6227020800);
    assert(spec_factorial(14) == 87178291200);
    assert(spec_factorial(15) == 1307674368000);
    assert(spec_factorial(16) == 20922789888000);
    assert(spec_factorial(17) == 355687428096000);
    assert(spec_factorial(18) == 6402373705728000);
    assert(spec_factorial(19) == 121645100408832000);
    assert(spec_factorial(20) == 2432902008176640000);
    assert(spec_factorial(21) == 51090942171709440000);
    assert(spec_factorial(22) == 1124000727777607680000);
    assert(spec_factorial(23) == 25852016738884976640000);
    assert(spec_factorial(24) == 620448401733239439360000);
    assert(spec_factorial(25) == 15511210043330985984000000);
    assert(spec_factorial(26) == 403291461126605635584000000);
    assert(spec_factorial(27) == 10888869450418352160768000000);
    assert(spec_factorial(28) == 304888344611713860501504000000);
    assert(spec_factorial(29) == 8841761993739701954543616000000);
    assert(spec_factorial(30) == 265252859812191058636308480000000);
    assert(spec_factorial(31) == 8222838654177922817725562880000000);
    assert(spec_factorial(32) == 263130836933693530167218012160000000);
    assert(spec_factorial(33) == 8683317618811886495518194401280000000);
    assert(spec_factorial(34) == 295232799039604140847618609643520000000);
}

/// Computes `n!`.
pub fn factorial(n: u128) -> (r: u128)
    requires
        n <= MAX_FACTORIAL_ARG,
    ensures
        r == spec_factorial(n as nat),
    decreases n,
{
    match n {
        0 | 1 => {
            assert(spec_factorial(n as nat) == 1) by {
                reveal_with_fuel(spec_factorial, 2);
            }
            1
        },
        _ => {
            let below: u128 = factorial(n - 1);
            assert(below * n == spec_factorial(n as nat)) by (nonlinear_arith)
                requires
                    n >= 1,
                    spec_factorial(n as nat) == n * spec_factorial((n - 1) as nat),
                    below == spec_factorial((n - 1) as nat),
            ;
            proof {
                lemma_factorial_34();
                lemma_factorial_monotonic(n as nat, 34);
            }
            below * n
        },
    }
}

/// The constant from which the first guess at an inverse square root is taken.
pub const RSQRT_MAGIC: u32 = 0x5f37_59df;

/// The bits of the first guess at `1 / sqrt(x)`, from the bits of `x`: the constant less half
/// of the bits, going round the ends of the 32-bit range.
pub open spec fn rsqrt_seed_spec(bits: u32) -> int {
    (RSQRT_MAGIC - bits / 2) % 0x1_0000_0000
}

/// Computes the bits of the first guess at the inverse square root of the number whose bits
/// are `bits`.
pub fn rsqrt_seed(bits: u32) -> (r: u32)
    ensures
        r == rsqrt_seed_spec(bits),
{
    let half: u32 = bits / 2;
    if half <= RSQRT_MAGIC {
        RSQRT_MAGIC - half
    } else {
        u32::MAX - (half - RSQRT_MAGIC) + 1
    }
}

} // verus!
