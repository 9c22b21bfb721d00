use vstd::prelude::*;

verus! {

/// `d` divides `n`.
pub open spec fn divides(d: int, n: int) -> bool {
    d > 0 && n % d == 0
}

/// `g` is the greatest common divisor of `n` and `m`: a common divisor that
/// every other common divisor is at most.
pub open spec fn is_gcd(g: int, n: int, m: int) -> bool {
    &&& divides(g, n)
    &&& divides(g, m)
    &&& forall|d: int| #[trigger] divides(d, n) && divides(d, m) ==> d <= g
}

proof fn lemma_mod_keeps_divisors(d: int, n: int, m: int)
    requires
        d > 0,
        n > 0,
        m >= 0,
        n % d == 0,
    ensures
        m % d == 0 <==> (m % n) % d == 0,
{
    vstd::arithmetic::div_mod::lemma_fundamental_div_mod(m, n);
    vstd::arithmetic::div_mod::lemma_fundamental_div_mod(n, d);
    let q = m / n;
    let a = n / d;
    assert(m == d * (a * q) + m % n) by (nonlinear_arith)
        requires m == n * q + m % n, n == d * a + 0;
    vstd::arithmetic::div_mod::lemma_mod_multiples_vanish(a * q, m % n, d);
}

/// Greatest common divisor of two positive numbers, by Euclid's algorithm.
pub fn gcd(n: u64, m: u64) -> (r: u64)
    requires
        n != 0,
        m != 0,
    ensures
        is_gcd(r as int, n as int, m as int),
        forall|d: int| #[trigger] divides(d, r as int) <==> divides(d, n as int) && divides(d, m as int),
{
    let mut a = n;
    let mut b = m;
    while b != 0
        invariant
            a > 0,
            forall|d: int|
                d > 0 ==> (#[trigger] divides(d, a as int) && divides(d, b as int) <==> divides(d, n as int)
                    && divides(d, m as int)),
        decreases b,
    {
        let ghost a0 = a as int;
        let ghost b0 = b as int;
        assert(forall|d: int| d > 0 ==> (divides(d, a0) && divides(d, b0) <==> divides(d, n as int) && divides(d, m as int)));
        if b < a {
            let t = a;
            a = b;
            b = t;
        }
        let ghost before = b as int;
        b = b % a;
        assert forall|d: int| d > 0 implies (#[trigger] divides(d, a as int) && divides(d, b as int)
            <==> divides(d, n as int) && divides(d, m as int)) by {
            if divides(d, a as int) {
                lemma_mod_keeps_divisors(d, a as int, before);
            }
            assert(divides(d, a0) && divides(d, b0) <==> divides(d, n as int) && divides(d, m as int));
        }
    }
    assert forall|d: int| #[trigger] divides(d, n as int) && divides(d, m as int) implies d <= a by {
        assert(divides(d, a as int));
        vstd::arithmetic::div_mod::lemma_fundamental_div_mod(a as int, d);
        assert(d <= a) by (nonlinear_arith)
            requires a == d * (a as int / d) + 0, a > 0, d > 0;
    }
    assert(divides(a as int, a as int) && divides(a as int, 0));
    assert forall|d: int| #[trigger] divides(d, a as int) implies divides(d, 0) by {}
    a
}

/// `d` divides every number of `s`.
pub open spec fn divides_all(d: int, s: Seq<u64>) -> bool {
    forall|j: int| 0 <= j < s.len() ==> divides(d, #[trigger] s[j] as int)
}

/// `g` is the greatest common divisor of all of `s`.
pub open spec fn is_gcd_of(g: int, s: Seq<u64>) -> bool {
    &&& divides_all(g, s)
    &&& forall|d: int| #[trigger] divides_all(d, s) ==> d <= g
}

/// Greatest common divisor of a non-empty list of positive numbers.
pub fn gcd_all(numbers: &Vec<u64>) -> (r: u64)
    requires
        numbers@.len() > 0,
        forall|j: int| 0 <= j < numbers@.len() ==> #[trigger] numbers@[j] != 0,
    ensures
        is_gcd_of(r as int, numbers@),
{
    let mut acc = numbers[0];
    let mut i: usize = 1;
    while i < numbers.len()
        invariant
            1 <= i <= numbers@.len(),
            acc > 0,
            forall|j: int| 0 <= j < numbers@.len() ==> #[trigger] numbers@[j] != 0,
            forall|d: int|
                d > 0 ==> (#[trigger] divides(d, acc as int) <==> forall|j: int|
                    0 <= j < i ==> divides(d, #[trigger] numbers@[j] as int)),
        decreases numbers@.len() - i,
    {
        let ghost prev = acc as int;
        acc = gcd(acc, numbers[i]);
        assert forall|d: int| d > 0 implies (#[trigger] divides(d, acc as int) <==> forall|j: int|
            0 <= j < i + 1 ==> divides(d, #[trigger] numbers@[j] as int)) by {
            assert(divides(d, prev) <==> forall|j: int| 0 <= j < i ==> divides(d, #[trigger] numbers@[j] as int));
            if forall|j: int| 0 <= j < i + 1 ==> divides(d, #[trigger] numbers@[j] as int) {
                assert(divides(d, numbers@[i as int] as int));
            }
        }
        i = i + 1;
    }
    assert(acc as int % acc as int == 0);
    assert(divides(acc as int, acc as int));
    assert forall|d: int| #[trigger] divides_all(d, numbers@) implies d <= acc by {
        assert(d > 0) by {
            assert(divides(d, numbers@[0] as int));
        }
        assert(divides(d, acc as int));
        vstd::arithmetic::div_mod::lemma_fundamental_div_mod(acc as int, d);
        assert(d <= acc) by (nonlinear_arith)
            requires acc == d * (acc as int / d) + 0, acc > 0, d > 0;
    }
    acc
}

} // verus!
