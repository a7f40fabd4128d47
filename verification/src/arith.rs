use vstd::prelude::*;

verus! {

/// `base` raised to the power `exp`.
pub open spec fn power(base: nat, exp: nat) -> nat
    decreases exp,
{
    if exp == 0 {
        1
    } else {
        base * power(base, (exp - 1) as nat)
    }
}

pub proof fn lemma_power_positive(base: nat, exp: nat)
    requires
        base >= 1,
    ensures
        power(base, exp) >= 1,
    decreases exp,
{
    if exp > 0 {
        lemma_power_positive(base, (exp - 1) as nat);
        assert(base * power(base, (exp - 1) as nat) >= 1) by (nonlinear_arith)
            requires
                base >= 1,
                power(base, (exp - 1) as nat) >= 1,
        ;
    }
}

pub proof fn lemma_power_monotone(base: nat, i: nat, j: nat)
    requires
        base >= 1,
        i <= j,
    ensures
        power(base, i) <= power(base, j),
    decreases j,
{
    if i < j {
        lemma_power_monotone(base, i, (j - 1) as nat);
        lemma_power_positive(base, (j - 1) as nat);
        let p = power(base, (j - 1) as nat);
        assert(p <= base * p) by (nonlinear_arith)
            requires
                base >= 1,
                p >= 1,
        ;
    }
}

/// Two to a power never exceeds three to the same power.
pub proof fn lemma_power_two_le_three(n: nat)
    ensures
        power(2, n) <= power(3, n),
    decreases n,
{
    if n > 0 {
        lemma_power_two_le_three((n - 1) as nat);
        let a = power(2, (n - 1) as nat);
        let b = power(3, (n - 1) as nat);
        assert(2 * a <= 3 * b) by (nonlinear_arith)
            requires
                a <= b,
        ;
    }
}

} // verus!
