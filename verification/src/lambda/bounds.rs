//! Fuel that is known to be enough: for numerals built with `Inc`, `Add`,
//! `Mul`, `Dec` and `Sub`, explicit bounds above which `Count`, `Sub`,
//! `IsZero` and `IsEq` give their results.

use vstd::prelude::*;
use crate::lambda::{
    church, church_bool, count_at, counter_start, counter_term, dec_pow, eval, is_eq_at, is_zero_at,
    minus_at, term_size, Term, Z,
};
use crate::lambda::{CalcCount, CountZero, IZ, TIsZero, TPreDec, TSub, True};
use crate::lambda::sub_private;
use crate::lambda::{AA, AAA, Cap0, Id, PD0, PD1, PD2, PD3, XX};
use crate::lambda::inc_private::{I, II};
use crate::lambda::bool_private;
use crate::lambda::laws::{dec_chain, law_and, law_counter_value, law_eval_monotone};

verus! {

/// `f` applied `n` times to `x`, each application with fuel `k`.
pub open spec fn power_within(f: Term, n: nat, x: Term, k: nat) -> Option<Term>
    decreases n,
{
    if n == 0 {
        Some(x)
    } else {
        match power_within(f, (n - 1) as nat, x, k) {
            Some(y) => eval(f, y, k),
            None => None,
        }
    }
}

/// `g` acts as the `n`-th power of `f` with `c` more fuel than each
/// application of `f` takes: wherever `f` applied `n` times to `x`, each
/// time with fuel `k`, gives `v`, `g` applied to `x` with fuel `k + c` gives
/// `v`.
pub open spec fn acts_within(g: Term, f: Term, n: nat, k: nat, c: nat) -> bool {
    forall|x: Term| #[trigger] power_within(f, n, x, k) is Some ==> eval(g, x, k + c) == power_within(f, n, x, k)
}

/// With fuel `k + c`, `t` applied to `f` gives a term that acts as the
/// `n`-th power of `f` with `c` more fuel.
pub open spec fn gives_power_within(t: Term, f: Term, n: nat, k: nat, c: nat) -> bool {
    exists|g: Term| eval(t, f, k + c) == Some(g) && acts_within(g, f, n, k, c)
}

/// `t` is the Church numeral `n`, with an overhead of at most `c` fuel over
/// the fuel that the function it iterates takes.
pub open spec fn represents_within(t: Term, n: nat, c: nat) -> bool {
    forall|f: Term, k: nat| #[trigger] gives_power_within(t, f, n, k, c)
}

/// More fuel keeps an evaluation's result.
proof fn lemma_more_fuel(f: Term, x: Term, k1: nat, k2: nat)
    requires
        eval(f, x, k1) is Some,
        k1 <= k2,
    ensures
        eval(f, x, k2) == eval(f, x, k1),
{
    law_eval_monotone(k1, k2);
}

/// The term that `t` turns `f` into, with the fuel stated.
proof fn lemma_within_apply(t: Term, n: nat, c: nat, f: Term, k: nat) -> (g: Term)
    requires
        represents_within(t, n, c),
    ensures
        eval(t, f, k + c) == Some(g),
        acts_within(g, f, n, k, c),
{
    assert(gives_power_within(t, f, n, k, c));
    choose|g: Term| eval(t, f, k + c) == Some(g) && acts_within(g, f, n, k, c)
}

/// An overhead that is enough stays enough when it grows.
pub proof fn law_within_weaken(t: Term, n: nat, c: nat, c2: nat)
    requires
        represents_within(t, n, c),
        c <= c2,
    ensures
        represents_within(t, n, c2),
{
    assert forall|f: Term, k: nat| #[trigger] gives_power_within(t, f, n, k, c2) by {
        let g = lemma_within_apply(t, n, c, f, k);
        lemma_more_fuel(t, f, k + c, k + c2);
        assert forall|x: Term| #[trigger] power_within(f, n, x, k) is Some implies eval(g, x, k + c2)
            == power_within(f, n, x, k) by {
            lemma_more_fuel(g, x, k + c, k + c2);
        }
        assert(eval(t, f, k + c2) == Some(g) && acts_within(g, f, n, k, c2));
    }
}

/// `Zero` is the numeral 0, with overhead 1.
pub proof fn law_zero_within()
    ensures
        represents_within(Term::Z(Z), 0, 1),
{
    assert forall|f: Term, k: nat| #[trigger] gives_power_within(Term::Z(Z), f, 0, k, 1) by {
        let g = Term::BoolFalse(bool_private::False);
        assert(eval(Term::Z(Z), f, k + 1) == Some(g));
        assert forall|x: Term| #[trigger] power_within(f, 0, x, k) is Some implies eval(g, x, k + 1)
            == power_within(f, 0, x, k) by {}
        assert(eval(Term::Z(Z), f, k + 1) == Some(g) && acts_within(g, f, 0, k, 1));
    }
}

/// `Inc` adds one to the numeral and one to the overhead.
pub proof fn law_inc_within(t: Term, n: nat, c: nat)
    requires
        represents_within(t, n, c),
    ensures
        represents_within(Term::Inc(I(Box::new(t))), n + 1, c + 1),
{
    let it = Term::Inc(I(Box::new(t)));
    assert forall|f: Term, k: nat| #[trigger] gives_power_within(it, f, n + 1, k, c + 1) by {
        let g = Term::IncF(II(Box::new(t), Box::new(f)));
        assert(eval(it, f, k + c + 1) == Some(g));
        let gt = lemma_within_apply(t, n, c, f, k);
        assert forall|x: Term| #[trigger] power_within(f, n + 1, x, k) is Some implies eval(g, x, k + (c + 1))
            == power_within(f, n + 1, x, k) by {
            let y = power_within(f, n, x, k)->0;
            assert(eval(gt, x, k + c) == Some(y));
            lemma_more_fuel(f, y, k, k + c);
        }
        assert(eval(it, f, k + (c + 1)) == Some(g) && acts_within(g, f, n + 1, k, c + 1));
    }
}

/// The Church numeral `n` represents `n` with overhead `n + 1`.
pub proof fn law_church_within(n: nat)
    ensures
        represents_within(church(n), n, n + 1),
    decreases n,
{
    if n == 0 {
        law_zero_within();
    } else {
        law_church_within((n - 1) as nat);
        law_inc_within(church((n - 1) as nat), (n - 1) as nat, n);
    }
}

/// `f` applied `m + n` times is `f` applied `n` times, then `m` times.
proof fn lemma_power_within_split(f: Term, m: nat, n: nat, x: Term, k: nat)
    ensures
        power_within(f, m + n, x, k) == (match power_within(f, n, x, k) {
            Some(w) => power_within(f, m, w, k),
            None => None,
        }),
    decreases m,
{
    if m > 0 {
        lemma_power_within_split(f, (m - 1) as nat, n, x, k);
        assert((m - 1) as nat + n == (m + n - 1) as nat);
    }
}

/// `Add` adds the numerals; the overheads add up, plus one.
pub proof fn law_add_within(a: Term, b: Term, m: nat, n: nat, ca: nat, cb: nat)
    requires
        represents_within(a, m, ca),
        represents_within(b, n, cb),
    ensures
        represents_within(Term::AA(AA(Box::new(a), Box::new(b))), m + n, ca + cb + 1),
{
    let s = Term::AA(AA(Box::new(a), Box::new(b)));
    let c = ca + cb + 1;
    assert forall|f: Term, k: nat| #[trigger] gives_power_within(s, f, m + n, k, c) by {
        let g = Term::AAA(AAA(Box::new(a), Box::new(b), Box::new(f)));
        assert(eval(s, f, k + c) == Some(g));
        let ga = lemma_within_apply(a, m, ca, f, k);
        let gb = lemma_within_apply(b, n, cb, f, k);
        assert forall|x: Term| #[trigger] power_within(f, m + n, x, k) is Some implies eval(g, x, k + c)
            == power_within(f, m + n, x, k) by {
            lemma_power_within_split(f, m, n, x, k);
            let w = power_within(f, n, x, k)->0;
            assert(power_within(f, m, w, k) is Some);
            lemma_more_fuel(a, f, k + ca, k + ca + cb);
            lemma_more_fuel(b, f, k + cb, k + ca + cb);
            lemma_more_fuel(gb, x, k + cb, k + ca + cb);
            lemma_more_fuel(ga, w, k + ca, k + ca + cb);
        }
        assert(eval(s, f, k + c) == Some(g) && acts_within(g, f, m + n, k, c));
    }
}

/// A power of a power, with the fuel stated.
proof fn lemma_power_within_of_power(g: Term, f: Term, n: nat, k: nat, c: nat, j: nat, x: Term)
    requires
        acts_within(g, f, n, k, c),
        power_within(f, j * n, x, k) is Some,
    ensures
        power_within(g, j, x, k + c) == power_within(f, j * n, x, k),
    decreases j,
{
    if j > 0 {
        let jm = (j - 1) as nat;
        assert(j * n == n + jm * n) by (nonlinear_arith)
            requires
                jm == j - 1,
        ;
        lemma_power_within_split(f, n, jm * n, x, k);
        assert(power_within(f, j * n, x, k) == power_within(f, n + jm * n, x, k));
        assert(power_within(f, jm * n, x, k) is Some);
        let w = power_within(f, jm * n, x, k)->0;
        lemma_power_within_of_power(g, f, n, k, c, jm, x);
        assert(power_within(f, n, w, k) is Some);
        assert(eval(g, w, k + c) == power_within(f, n, w, k));
    } else {
        assert(j * n == 0) by (nonlinear_arith)
            requires
                j == 0,
        ;
    }
}

/// `Mul` multiplies the numerals; the overheads add up, plus one.
pub proof fn law_mul_within(a: Term, b: Term, m: nat, n: nat, ca: nat, cb: nat)
    requires
        represents_within(a, m, ca),
        represents_within(b, n, cb),
    ensures
        represents_within(Term::XX(XX(Box::new(a), Box::new(b))), m * n, ca + cb + 1),
{
    let p = Term::XX(XX(Box::new(a), Box::new(b)));
    let c = ca + cb + 1;
    assert forall|f: Term, k: nat| #[trigger] gives_power_within(p, f, m * n, k, c) by {
        let gb = lemma_within_apply(b, n, cb, f, k);
        let ga = lemma_within_apply(a, m, ca, gb, k + cb);
        lemma_more_fuel(b, f, k + cb, k + cb + ca);
        assert(eval(p, f, k + c) == Some(ga));
        assert forall|x: Term| #[trigger] power_within(f, m * n, x, k) is Some implies eval(ga, x, k + c)
            == power_within(f, m * n, x, k) by {
            lemma_power_within_of_power(gb, f, n, k, cb, m, x);
            assert(power_within(gb, m, x, k + cb) is Some);
            assert(eval(ga, x, k + cb + ca) == power_within(gb, m, x, k + cb));
            lemma_more_fuel(ga, x, k + cb + ca, k + c);
        }
        assert(eval(p, f, k + c) == Some(ga) && acts_within(ga, f, m * n, k, c));
    }
}

proof fn lemma_dec_chain_power_within(f: Term, n: nat, x: Term)
    ensures
        power_within(Term::PD2(PD2(Box::new(f))), n, Term::Cap0(Cap0(Box::new(x))), 1) == Some(dec_chain(f, n, x)),
    decreases n,
{
    if n > 0 {
        lemma_dec_chain_power_within(f, (n - 1) as nat, x);
    }
}

proof fn lemma_dec_chain_apply_within(f: Term, m: nat, x: Term, k: nat)
    requires
        power_within(f, m, x, k) is Some,
    ensures
        eval(dec_chain(f, m, x), f, k + m + 1) == power_within(f, m, x, k),
    decreases m,
{
    if m > 0 {
        let c = dec_chain(f, (m - 1) as nat, x);
        lemma_dec_chain_apply_within(f, (m - 1) as nat, x, k);
        let y = power_within(f, (m - 1) as nat, x, k)->0;
        assert(eval(c, f, k + m) == Some(y));
        lemma_more_fuel(f, y, k, k + m);
    }
}

/// `Dec` subtracts one from the numeral, stopping at zero; the overhead
/// grows by the numeral plus two.
pub proof fn law_dec_within(t: Term, n: nat, c: nat)
    requires
        represents_within(t, n, c),
    ensures
        represents_within(Term::PD0(PD0(Box::new(t))), if n == 0 { 0 } else { (n - 1) as nat }, c + n + 2),
{
    let d = Term::PD0(PD0(Box::new(t)));
    let nd: nat = if n == 0 { 0 } else { (n - 1) as nat };
    let cd = c + n + 2;
    assert forall|f: Term, k: nat| #[trigger] gives_power_within(d, f, nd, k, cd) by {
        let g = Term::PD1(PD1(Box::new(t), Box::new(f)));
        assert(eval(d, f, k + cd) == Some(g));
        let f2 = Term::PD2(PD2(Box::new(f)));
        let gt = lemma_within_apply(t, n, c, f2, 1);
        assert forall|x: Term| #[trigger] power_within(f, nd, x, k) is Some implies eval(g, x, k + cd)
            == power_within(f, nd, x, k) by {
            let v = power_within(f, nd, x, k)->0;
            let cx = Term::Cap0(Cap0(Box::new(x)));
            lemma_dec_chain_power_within(f, n, x);
            let ch = dec_chain(f, n, x);
            assert(eval(gt, cx, 1 + c) == Some(ch));
            lemma_more_fuel(t, f2, 1 + c, k + c + n + 1);
            lemma_more_fuel(gt, cx, 1 + c, k + c + n + 1);
            let idt = Term::Id(Id);
            if n == 0 {
                assert(eval(ch, idt, k + c + n + 1) == Some(v));
            } else {
                lemma_dec_chain_apply_within(f, nd, x, k);
                let c1 = dec_chain(f, nd, x);
                lemma_more_fuel(c1, f, k + nd + 1, k + c + n);
                assert(eval(idt, v, k + c + n) == Some(v));
                assert(eval(ch, idt, k + c + n + 1) == Some(v));
            }
        }
        assert(eval(d, f, k + cd) == Some(g) && acts_within(g, f, nd, k, cd));
    }
}

/// `Dec` applied `j` times to the numeral `m` is the numeral `m - j`, or 0
/// where `j` exceeds `m`, with overhead at most `j * (m + 2)` more.
pub proof fn law_dec_pow_within(a: Term, m: nat, ca: nat, j: nat)
    requires
        represents_within(a, m, ca),
    ensures
        represents_within(dec_pow(j, a), if m >= j { (m - j) as nat } else { 0 }, ca + j * (m + 2)),
    decreases j,
{
    if j == 0 {
        assert(j * (m + 2) == 0) by (nonlinear_arith)
            requires
                j == 0,
        ;
    } else {
        let jm = (j - 1) as nat;
        law_dec_pow_within(a, m, ca, jm);
        let p: nat = if m >= jm { (m - jm) as nat } else { 0 };
        let cp = ca + jm * (m + 2);
        law_dec_within(dec_pow(jm, a), p, cp);
        assert(j * (m + 2) == jm * (m + 2) + m + 2) by (nonlinear_arith)
            requires
                jm == j - 1,
        ;
        law_within_weaken(dec_pow(j, a), if m >= j { (m - j) as nat } else { 0 }, cp + p + 2, ca + j * (m + 2));
    }
}

proof fn lemma_power_within_counter(n: nat)
    ensures
        power_within(counter_start(), n, Term::CountZero(CountZero), 1) == Some(counter_term(n)),
    decreases n,
{
    if n > 0 {
        lemma_power_within_counter((n - 1) as nat);
    }
}

proof fn lemma_power_within_is_zero(n: nat)
    ensures
        power_within(Term::IZ(IZ), n, Term::True(True), 1) == Some(church_bool(n == 0)),
    decreases n,
{
    if n > 0 {
        lemma_power_within_is_zero((n - 1) as nat);
    }
}

proof fn lemma_power_within_dec(n: nat, a: Term)
    ensures
        power_within(Term::TPreDec(TPreDec), n, a, 1) == Some(dec_pow(n, a)),
    decreases n,
{
    if n > 0 {
        lemma_power_within_dec((n - 1) as nat, a);
    }
}

/// `Count` of a numeral with overhead `c` gives its counter with any fuel
/// from `c + 2` on.
pub proof fn law_count_within(t: Term, n: nat, c: nat, fuel: nat)
    requires
        represents_within(t, n, c),
        fuel >= c + 2,
    ensures
        count_at(t, fuel) == Some(counter_term(n)),
        term_size(counter_term(n)) == n,
{
    law_counter_value(n);
    lemma_power_within_counter(n);
    let cs = counter_start();
    let g = lemma_within_apply(t, n, c, cs, 1);
    lemma_more_fuel(t, cs, 1 + c, (fuel - 1) as nat);
    lemma_more_fuel(g, Term::CountZero(CountZero), 1 + c, (fuel - 1) as nat);
    assert(eval(Term::CalcCount(CalcCount), t, fuel) == Some(counter_term(n)));
}

/// `IsZero` of a numeral with overhead `c` gives its answer with any fuel
/// from `c + 2` on.
pub proof fn law_is_zero_within(t: Term, n: nat, c: nat, fuel: nat)
    requires
        represents_within(t, n, c),
        fuel >= c + 2,
    ensures
        is_zero_at(t, fuel) == Some(church_bool(n == 0)),
{
    lemma_power_within_is_zero(n);
    let iz = Term::IZ(IZ);
    let g = lemma_within_apply(t, n, c, iz, 1);
    lemma_more_fuel(t, iz, 1 + c, (fuel - 1) as nat);
    lemma_more_fuel(g, Term::True(True), 1 + c, (fuel - 1) as nat);
    assert(eval(Term::TIsZero(TIsZero), t, fuel) == Some(church_bool(n == 0)));
}

/// `Sub<a, b>` of numerals gives `a` with `Dec` applied `n` times with any
/// fuel from `cb + 2` on; that is the numeral `m - n` (or 0), with overhead
/// `ca + n * (m + 2)`.
pub proof fn law_minus_within(a: Term, b: Term, m: nat, n: nat, ca: nat, cb: nat, fuel: nat)
    requires
        represents_within(a, m, ca),
        represents_within(b, n, cb),
        fuel >= cb + 2,
    ensures
        minus_at(a, b, fuel) == Some(dec_pow(n, a)),
        represents_within(dec_pow(n, a), if m >= n { (m - n) as nat } else { 0 }, ca + n * (m + 2)),
{
    law_dec_pow_within(a, m, ca, n);
    lemma_power_within_dec(n, a);
    let pd = Term::TPreDec(TPreDec);
    let g = lemma_within_apply(b, n, cb, pd, 1);
    lemma_more_fuel(b, pd, 1 + cb, (fuel - 1) as nat);
    lemma_more_fuel(g, a, 1 + cb, (fuel - 1) as nat);
    let sa = Term::SubS(sub_private::S(Box::new(a)));
    assert(eval(Term::TSub(TSub), a, fuel) == Some(sa));
    assert(eval(sa, b, fuel) == Some(dec_pow(n, a)));
}

/// `IsEq` of numerals gives its answer with any fuel from
/// `ca + cb + n * (m + 2) + m * (n + 2) + 2` on.
pub proof fn law_is_eq_within(a: Term, b: Term, m: nat, n: nat, ca: nat, cb: nat, fuel: nat)
    requires
        represents_within(a, m, ca),
        represents_within(b, n, cb),
        fuel >= ca + cb + n * (m + 2) + m * (n + 2) + 2,
    ensures
        is_eq_at(a, b, fuel) == Some(church_bool(m == n)),
{
    let p: nat = if m >= n { (m - n) as nat } else { 0 };
    let q: nat = if n >= m { (n - m) as nat } else { 0 };
    law_minus_within(a, b, m, n, ca, cb, fuel);
    law_minus_within(b, a, n, m, cb, ca, fuel);
    law_is_zero_within(dec_pow(n, a), p, ca + n * (m + 2), fuel);
    law_is_zero_within(dec_pow(m, b), q, cb + m * (n + 2), fuel);
    law_and(p == 0, q == 0, fuel);
    assert((p == 0 && q == 0) == (m == n));
}

/// `Count<n>` is the counter of value `n`, with any fuel from `n + 3` on.
pub proof fn law_count_numeral(n: nat, fuel: nat)
    requires
        fuel >= n + 3,
    ensures
        count_at(church(n), fuel) == Some(counter_term(n)),
        term_size(counter_term(n)) == n,
{
    law_church_within(n);
    law_count_within(church(n), n, n + 1, fuel);
}

/// `Count<Inc<n>>` is the counter of value `n + 1`, with any fuel from
/// `n + 4` on.
pub proof fn law_count_inc(n: nat, fuel: nat)
    requires
        fuel >= n + 4,
    ensures
        count_at(Term::Inc(I(Box::new(church(n)))), fuel) == Some(counter_term(n + 1)),
        term_size(counter_term(n + 1)) == n + 1,
{
    law_church_within(n);
    law_inc_within(church(n), n, n + 1);
    law_count_within(Term::Inc(I(Box::new(church(n)))), n + 1, n + 2, fuel);
}

/// `Count<Add<m, n>>` is the counter of value `m + n`, with any fuel from
/// `m + n + 5` on.
pub proof fn law_count_add(m: nat, n: nat, fuel: nat)
    requires
        fuel >= m + n + 5,
    ensures
        count_at(Term::AA(AA(Box::new(church(m)), Box::new(church(n)))), fuel) == Some(counter_term(m + n)),
        term_size(counter_term(m + n)) == m + n,
{
    law_church_within(m);
    law_church_within(n);
    law_add_within(church(m), church(n), m, n, m + 1, n + 1);
    law_count_within(Term::AA(AA(Box::new(church(m)), Box::new(church(n)))), m + n, m + n + 3, fuel);
}

/// `Count<Mul<m, n>>` is the counter of value `m * n`, with any fuel from
/// `m + n + 5` on.
pub proof fn law_count_mul(m: nat, n: nat, fuel: nat)
    requires
        fuel >= m + n + 5,
    ensures
        count_at(Term::XX(XX(Box::new(church(m)), Box::new(church(n)))), fuel) == Some(counter_term(m * n)),
        term_size(counter_term(m * n)) == m * n,
{
    law_church_within(m);
    law_church_within(n);
    law_mul_within(church(m), church(n), m, n, m + 1, n + 1);
    law_count_within(Term::XX(XX(Box::new(church(m)), Box::new(church(n)))), m * n, m + n + 3, fuel);
}

/// `Count<Dec<n>>` is the counter of value `n - 1` (0 where `n` is 0), with
/// any fuel from `2 * n + 5` on.
pub proof fn law_count_dec(n: nat, fuel: nat)
    requires
        fuel >= 2 * n + 5,
    ensures
        count_at(Term::PD0(PD0(Box::new(church(n)))), fuel) == Some(
            counter_term(if n == 0 { 0 } else { (n - 1) as nat }),
        ),
        term_size(counter_term(if n == 0 { 0 } else { (n - 1) as nat })) == if n == 0 { 0 } else { (n - 1) as nat },
{
    law_church_within(n);
    law_dec_within(church(n), n, n + 1);
    law_count_within(Term::PD0(PD0(Box::new(church(n)))), if n == 0 { 0 } else { (n - 1) as nat }, 2 * n + 3, fuel);
}

/// `Sub<m, n>` is `m` with `Dec` applied `n` times, and its `Count` is the
/// counter of value `m - n` (0 where `n` exceeds `m`), with any fuel from
/// `m + 3 + n * (m + 2)` on.
pub proof fn law_count_minus(m: nat, n: nat, fuel: nat)
    requires
        fuel >= m + 3 + n * (m + 2),
    ensures
        minus_at(church(m), church(n), fuel) == Some(dec_pow(n, church(m))),
        count_at(dec_pow(n, church(m)), fuel) == Some(counter_term(if m >= n { (m - n) as nat } else { 0 })),
        term_size(counter_term(if m >= n { (m - n) as nat } else { 0 })) == if m >= n { (m - n) as nat } else { 0 },
{
    law_church_within(m);
    law_church_within(n);
    assert(n * (m + 2) >= n) by (nonlinear_arith);
    law_minus_within(church(m), church(n), m, n, m + 1, n + 1, fuel);
    law_count_within(dec_pow(n, church(m)), if m >= n { (m - n) as nat } else { 0 }, m + 1 + n * (m + 2), fuel);
}

/// `IsEq<m, n>` is `True` where `m == n` and `False` otherwise, with any
/// fuel from `m + n + 4 + n * (m + 2) + m * (n + 2)` on.
pub proof fn law_is_eq_numerals(m: nat, n: nat, fuel: nat)
    requires
        fuel >= m + n + 4 + n * (m + 2) + m * (n + 2),
    ensures
        is_eq_at(church(m), church(n), fuel) == Some(church_bool(m == n)),
{
    law_church_within(m);
    law_church_within(n);
    law_is_eq_within(church(m), church(n), m, n, m + 1, n + 1, fuel);
}

} // verus!
