//! What the calculus guarantees: evaluation is deterministic and more fuel
//! never changes a result; Church numerals, their arithmetic and the Church
//! booleans compute what they denote.

use vstd::prelude::*;
use crate::lambda::{
    and_at, church, church_bool, count_at, counter_start, counter_term, dec_pow, eval, eval2,
    if_at, is_eq_at, is_zero_at, minus_at, not_at, or_at, ss_at, tally_size, term_size, then_eval,
};
use crate::lambda::{
    AA, AAA, CalcCount, Cap0, CountZero, Fix, Id, IZ, PD0, PD1, PD2, PD3, SSS, TIsZero, TPreDec,
    TSub, Term, True, Type, XX, Z, ZF, ZX,
};
use crate::lambda::sub_private;
use crate::lambda::{Tally, Tick, Counter};
use crate::lambda::bool_private;
use crate::lambda::inc_private::{I, II};

verus! {

/// More fuel never changes a result that less fuel already reached.
pub proof fn law_eval_monotone(k1: nat, k2: nat)
    requires
        k1 <= k2,
    ensures
        forall|f: Term, x: Term| #[trigger] eval(f, x, k1) is Some ==> eval(f, x, k2) == eval(f, x, k1),
    decreases k1,
{
    if k1 > 0 {
        law_eval_monotone((k1 - 1) as nat, (k2 - 1) as nat);
        assert forall|f: Term, x: Term| #[trigger] eval(f, x, k1) is Some implies eval(f, x, k2)
            == eval(f, x, k1) by {
            match f {
                Term::CalcCount(_) => {
                    let k = (k1 - 1) as nat;
                    let j = (k2 - 1) as nat;
                    let g = eval(x, counter_start(), k)->0;
                    assert(eval(x, counter_start(), j) == eval(x, counter_start(), k));
                    assert(eval(g, Term::CountZero(CountZero), j) == eval(g, Term::CountZero(CountZero), k));
                },
                Term::TIsZero(_) => {
                    let k = (k1 - 1) as nat;
                    let j = (k2 - 1) as nat;
                    let g = eval(x, Term::IZ(IZ), k)->0;
                    assert(eval(x, Term::IZ(IZ), j) == eval(x, Term::IZ(IZ), k));
                    assert(eval(g, Term::True(True), j) == eval(g, Term::True(True), k));
                },
                Term::IncF(n) => {
                    let k = (k1 - 1) as nat;
                    let j = (k2 - 1) as nat;
                    assert(eval(*n.0, *n.1, j) == eval(*n.0, *n.1, k));
                    let g = eval(*n.0, *n.1, k)->0;
                    assert(eval(g, x, j) == eval(g, x, k));
                    let y = eval(g, x, k)->0;
                    assert(eval(*n.1, y, j) == eval(*n.1, y, k));
                },
                Term::AAA(m) => {
                    let k = (k1 - 1) as nat;
                    let j = (k2 - 1) as nat;
                    assert(eval(*m.0, *m.2, j) == eval(*m.0, *m.2, k));
                    let p = eval(*m.0, *m.2, k)->0;
                    assert(eval(*m.1, *m.2, j) == eval(*m.1, *m.2, k));
                    let q = eval(*m.1, *m.2, k)->0;
                    assert(eval(q, x, j) == eval(q, x, k));
                    let w = eval(q, x, k)->0;
                    assert(eval(p, w, j) == eval(p, w, k));
                },
                Term::PD1(n) => {
                    let k = (k1 - 1) as nat;
                    let j = (k2 - 1) as nat;
                    assert(eval(*n.0, Term::PD2(PD2(n.1)), j) == eval(*n.0, Term::PD2(PD2(n.1)), k));
                    let a = eval(*n.0, Term::PD2(PD2(n.1)), k)->0;
                    assert(eval(a, Term::Cap0(Cap0(Box::new(x))), j) == eval(a, Term::Cap0(Cap0(Box::new(x))), k));
                    let b = eval(a, Term::Cap0(Cap0(Box::new(x))), k)->0;
                    assert(eval(b, Term::Id(Id), j) == eval(b, Term::Id(Id), k));
                },
                Term::PD3(n) => {
                    let k = (k1 - 1) as nat;
                    let j = (k2 - 1) as nat;
                    assert(eval(*n.1, *n.0, j) == eval(*n.1, *n.0, k));
                    let a = eval(*n.1, *n.0, k)->0;
                    assert(eval(x, a, j) == eval(x, a, k));
                },
                Term::SubS(m) => {
                    let k = (k1 - 1) as nat;
                    let j = (k2 - 1) as nat;
                    assert(eval(x, Term::TPreDec(TPreDec), j) == eval(x, Term::TPreDec(TPreDec), k));
                    let a = eval(x, Term::TPreDec(TPreDec), k)->0;
                    assert(eval(a, *m.0, j) == eval(a, *m.0, k));
                },
                Term::XX(m) => {
                    let k = (k1 - 1) as nat;
                    let j = (k2 - 1) as nat;
                    assert(eval(*m.1, x, j) == eval(*m.1, x, k));
                    let a = eval(*m.1, x, k)->0;
                    assert(eval(*m.0, a, j) == eval(*m.0, a, k));
                },
                Term::SSS(n) => {
                    let k = (k1 - 1) as nat;
                    let j = (k2 - 1) as nat;
                    assert(eval(*n.0, x, j) == eval(*n.0, x, k));
                    let p = eval(*n.0, x, k)->0;
                    assert(eval(*n.1, x, j) == eval(*n.1, x, k));
                    let q = eval(*n.1, x, k)->0;
                    assert(eval(p, q, j) == eval(p, q, k));
                },
                Term::Fix(_) => {
                    let k = (k1 - 1) as nat;
                    let j = (k2 - 1) as nat;
                    let zf = Term::ZF(ZF(Box::new(x)));
                    assert(eval(zf, zf, j) == eval(zf, zf, k));
                },
                Term::ZF(n) => {
                    let k = (k1 - 1) as nat;
                    let j = (k2 - 1) as nat;
                    assert(eval(*n.0, Term::ZX(ZX(Box::new(x))), j) == eval(*n.0, Term::ZX(ZX(Box::new(x))), k));
                },
                Term::ZX(n) => {
                    let k = (k1 - 1) as nat;
                    let j = (k2 - 1) as nat;
                    assert(eval(*n.0, *n.0, j) == eval(*n.0, *n.0, k));
                    let a = eval(*n.0, *n.0, k)->0;
                    assert(eval(a, x, j) == eval(a, x, k));
                },
                _ => {},
            }
        }
    }
}

/// `f` applied to `x` evaluates to `v` with enough fuel.
pub open spec fn reaches(f: Term, x: Term, v: Term) -> bool {
    exists|k: nat| eval(f, x, k) == Some(v)
}

/// Fuel from which on `f` applied to `x` gives `v`.
pub proof fn fuel_of(f: Term, x: Term, v: Term) -> (k: nat)
    requires
        reaches(f, x, v),
    ensures
        forall|j: nat| j >= k ==> #[trigger] eval(f, x, j) == Some(v),
{
    let k = choose|k: nat| eval(f, x, k) == Some(v);
    assert forall|j: nat| j >= k implies #[trigger] eval(f, x, j) == Some(v) by {
        law_eval_monotone(k, j);
    }
    k
}

/// An evaluation gives at most one result, whatever the fuel.
pub proof fn law_eval_deterministic(f: Term, x: Term, v: Term, k: nat)
    requires
        reaches(f, x, v),
        eval(f, x, k) is Some,
    ensures
        eval(f, x, k) == Some(v),
{
    let j = fuel_of(f, x, v);
    if k <= j {
        law_eval_monotone(k, j);
    } else {
        assert(eval(f, x, k) == Some(v));
    }
}

/// What `f` applied to `x` eventually evaluates to, if anything.
pub open spec fn result_of(f: Term, x: Term) -> Option<Term> {
    if exists|v: Term| reaches(f, x, v) {
        Some(choose|v: Term| reaches(f, x, v))
    } else {
        None
    }
}

/// `f` applied `n` times to `x`, if every application evaluates.
pub open spec fn power(f: Term, n: nat, x: Term) -> Option<Term>
    decreases n,
{
    if n == 0 {
        Some(x)
    } else {
        match power(f, (n - 1) as nat, x) {
            Some(y) => result_of(f, y),
            None => None,
        }
    }
}

/// An application that evaluates has that value as its result.
pub proof fn law_result_of(f: Term, x: Term, v: Term)
    requires
        reaches(f, x, v),
    ensures
        result_of(f, x) == Some(v),
{
    let w = choose|w: Term| reaches(f, x, w);
    let kw = choose|k: nat| eval(f, x, k) == Some(w);
    law_eval_deterministic(f, x, v, kw);
}

/// `g` acts as the `n`-th power of `f`: wherever `f` applied `n` times to
/// `x` evaluates, `g` applied to `x` evaluates to the same.
pub open spec fn acts_as_power(g: Term, f: Term, n: nat) -> bool {
    forall|x: Term| #[trigger] power(f, n, x) is Some ==> reaches(g, x, power(f, n, x)->0)
}

/// `t` applied to `f` gives the `n`-th power of `f`.
pub open spec fn gives_power(t: Term, f: Term, n: nat) -> bool {
    exists|g: Term| reaches(t, f, g) && acts_as_power(g, f, n)
}

/// `t` behaves as the Church numeral `n`: applied to any `f`, it gives a
/// term that applies `f` `n` times.
pub open spec fn represents(t: Term, n: nat) -> bool {
    forall|f: Term| #[trigger] gives_power(t, f, n)
}

/// `f` applied `m + n` times is `f` applied `n` times, then `m` times.
proof fn lemma_power_split(f: Term, m: nat, n: nat, x: Term)
    ensures
        power(f, m + n, x) == (match power(f, n, x) {
            Some(w) => power(f, m, w),
            None => None,
        }),
    decreases m,
{
    if m > 0 {
        lemma_power_split(f, (m - 1) as nat, n, x);
        assert((m - 1) as nat + n == (m + n - 1) as nat);
    }
}

/// `Zero` is the numeral 0.
pub proof fn law_zero_represents()
    ensures
        represents(Term::Z(Z), 0),
{
    assert forall|f: Term| #[trigger] gives_power(Term::Z(Z), f, 0) by {
        let g = Term::BoolFalse(bool_private::False);
        assert(eval(Term::Z(Z), f, 1) == Some(g));
        assert forall|x: Term| #[trigger] power(f, 0, x) is Some implies reaches(g, x, power(f, 0, x)->0) by {
            assert(eval(g, x, 1) == Some(x));
        }
        assert(reaches(Term::Z(Z), f, g) && acts_as_power(g, f, 0));
    }
}

/// `Inc` adds one: if `t` is the numeral `n`, `Inc<t>` is `n + 1`.
pub proof fn law_inc_represents(t: Term, n: nat)
    requires
        represents(t, n),
    ensures
        represents(Term::Inc(I(Box::new(t))), n + 1),
{
    let it = Term::Inc(I(Box::new(t)));
    assert forall|f: Term| #[trigger] gives_power(it, f, n + 1) by {
        let g = Term::IncF(II(Box::new(t), Box::new(f)));
        assert(eval(it, f, 1) == Some(g));
        assert(gives_power(t, f, n));
        let gt = choose|g: Term| reaches(t, f, g) && acts_as_power(g, f, n);
        assert forall|x: Term| #[trigger] power(f, n + 1, x) is Some implies reaches(g, x, power(f, n + 1, x)->0) by {
            let y = power(f, n, x)->0;
            let v = power(f, n + 1, x)->0;
            assert(reaches(gt, x, y));
            assert(result_of(f, y) == Some(v));
            assert(reaches(f, y, v));
            let k1 = fuel_of(t, f, gt);
            let k2 = fuel_of(gt, x, y);
            let k3 = fuel_of(f, y, v);
            let kk = k1 + k2 + k3;
            assert(eval(t, f, kk) == Some(gt));
            assert(eval(gt, x, kk) == Some(y));
            assert(eval(f, y, kk) == Some(v));
            assert(eval(g, x, kk + 1) == Some(v));
        }
        assert(reaches(it, f, g) && acts_as_power(g, f, n + 1));
    }
}

/// The Church numeral `n` represents `n`.
pub proof fn law_church_represents(n: nat)
    ensures
        represents(church(n), n),
    decreases n,
{
    if n == 0 {
        law_zero_represents();
    } else {
        law_church_represents((n - 1) as nat);
        law_inc_represents(church((n - 1) as nat), (n - 1) as nat);
    }
}

/// `Add` adds: if `a` is the numeral `m` and `b` the numeral `n`, then
/// `Add<a, b>` is `m + n`.
pub proof fn law_add_represents(a: Term, b: Term, m: nat, n: nat)
    requires
        represents(a, m),
        represents(b, n),
    ensures
        represents(Term::AA(AA(Box::new(a), Box::new(b))), m + n),
{
    let s = Term::AA(AA(Box::new(a), Box::new(b)));
    assert forall|f: Term| #[trigger] gives_power(s, f, m + n) by {
        let g = Term::AAA(AAA(Box::new(a), Box::new(b), Box::new(f)));
        assert(eval(s, f, 1) == Some(g));
        assert(gives_power(a, f, m));
        assert(gives_power(b, f, n));
        let ga = choose|g: Term| reaches(a, f, g) && acts_as_power(g, f, m);
        let gb = choose|g: Term| reaches(b, f, g) && acts_as_power(g, f, n);
        assert forall|x: Term| #[trigger] power(f, m + n, x) is Some implies reaches(g, x, power(f, m + n, x)->0) by {
            lemma_power_split(f, m, n, x);
            let w = power(f, n, x)->0;
            let v = power(f, m + n, x)->0;
            assert(power(f, m, w) == Some(v));
            assert(reaches(gb, x, w));
            assert(reaches(ga, w, v));
            let k1 = fuel_of(a, f, ga);
            let k2 = fuel_of(b, f, gb);
            let k3 = fuel_of(gb, x, w);
            let k4 = fuel_of(ga, w, v);
            let kk = k1 + k2 + k3 + k4;
            assert(eval(a, f, kk) == Some(ga));
            assert(eval(b, f, kk) == Some(gb));
            assert(eval(gb, x, kk) == Some(w));
            assert(eval(ga, w, kk) == Some(v));
            assert(eval(g, x, kk + 1) == Some(v));
        }
        assert(reaches(s, f, g) && acts_as_power(g, f, m + n));
    }
}

/// A power of a power: where `g` acts as the `n`-th power of `f`, `g`
/// applied `j` times is `f` applied `j * n` times.
proof fn lemma_power_of_power(g: Term, f: Term, n: nat, j: nat, x: Term)
    requires
        acts_as_power(g, f, n),
        power(f, j * n, x) is Some,
    ensures
        power(g, j, x) == power(f, j * n, x),
    decreases j,
{
    if j > 0 {
        let jm = (j - 1) as nat;
        assert(j * n == n + jm * n) by (nonlinear_arith)
            requires
                jm == j - 1,
        ;
        lemma_power_split(f, n, jm * n, x);
        assert(power(f, j * n, x) == power(f, n + jm * n, x));
        assert(power(f, jm * n, x) is Some);
        let w = power(f, jm * n, x)->0;
        lemma_power_of_power(g, f, n, jm, x);
        assert(power(f, n, w) is Some);
        assert(reaches(g, w, power(f, n, w)->0));
        law_result_of(g, w, power(f, n, w)->0);
        assert(power(g, j, x) == result_of(g, w));
    } else {
        assert(j * n == 0) by (nonlinear_arith)
            requires
                j == 0,
        ;
    }
}

/// `Mul` multiplies: if `a` is the numeral `m` and `b` the numeral `n`, then
/// `Mul<a, b>` is `m * n`.
pub proof fn law_mul_represents(a: Term, b: Term, m: nat, n: nat)
    requires
        represents(a, m),
        represents(b, n),
    ensures
        represents(Term::XX(XX(Box::new(a), Box::new(b))), m * n),
{
    let p = Term::XX(XX(Box::new(a), Box::new(b)));
    assert forall|f: Term| #[trigger] gives_power(p, f, m * n) by {
        assert(gives_power(b, f, n));
        let gb = choose|g: Term| reaches(b, f, g) && acts_as_power(g, f, n);
        assert(gives_power(a, gb, m));
        let ga = choose|g: Term| reaches(a, gb, g) && acts_as_power(g, gb, m);
        let k1 = fuel_of(b, f, gb);
        let k2 = fuel_of(a, gb, ga);
        assert(eval(b, f, k1 + k2) == Some(gb));
        assert(eval(a, gb, k1 + k2) == Some(ga));
        assert(eval(p, f, k1 + k2 + 1) == Some(ga));
        assert forall|x: Term| #[trigger] power(f, m * n, x) is Some implies reaches(ga, x, power(f, m * n, x)->0) by {
            lemma_power_of_power(gb, f, n, m, x);
        }
        assert(reaches(p, f, ga) && acts_as_power(ga, f, m * n));
    }
}

/// The pairs built by the predecessor: `Cap0<x>` wrapped `n` times in
/// `PD3<f, _>`.
pub open spec fn dec_chain(f: Term, n: nat, x: Term) -> Term
    decreases n,
{
    if n == 0 {
        Term::Cap0(Cap0(Box::new(x)))
    } else {
        Term::PD3(PD3(Box::new(f), Box::new(dec_chain(f, (n - 1) as nat, x))))
    }
}

proof fn lemma_dec_chain_power(f: Term, n: nat, x: Term)
    ensures
        power(Term::PD2(PD2(Box::new(f))), n, Term::Cap0(Cap0(Box::new(x)))) == Some(dec_chain(f, n, x)),
    decreases n,
{
    if n > 0 {
        lemma_dec_chain_power(f, (n - 1) as nat, x);
        let c = dec_chain(f, (n - 1) as nat, x);
        assert(eval(Term::PD2(PD2(Box::new(f))), c, 1) == Some(dec_chain(f, n, x)));
        law_result_of(Term::PD2(PD2(Box::new(f))), c, dec_chain(f, n, x));
    }
}

proof fn lemma_dec_chain_apply(f: Term, n: nat, x: Term)
    requires
        power(f, n, x) is Some,
    ensures
        reaches(dec_chain(f, n, x), f, power(f, n, x)->0),
    decreases n,
{
    if n == 0 {
        assert(eval(dec_chain(f, 0, x), f, 1) == Some(x));
    } else {
        let c = dec_chain(f, (n - 1) as nat, x);
        lemma_dec_chain_apply(f, (n - 1) as nat, x);
        let y = power(f, (n - 1) as nat, x)->0;
        let v = power(f, n, x)->0;
        assert(reaches(f, y, v));
        let k1 = fuel_of(c, f, y);
        let k2 = fuel_of(f, y, v);
        assert(eval(c, f, k1 + k2) == Some(y));
        assert(eval(f, y, k1 + k2) == Some(v));
        assert(eval(dec_chain(f, n, x), f, k1 + k2 + 1) == Some(v));
    }
}

/// `Dec` subtracts one, stopping at zero: if `t` is the numeral `n`, then
/// `Dec<t>` is `n - 1`, or 0 where `n` is 0.
pub proof fn law_dec_represents(t: Term, n: nat)
    requires
        represents(t, n),
    ensures
        represents(Term::PD0(PD0(Box::new(t))), if n == 0 { 0 } else { (n - 1) as nat }),
{
    let d = Term::PD0(PD0(Box::new(t)));
    let nd: nat = if n == 0 { 0 } else { (n - 1) as nat };
    assert forall|f: Term| #[trigger] gives_power(d, f, nd) by {
        let g = Term::PD1(PD1(Box::new(t), Box::new(f)));
        assert(eval(d, f, 1) == Some(g));
        let f2 = Term::PD2(PD2(Box::new(f)));
        assert(gives_power(t, f2, n));
        let gt = choose|g: Term| reaches(t, f2, g) && acts_as_power(g, f2, n);
        assert forall|x: Term| #[trigger] power(f, nd, x) is Some implies reaches(g, x, power(f, nd, x)->0) by {
            let v = power(f, nd, x)->0;
            let cx = Term::Cap0(Cap0(Box::new(x)));
            lemma_dec_chain_power(f, n, x);
            let c = dec_chain(f, n, x);
            assert(reaches(gt, cx, c));
            let idt = Term::Id(Id);
            if n == 0 {
                assert(eval(c, idt, 1) == Some(v));
            } else {
                lemma_dec_chain_apply(f, nd, x);
                let c1 = dec_chain(f, nd, x);
                let j1 = fuel_of(c1, f, v);
                assert(eval(c1, f, j1 + 1) == Some(v));
                assert(eval(idt, v, j1 + 1) == Some(v));
                assert(eval(c, idt, j1 + 2) == Some(v));
            }
            assert(reaches(c, idt, v));
            let k1 = fuel_of(t, f2, gt);
            let k2 = fuel_of(gt, cx, c);
            let k3 = fuel_of(c, idt, v);
            let kk = k1 + k2 + k3;
            assert(eval(t, f2, kk) == Some(gt));
            assert(eval(gt, cx, kk) == Some(c));
            assert(eval(c, idt, kk) == Some(v));
            assert(eval(g, x, kk + 1) == Some(v));
        }
        assert(reaches(d, f, g) && acts_as_power(g, f, nd));
    }
}

/// From fuel `k0` on, `at` gives `v`.
pub open spec fn settled_from(at: spec_fn(nat) -> Option<Term>, v: Term, k0: nat) -> bool {
    forall|k: nat| k >= k0 ==> #[trigger] at(k) == Some(v)
}

/// An evaluation that gives `v` from some fuel on, and never anything else:
/// `at(fuel)` is `None` (out of fuel) or `Some(v)`.
pub open spec fn settles(at: spec_fn(nat) -> Option<Term>, v: Term) -> bool {
    &&& exists|k0: nat| #[trigger] settled_from(at, v, k0)
    &&& forall|k: nat| #[trigger] at(k) is Some ==> at(k) == Some(v)
}

/// The term that `t`, representing `n`, turns `f` into, and what that does
/// to `x`.
pub proof fn lemma_numeral_apply(t: Term, n: nat, f: Term, x: Term) -> (g: Term)
    requires
        represents(t, n),
        power(f, n, x) is Some,
    ensures
        reaches(t, f, g),
        reaches(g, x, power(f, n, x)->0),
{
    assert(gives_power(t, f, n));
    choose|g: Term| reaches(t, f, g) && acts_as_power(g, f, n)
}

pub proof fn lemma_settles_eval(at: spec_fn(nat) -> Option<Term>, f: Term, x: Term, v: Term)
    requires
        reaches(f, x, v),
        forall|k: nat| #[trigger] at(k) == eval(f, x, k),
    ensures
        settles(at, v),
{
    let k0 = fuel_of(f, x, v);
    assert(settled_from(at, v, k0));
    assert forall|k: nat| #[trigger] at(k) is Some implies at(k) == Some(v) by {
        law_eval_deterministic(f, x, v, k);
    }
}

pub proof fn lemma_settles_eval2(at: spec_fn(nat) -> Option<Term>, f: Term, a: Term, b: Term, g: Term, v: Term)
    requires
        reaches(f, a, g),
        reaches(g, b, v),
        forall|k: nat| #[trigger] at(k) == eval2(f, a, b, k),
    ensures
        settles(at, v),
{
    let k1 = fuel_of(f, a, g);
    let k2 = fuel_of(g, b, v);
    assert(settled_from(at, v, k1 + k2));
    assert forall|k: nat| #[trigger] at(k) is Some implies at(k) == Some(v) by {
        law_eval_deterministic(f, a, g, k);
        law_eval_deterministic(g, b, v, k);
    }
}

/// A one-step function applied `n` times.
proof fn lemma_power_counter(n: nat)
    ensures
        power(counter_start(), n, Term::CountZero(CountZero)) == Some(counter_term(n)),
    decreases n,
{
    if n > 0 {
        lemma_power_counter((n - 1) as nat);
        let c = counter_term((n - 1) as nat);
        assert(eval(counter_start(), c, 1) == Some(counter_term(n)));
        law_result_of(counter_start(), c, counter_term(n));
    }
}

proof fn lemma_power_is_zero(n: nat)
    ensures
        power(Term::IZ(IZ), n, Term::True(True)) == Some(church_bool(n == 0)),
    decreases n,
{
    if n > 0 {
        lemma_power_is_zero((n - 1) as nat);
        let c = church_bool(n - 1 == 0);
        assert(eval(Term::IZ(IZ), c, 1) == Some(Term::Z(Z)));
        law_result_of(Term::IZ(IZ), c, Term::Z(Z));
    }
}

proof fn lemma_power_dec(n: nat, a: Term)
    ensures
        power(Term::TPreDec(TPreDec), n, a) == Some(dec_pow(n, a)),
    decreases n,
{
    if n > 0 {
        lemma_power_dec((n - 1) as nat, a);
        let c = dec_pow((n - 1) as nat, a);
        assert(eval(Term::TPreDec(TPreDec), c, 1) == Some(dec_pow(n, a)));
        law_result_of(Term::TPreDec(TPreDec), c, dec_pow(n, a));
    }
}

/// The counter for `n` has the value (the size) `n`.
pub proof fn law_counter_value(n: nat)
    ensures
        term_size(counter_term(n)) == n,
    decreases n,
{
    if n > 0 {
        law_counter_value((n - 1) as nat);
        let c = counter_term((n - 1) as nat);
        let tl = Tally::Pair(Box::new(Tally::Tick(Tick::One)), Box::new(c));
        assert(tally_size(Tally::Tick(Tick::One)) == 1);
        assert(tally_size(tl) == 1 + term_size(c));
        assert(counter_term(n) == Term::Counter(Counter(tl)));
    }
}

/// `CalcCount` applied to a numeral evaluates to its counter.
pub proof fn lemma_count_reaches(t: Term, n: nat)
    requires
        represents(t, n),
    ensures
        reaches(Term::CalcCount(CalcCount), t, counter_term(n)),
{
    lemma_power_counter(n);
    let cz = Term::CountZero(CountZero);
    let g = lemma_numeral_apply(t, n, counter_start(), cz);
    let k1 = fuel_of(t, counter_start(), g);
    let k2 = fuel_of(g, cz, counter_term(n));
    let cc = Term::CalcCount(CalcCount);
    assert(eval(t, counter_start(), k1 + k2) == Some(g));
    assert(eval(g, cz, k1 + k2) == Some(counter_term(n)));
    assert(eval(cc, t, k1 + k2 + 1) == Some(counter_term(n)));
}

/// `Count` turns a numeral into its value: if `t` is the numeral `n`, then
/// `Count<t>` is the counter whose value is `n`.
pub proof fn law_count(t: Term, n: nat)
    requires
        represents(t, n),
    ensures
        settles(|k: nat| count_at(t, k), counter_term(n)),
        term_size(counter_term(n)) == n,
{
    law_counter_value(n);
    lemma_count_reaches(t, n);
    lemma_settles_eval(|k: nat| count_at(t, k), Term::CalcCount(CalcCount), t, counter_term(n));
}

pub proof fn lemma_is_zero_reaches(t: Term, n: nat)
    requires
        represents(t, n),
    ensures
        reaches(Term::TIsZero(TIsZero), t, church_bool(n == 0)),
{
    lemma_power_is_zero(n);
    let tt = Term::True(True);
    let g = lemma_numeral_apply(t, n, Term::IZ(IZ), tt);
    let k1 = fuel_of(t, Term::IZ(IZ), g);
    let k2 = fuel_of(g, tt, church_bool(n == 0));
    let tz = Term::TIsZero(TIsZero);
    assert(eval(t, Term::IZ(IZ), k1 + k2) == Some(g));
    assert(eval(g, tt, k1 + k2) == Some(church_bool(n == 0)));
    assert(eval(tz, t, k1 + k2 + 1) == Some(church_bool(n == 0)));
}

/// `IsZero` tests for zero: if `t` is the numeral `n`, then `IsZero<t>` is
/// `True` where `n` is 0 and `False` otherwise.
pub proof fn law_is_zero(t: Term, n: nat)
    requires
        represents(t, n),
    ensures
        settles(|k: nat| is_zero_at(t, k), church_bool(n == 0)),
{
    lemma_is_zero_reaches(t, n);
    lemma_settles_eval(|k: nat| is_zero_at(t, k), Term::TIsZero(TIsZero), t, church_bool(n == 0));
}

/// `Dec` applied `n` times to the numeral `m` is the numeral `m - n`, or 0
/// where `n` exceeds `m`.
pub proof fn law_dec_pow_represents(a: Term, m: nat, n: nat)
    requires
        represents(a, m),
    ensures
        represents(dec_pow(n, a), if m >= n { (m - n) as nat } else { 0 }),
    decreases n,
{
    if n > 0 {
        law_dec_pow_represents(a, m, (n - 1) as nat);
        let p: nat = if m >= n - 1 { (m - (n - 1)) as nat } else { 0 };
        law_dec_represents(dec_pow((n - 1) as nat, a), p);
    }
}

pub proof fn lemma_minus_reaches(a: Term, b: Term, n: nat)
    requires
        represents(b, n),
    ensures
        reaches(Term::SubS(sub_private::S(Box::new(a))), b, dec_pow(n, a)),
{
    lemma_power_dec(n, a);
    let pd = Term::TPreDec(TPreDec);
    let g = lemma_numeral_apply(b, n, pd, a);
    let k1 = fuel_of(b, pd, g);
    let k2 = fuel_of(g, a, dec_pow(n, a));
    let sa = Term::SubS(sub_private::S(Box::new(a)));
    assert(eval(b, pd, k1 + k2) == Some(g));
    assert(eval(g, a, k1 + k2) == Some(dec_pow(n, a)));
    assert(eval(sa, b, k1 + k2 + 1) == Some(dec_pow(n, a)));
}

/// `Sub` subtracts, stopping at zero: if `a` is the numeral `m` and `b` the
/// numeral `n`, then `Sub<a, b>` is `a` with `Dec` applied `n` times, which
/// is the numeral `m - n`, or 0 where `n` exceeds `m`.
pub proof fn law_minus(a: Term, b: Term, m: nat, n: nat)
    requires
        represents(a, m),
        represents(b, n),
    ensures
        settles(|k: nat| minus_at(a, b, k), dec_pow(n, a)),
        represents(dec_pow(n, a), if m >= n { (m - n) as nat } else { 0 }),
{
    law_dec_pow_represents(a, m, n);
    lemma_minus_reaches(a, b, n);
    let sa = Term::SubS(sub_private::S(Box::new(a)));
    assert(eval(Term::TSub(TSub), a, 1) == Some(sa));
    lemma_settles_eval2(|k: nat| minus_at(a, b, k), Term::TSub(TSub), a, b, sa, dec_pow(n, a));
}

/// `And` on the Church booleans.
pub proof fn law_and(p: bool, q: bool, k: nat)
    requires
        k >= 1,
    ensures
        and_at(church_bool(p), church_bool(q), k) == Some(church_bool(p && q)),
{
}

/// `IsEq` tests for equality: if `a` is the numeral `m` and `b` the numeral
/// `n`, then `IsEq<a, b>` is `True` where `m == n` and `False` otherwise.
pub proof fn law_is_eq(a: Term, b: Term, m: nat, n: nat)
    requires
        represents(a, m),
        represents(b, n),
    ensures
        settles(|k: nat| is_eq_at(a, b, k), church_bool(m == n)),
{
    let p: nat = if m >= n { (m - n) as nat } else { 0 };
    let q: nat = if n >= m { (n - m) as nat } else { 0 };
    let d1 = dec_pow(n, a);
    let d2 = dec_pow(m, b);
    law_dec_pow_represents(a, m, n);
    law_dec_pow_represents(b, n, m);
    lemma_minus_reaches(a, b, n);
    lemma_minus_reaches(b, a, m);
    lemma_is_zero_reaches(d1, p);
    lemma_is_zero_reaches(d2, q);
    let s1 = Term::SubS(sub_private::S(Box::new(a)));
    let s2 = Term::SubS(sub_private::S(Box::new(b)));
    let tz = Term::TIsZero(TIsZero);
    let z1 = church_bool(p == 0);
    let z2 = church_bool(q == 0);
    let k1 = fuel_of(s1, b, d1);
    let k2 = fuel_of(s2, a, d2);
    let k3 = fuel_of(tz, d1, z1);
    let k4 = fuel_of(tz, d2, z2);
    let kk = k1 + k2 + k3 + k4 + 1;
    assert((p == 0 && q == 0) == (m == n));
    let at = |k: nat| is_eq_at(a, b, k);
    assert forall|k: nat| k >= kk implies #[trigger] at(k) == Some(church_bool(m == n)) by {
        assert(minus_at(a, b, k) == Some(d1));
        assert(minus_at(b, a, k) == Some(d2));
        assert(is_zero_at(d1, k) == Some(z1));
        assert(is_zero_at(d2, k) == Some(z2));
        law_and(p == 0, q == 0, k);
    }
    assert(settled_from(at, church_bool(m == n), kk));
    assert forall|k: nat| #[trigger] at(k) is Some implies at(k) == Some(church_bool(m == n)) by {
        assert(eval(Term::TSub(TSub), a, k) == Some(s1));
        assert(eval(Term::TSub(TSub), b, k) == Some(s2));
        law_eval_deterministic(s1, b, d1, k);
        law_eval_deterministic(tz, d1, z1, k);
        law_eval_deterministic(s2, a, d2, k);
        law_eval_deterministic(tz, d2, z2, k);
        law_and(p == 0, q == 0, k);
    }
}

/// `If` selects: `If<True, t, e>` is `t` and `If<False, t, e>` is `e`.
pub proof fn law_if(c: bool, t: Term, e: Term, k: nat)
    requires
        k >= 1,
    ensures
        if_at(church_bool(c), t, e, k) == Some(if c { t } else { e }),
{
}

/// `Not` on the Church booleans.
pub proof fn law_not(c: bool, k: nat)
    requires
        k >= 1,
    ensures
        not_at(church_bool(c), k) == Some(church_bool(!c)),
{
}

/// `Or` on the Church booleans.
pub proof fn law_or(p: bool, q: bool, k: nat)
    requires
        k >= 1,
    ensures
        or_at(church_bool(p), church_bool(q), k) == Some(church_bool(p || q)),
{
}

/// `Id` (also `I`) gives back its argument.
pub proof fn law_identity(x: Term, k: nat)
    requires
        k >= 1,
    ensures
        eval(Term::Id(Id), x, k) == Some(x),
{
}

/// `True` (also `K`) keeps its first argument and drops its second.
pub proof fn law_constant(a: Term, b: Term, k: nat)
    requires
        k >= 1,
    ensures
        eval2(Term::True(True), a, b, k) == Some(a),
{
}

/// `Cap0<x>` gives `x` whatever it is applied to.
pub proof fn law_cap0(x: Term, y: Term, k: nat)
    requires
        k >= 1,
    ensures
        eval(Term::Cap0(Cap0(Box::new(x))), y, k) == Some(x),
{
}

/// A stored type stays what it is when applied.
pub proof fn law_type(t: Type, y: Term, k: nat)
    requires
        k >= 1,
    ensures
        eval(Term::Type(t), y, k) == Some(Term::Type(t)),
{
}

/// `S` substitutes: `Ss<x, y, z>` is `x z (y z)`.
pub proof fn law_substitution(x: Term, y: Term, z: Term, p: Term, q: Term, v: Term)
    requires
        reaches(x, z, p),
        reaches(y, z, q),
        reaches(p, q, v),
    ensures
        settles(|k: nat| ss_at(x, y, z, k), v),
{
    let k1 = fuel_of(x, z, p);
    let k2 = fuel_of(y, z, q);
    let k3 = fuel_of(p, q, v);
    let kk = k1 + k2 + k3 + 1;
    let sxy = Term::SSS(SSS(Box::new(x), Box::new(y)));
    assert(eval(x, z, (kk - 1) as nat) == Some(p));
    assert(eval(y, z, (kk - 1) as nat) == Some(q));
    assert(eval(p, q, (kk - 1) as nat) == Some(v));
    assert(eval(sxy, z, kk) == Some(v));
    let at = |k: nat| ss_at(x, y, z, k);
    assert forall|k: nat| k >= kk implies #[trigger] at(k) == Some(v) by {
        let j = (k - 1) as nat;
        assert(eval(x, z, j) == Some(p));
        assert(eval(y, z, j) == Some(q));
        assert(eval(p, q, j) == Some(v));
    }
    assert(settled_from(at, v, kk));
    assert forall|k: nat| #[trigger] at(k) is Some implies at(k) == Some(v) by {
        let j = (k - 1) as nat;
        law_eval_deterministic(x, z, p, j);
        law_eval_deterministic(y, z, q, j);
        law_eval_deterministic(p, q, v, j);
    }
}

/// `S K K` is the identity: `Ss<K, K, z>` is `z`.
pub proof fn law_skk(z: Term, k: nat)
    requires
        k >= 2,
    ensures
        ss_at(Term::True(True), Term::True(True), z, k) == Some(z),
{
    let kt = Term::BoolTrue(bool_private::True(Box::new(z)));
    assert(eval(Term::True(True), z, (k - 1) as nat) == Some(kt));
    assert(eval(kt, kt, (k - 1) as nat) == Some(z));
}

/// `Fix` unfolds once: `Fix f` evaluates as `f` applied to the
/// self-application `λ v. Fix f v`.
pub proof fn law_fix_unfolds(f: Term)
    ensures
        result_of(Term::Fix(Fix), f) == result_of(f, Term::ZX(ZX(Box::new(Term::ZF(ZF(Box::new(f))))))),
{
    let zx = Term::ZX(ZX(Box::new(Term::ZF(ZF(Box::new(f))))));
    let fx = Term::Fix(Fix);
    if result_of(f, zx) is Some {
        let r = result_of(f, zx)->0;
        assert(reaches(f, zx, r));
        let k = choose|k: nat| eval(f, zx, k) == Some(r);
        let zf = Term::ZF(ZF(Box::new(f)));
        assert(eval(zf, zf, k + 1) == Some(r));
        assert(eval(fx, f, k + 2) == Some(r));
        law_result_of(fx, f, r);
    } else if result_of(fx, f) is Some {
        let r = result_of(fx, f)->0;
        assert(reaches(fx, f, r));
        let k = choose|k: nat| eval(fx, f, k) == Some(r);
        let zf = Term::ZF(ZF(Box::new(f)));
        assert(eval(zf, zf, (k - 1) as nat) == Some(r));
        assert(eval(f, zx, (k - 2) as nat) == Some(r));
        assert(reaches(f, zx, r));
    }
}

/// `Fix` is a fixed point: the self-application `λ v. Fix f v` applied to
/// `v` evaluates as `Fix f` applied to `v`.
pub proof fn law_fix_recurses(f: Term, v: Term)
    ensures
        result_of(Term::ZX(ZX(Box::new(Term::ZF(ZF(Box::new(f)))))), v) == (match result_of(Term::Fix(Fix), f) {
            Some(r) => result_of(r, v),
            None => None,
        }),
{
    let zf = Term::ZF(ZF(Box::new(f)));
    let zx = Term::ZX(ZX(Box::new(zf)));
    let fx = Term::Fix(Fix);
    if result_of(zx, v) is Some {
        let u = result_of(zx, v)->0;
        let k = choose|k: nat| eval(zx, v, k) == Some(u);
        let r = eval(zf, zf, (k - 1) as nat)->0;
        assert(eval(fx, f, k) == Some(r));
        law_result_of(fx, f, r);
        assert(eval(r, v, (k - 1) as nat) == Some(u));
        law_result_of(r, v, u);
    } else if result_of(fx, f) is Some {
        let r = result_of(fx, f)->0;
        if result_of(r, v) is Some {
            let u = result_of(r, v)->0;
            let k1 = fuel_of(fx, f, r);
            let k2 = fuel_of(r, v, u);
            assert(eval(fx, f, k1 + k2 + 1) == Some(r));
            assert(eval(zf, zf, k1 + k2) == Some(r));
            assert(eval(r, v, k1 + k2) == Some(u));
            assert(eval(zx, v, k1 + k2 + 1) == Some(u));
            assert(reaches(zx, v, u));
        }
    }
}

} // verus!
