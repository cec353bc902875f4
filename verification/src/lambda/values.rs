//! What each combinator, taken as a value of the calculus ([`Lambda`]),
//! does to its arguments.

use vstd::prelude::*;
use crate::lambda::{
    church, church_bool, count_at, counter_term, dec_pow, eval, eval2, stored, tally_size,
    term_size, then_eval, Lambda, Term,
};
use crate::lambda::{
    A, AA, AAA, Tally, CalcCount, Cap0, Counter, CountZero, Fix, Id, IZ, PD0, PD1, PD2, PD3, S, SS, SSS,
    TAdd, TIsZero, TInc, TMul, TPreDec, TSub, True, Type, X, XX, Z, ZF, ZX,
};
use crate::lambda::{bool_private, inc_private, sub_private};
use crate::lambda::laws::{
    acts_as_power, fuel_of, gives_power, law_add_represents, law_count, law_dec_represents,
    law_dec_pow_represents, law_eval_deterministic, law_fix_recurses, law_fix_unfolds,
    law_inc_represents, law_is_zero, law_mul_represents, law_zero_represents,
    lemma_count_reaches, lemma_is_zero_reaches, lemma_minus_reaches, lemma_settles_eval,
    lemma_settles_eval2, reaches, represents, result_of, settles,
};

verus! {

/// An application evaluates to at most one result.
proof fn lemma_reaches_unique(f: Term, x: Term, v: Term, w: Term)
    requires
        reaches(f, x, v),
        reaches(f, x, w),
    ensures
        v == w,
{
    let k = choose|k: nat| eval(f, x, k) == Some(w);
    law_eval_deterministic(f, x, v, k);
}

/// What `t` turns `f` into acts as the power that `t` gives.
proof fn lemma_gives_power_at(t: Term, f: Term, n: nat, g: Term)
    requires
        gives_power(t, f, n),
        reaches(t, f, g),
    ensures
        acts_as_power(g, f, n),
{
    let h = choose|h: Term| reaches(t, f, h) && acts_as_power(h, f, n);
    lemma_reaches_unique(t, f, g, h);
}

/// `Cap0<x>` gives `x` whatever it is applied to.
pub proof fn law_cap0_value(c: Cap0, y: Term, k: nat)
    requires
        k >= 1,
    ensures
        eval(c.as_term(), y, k) == Some(*c.0),
{
}

/// The zero counter is what `Count<Zero>` gives; it stays itself when
/// applied, and its value is 0.
pub proof fn law_count_zero_value(z: CountZero, y: Term, k: nat)
    requires
        k >= 3,
    ensures
        count_at(church(0), k) == Some(z.as_term()),
        eval(z.as_term(), y, k) == Some(z.as_term()),
        term_size(z.as_term()) == 0,
{
    let zf = Term::BoolFalse(bool_private::False);
    assert(eval(Term::Z(Z), crate::lambda::counter_start(), (k - 1) as nat) == Some(zf));
    assert(eval(zf, Term::CountZero(CountZero), (k - 1) as nat) == Some(Term::CountZero(CountZero)));
}

/// A counter's value is the number of ticks it holds; applied to `x`, it
/// gives a counter whose value is its own plus that of `x`.
pub proof fn law_counter_value_of(c: Counter, x: Term, k: nat)
    requires
        k >= 1,
    ensures
        term_size(c.as_term()) == tally_size(c.0),
        eval(c.as_term(), x, k) is Some,
        eval(c.as_term(), x, k)->0 is Counter,
        term_size(eval(c.as_term(), x, k)->0) == tally_size(c.0) + term_size(x),
{
    let tl = Tally::Pair(Box::new(c.0), Box::new(x));
    assert(eval(c.as_term(), x, k) == Some(Term::Counter(Counter(tl))));
    assert(tally_size(tl) == tally_size(c.0) + term_size(x));
}

/// `CalcCount` turns the numeral `n` into the counter whose value is `n`.
pub proof fn law_calc_count_value(t: Term, n: nat)
    requires
        represents(t, n),
    ensures
        settles(|k: nat| eval(CalcCount.as_term(), t, k), counter_term(n)),
        term_size(counter_term(n)) == n,
{
    law_count(t, n);
    lemma_count_reaches(t, n);
    lemma_settles_eval(|k: nat| eval(CalcCount.as_term(), t, k), Term::CalcCount(CalcCount), t, counter_term(n));
}

/// A stored type is kept, also after an application.
pub proof fn law_type_value(t: Type, y: Term, k: nat)
    requires
        k >= 1,
    ensures
        stored(t.as_term()) == Some(t.0),
        eval(t.as_term(), y, k) is Some,
        stored(eval(t.as_term(), y, k)->0) == Some(t.0),
{
}

/// `Id` gives back its argument.
pub proof fn law_id_value(x: Term, k: nat)
    requires
        k >= 1,
    ensures
        eval(Id.as_term(), x, k) == Some(x),
{
}

/// `True` keeps its first argument and drops its second.
pub proof fn law_true_value(a: Term, b: Term, k: nat)
    requires
        k >= 1,
    ensures
        eval2(True.as_term(), a, b, k) == Some(a),
{
}

/// `Z` (`False`) drops its first argument and keeps its second; it is the
/// numeral 0.
pub proof fn law_z_value(a: Term, b: Term, k: nat)
    requires
        k >= 1,
    ensures
        eval2(Z.as_term(), a, b, k) == Some(b),
        represents(Z.as_term(), 0),
{
    law_zero_represents();
}

/// `True` after its first argument `a` gives `a` whatever follows.
pub proof fn law_bool_true_value(t: bool_private::True, b: Term, k: nat)
    requires
        k >= 1,
    ensures
        eval(t.as_term(), b, k) == Some(*t.0),
{
}

/// `False` after its first argument gives what follows.
pub proof fn law_bool_false_value(f: bool_private::False, b: Term, k: nat)
    requires
        k >= 1,
    ensures
        eval(f.as_term(), b, k) == Some(b),
{
}

/// `TIsZero` tests a numeral for zero.
pub proof fn law_t_is_zero_value(t: Term, n: nat)
    requires
        represents(t, n),
    ensures
        settles(|k: nat| eval(TIsZero.as_term(), t, k), church_bool(n == 0)),
{
    law_is_zero(t, n);
    lemma_is_zero_reaches(t, n);
    lemma_settles_eval(|k: nat| eval(TIsZero.as_term(), t, k), Term::TIsZero(TIsZero), t, church_bool(n == 0));
}

/// `IZ` gives `False` whatever it is applied to.
pub proof fn law_iz_value(x: Term, k: nat)
    requires
        k >= 1,
    ensures
        eval(IZ.as_term(), x, k) == Some(church_bool(false)),
{
}

/// `TInc` gives the successor: applied to the numeral `n`, the numeral
/// `n + 1`.
pub proof fn law_t_inc_value(t: Term, n: nat, k: nat)
    requires
        represents(t, n),
        k >= 1,
    ensures
        eval(TInc.as_term(), t, k) is Some,
        represents(eval(TInc.as_term(), t, k)->0, n + 1),
{
    law_inc_represents(t, n);
}

/// The successor of the numeral `n` is the numeral `n + 1`.
pub proof fn law_inc_value(s: inc_private::I, n: nat)
    requires
        represents(*s.0, n),
    ensures
        represents(s.as_term(), n + 1),
{
    law_inc_represents(*s.0, n);
}

/// The successor of the numeral `n` applied to `f` acts as `f` applied
/// `n + 1` times.
pub proof fn law_inc_f_value(s: inc_private::II, n: nat)
    requires
        represents(*s.0, n),
    ensures
        acts_as_power(s.as_term(), *s.1, n + 1),
{
    let t = *s.0;
    let f = *s.1;
    let it = Term::Inc(inc_private::I(Box::new(t)));
    law_inc_represents(t, n);
    assert(gives_power(it, f, n + 1));
    assert(eval(it, f, 1) == Some(s.as_term()));
    lemma_gives_power_at(it, f, n + 1, s.as_term());
}

/// `TAdd` adds: applied to the numerals `m` and `n`, the numeral `m + n`.
pub proof fn law_t_add_value(a: Term, b: Term, m: nat, n: nat, k: nat)
    requires
        represents(a, m),
        represents(b, n),
        k >= 1,
    ensures
        eval2(TAdd.as_term(), a, b, k) is Some,
        represents(eval2(TAdd.as_term(), a, b, k)->0, m + n),
{
    law_add_represents(a, b, m, n);
}

/// Addition after the numeral `m`, applied to the numeral `n`, gives the
/// numeral `m + n`.
pub proof fn law_a_value(s: A, b: Term, m: nat, n: nat, k: nat)
    requires
        represents(*s.0, m),
        represents(b, n),
        k >= 1,
    ensures
        eval(s.as_term(), b, k) is Some,
        represents(eval(s.as_term(), b, k)->0, m + n),
{
    law_add_represents(*s.0, b, m, n);
}

/// The sum of the numerals `m` and `n` is the numeral `m + n`.
pub proof fn law_aa_value(s: AA, m: nat, n: nat)
    requires
        represents(*s.0, m),
        represents(*s.1, n),
    ensures
        represents(s.as_term(), m + n),
{
    law_add_represents(*s.0, *s.1, m, n);
}

/// The sum of the numerals `m` and `n` applied to `f` acts as `f` applied
/// `m + n` times.
pub proof fn law_aaa_value(s: AAA, m: nat, n: nat)
    requires
        represents(*s.0, m),
        represents(*s.1, n),
    ensures
        acts_as_power(s.as_term(), *s.2, m + n),
{
    let sum = Term::AA(AA(s.0, s.1));
    let f = *s.2;
    law_add_represents(*s.0, *s.1, m, n);
    assert(gives_power(sum, f, m + n));
    assert(eval(sum, f, 1) == Some(s.as_term()));
    lemma_gives_power_at(sum, f, m + n, s.as_term());
}

/// `TPreDec` gives the predecessor: applied to the numeral `n`, the numeral
/// `n - 1` (0 where `n` is 0).
pub proof fn law_t_pre_dec_value(t: Term, n: nat, k: nat)
    requires
        represents(t, n),
        k >= 1,
    ensures
        eval(TPreDec.as_term(), t, k) is Some,
        represents(eval(TPreDec.as_term(), t, k)->0, if n == 0 { 0 } else { (n - 1) as nat }),
{
    law_dec_represents(t, n);
}

/// The predecessor of the numeral `n` is the numeral `n - 1` (0 where `n`
/// is 0).
pub proof fn law_pd0_value(s: PD0, n: nat)
    requires
        represents(*s.0, n),
    ensures
        represents(s.as_term(), if n == 0 { 0 } else { (n - 1) as nat }),
{
    law_dec_represents(*s.0, n);
}

/// The predecessor of the numeral `n` applied to `f` acts as `f` applied
/// `n - 1` times (0 where `n` is 0).
pub proof fn law_pd1_value(s: PD1, n: nat)
    requires
        represents(*s.0, n),
    ensures
        acts_as_power(s.as_term(), *s.1, if n == 0 { 0 } else { (n - 1) as nat }),
{
    let d = Term::PD0(PD0(s.0));
    let f = *s.1;
    let nd: nat = if n == 0 { 0 } else { (n - 1) as nat };
    law_dec_represents(*s.0, n);
    assert(gives_power(d, f, nd));
    assert(eval(d, f, 1) == Some(s.as_term()));
    lemma_gives_power_at(d, f, nd, s.as_term());
}

/// `λ h. h (g f)` with `f` and `g` given: applied to `h`, it gives `h`
/// applied to what `g` gives on `f`.
pub proof fn law_pd3_value(s: PD3, h: Term, a: Term, v: Term)
    requires
        reaches(*s.1, *s.0, a),
        reaches(h, a, v),
    ensures
        reaches(s.as_term(), h, v),
{
    let k1 = fuel_of(*s.1, *s.0, a);
    let k2 = fuel_of(h, a, v);
    assert(eval(*s.1, *s.0, k1 + k2) == Some(a));
    assert(eval(h, a, k1 + k2) == Some(v));
    assert(eval(s.as_term(), h, k1 + k2 + 1) == Some(v));
}

/// `λ g. λ h. h (g f)` with `f` given: applied to `g` and `h`, it gives `h`
/// applied to what `g` gives on `f`.
pub proof fn law_pd2_value(s: PD2, g: Term, h: Term, a: Term, v: Term)
    requires
        reaches(g, *s.0, a),
        reaches(h, a, v),
    ensures
        settles(|k: nat| eval2(s.as_term(), g, h, k), v),
{
    let p3 = PD3(s.0, Box::new(g));
    law_pd3_value(p3, h, a, v);
    assert(eval(s.as_term(), g, 1) == Some(p3.as_term()));
    lemma_settles_eval2(|k: nat| eval2(s.as_term(), g, h, k), s.as_term(), g, h, p3.as_term(), v);
}

/// `TSub` subtracts: applied to the numerals `m` and `n`, it gives `m` with
/// `Dec` applied `n` times, the numeral `m - n` (0 where `n` exceeds `m`).
pub proof fn law_t_sub_value(a: Term, b: Term, m: nat, n: nat)
    requires
        represents(a, m),
        represents(b, n),
    ensures
        settles(|k: nat| eval2(TSub.as_term(), a, b, k), dec_pow(n, a)),
        represents(dec_pow(n, a), if m >= n { (m - n) as nat } else { 0 }),
{
    law_dec_pow_represents(a, m, n);
    lemma_minus_reaches(a, b, n);
    let sa = Term::SubS(sub_private::S(Box::new(a)));
    assert(eval(TSub.as_term(), a, 1) == Some(sa));
    lemma_settles_eval2(|k: nat| eval2(TSub.as_term(), a, b, k), TSub.as_term(), a, b, sa, dec_pow(n, a));
}

/// Subtraction after the numeral `m`, applied to the numeral `n`, gives `m`
/// with `Dec` applied `n` times, the numeral `m - n` (0 where `n` exceeds
/// `m`).
pub proof fn law_sub_s_value(s: sub_private::S, b: Term, m: nat, n: nat)
    requires
        represents(*s.0, m),
        represents(b, n),
    ensures
        reaches(s.as_term(), b, dec_pow(n, *s.0)),
        represents(dec_pow(n, *s.0), if m >= n { (m - n) as nat } else { 0 }),
{
    law_dec_pow_represents(*s.0, m, n);
    lemma_minus_reaches(*s.0, b, n);
}

/// `TMul` multiplies: applied to the numerals `m` and `n`, the numeral
/// `m * n`.
pub proof fn law_t_mul_value(a: Term, b: Term, m: nat, n: nat, k: nat)
    requires
        represents(a, m),
        represents(b, n),
        k >= 1,
    ensures
        eval2(TMul.as_term(), a, b, k) is Some,
        represents(eval2(TMul.as_term(), a, b, k)->0, m * n),
{
    law_mul_represents(a, b, m, n);
}

/// Multiplication after the numeral `m`, applied to the numeral `n`, gives
/// the numeral `m * n`.
pub proof fn law_x_value(s: X, b: Term, m: nat, n: nat, k: nat)
    requires
        represents(*s.0, m),
        represents(b, n),
        k >= 1,
    ensures
        eval(s.as_term(), b, k) is Some,
        represents(eval(s.as_term(), b, k)->0, m * n),
{
    law_mul_represents(*s.0, b, m, n);
}

/// The product of the numerals `m` and `n` is the numeral `m * n`.
pub proof fn law_xx_value(s: XX, m: nat, n: nat)
    requires
        represents(*s.0, m),
        represents(*s.1, n),
    ensures
        represents(s.as_term(), m * n),
{
    law_mul_represents(*s.0, *s.1, m, n);
}

/// Substitution after `x` and `y`, applied to `z`, gives `x z (y z)`.
pub proof fn law_sss_value(s: SSS, z: Term, p: Term, q: Term, v: Term)
    requires
        reaches(*s.0, z, p),
        reaches(*s.1, z, q),
        reaches(p, q, v),
    ensures
        reaches(s.as_term(), z, v),
{
    let k1 = fuel_of(*s.0, z, p);
    let k2 = fuel_of(*s.1, z, q);
    let k3 = fuel_of(p, q, v);
    let kk = k1 + k2 + k3;
    assert(eval(*s.0, z, kk) == Some(p));
    assert(eval(*s.1, z, kk) == Some(q));
    assert(eval(p, q, kk) == Some(v));
    assert(eval(s.as_term(), z, kk + 1) == Some(v));
}

/// Substitution after `x`, applied to `y` and `z`, gives `x z (y z)`.
pub proof fn law_ss_value(s: SS, y: Term, z: Term, p: Term, q: Term, v: Term)
    requires
        reaches(*s.0, z, p),
        reaches(y, z, q),
        reaches(p, q, v),
    ensures
        settles(|k: nat| eval2(s.as_term(), y, z, k), v),
{
    let s3 = SSS(s.0, Box::new(y));
    law_sss_value(s3, z, p, q, v);
    assert(eval(s.as_term(), y, 1) == Some(s3.as_term()));
    lemma_settles_eval2(|k: nat| eval2(s.as_term(), y, z, k), s.as_term(), y, z, s3.as_term(), v);
}

/// `S` substitutes: applied to `x`, `y` and `z`, it gives `x z (y z)`.
pub proof fn law_s_value(x: Term, y: Term, z: Term, p: Term, q: Term, v: Term)
    requires
        reaches(x, z, p),
        reaches(y, z, q),
        reaches(p, q, v),
    ensures
        settles(|k: nat| then_eval(eval2(S.as_term(), x, y, k), z, k), v),
{
    let s3 = SSS(Box::new(x), Box::new(y));
    law_sss_value(s3, z, p, q, v);
    let at = |k: nat| then_eval(eval2(S.as_term(), x, y, k), z, k);
    assert forall|k: nat| #[trigger] at(k) == eval(s3.as_term(), z, k) by {
        if k >= 1 {
            assert(eval(S.as_term(), x, k) == Some(Term::SS(SS(Box::new(x)))));
            assert(eval(Term::SS(SS(Box::new(x))), y, k) == Some(s3.as_term()));
        }
    }
    lemma_settles_eval(at, s3.as_term(), z, v);
}

/// `Fix` unfolds once: `Fix f` evaluates as `f` applied to `λ v. Fix f v`,
/// and that self-application applied to `v` evaluates as `Fix f` applied to
/// `v`.
pub proof fn law_fix_value(f: Term, v: Term)
    ensures
        result_of(Fix.as_term(), f) == result_of(f, Term::ZX(ZX(Box::new(Term::ZF(ZF(Box::new(f))))))),
        result_of(Term::ZX(ZX(Box::new(Term::ZF(ZF(Box::new(f)))))), v) == (match result_of(Fix.as_term(), f) {
            Some(r) => result_of(r, v),
            None => None,
        }),
{
    law_fix_unfolds(f);
    law_fix_recurses(f, v);
}

/// `λ x. f (λ v. x x v)` with `f` given: applied to `x`, it gives `f`
/// applied to the self-application of `x`.
pub proof fn law_zf_value(s: ZF, x: Term, r: Term)
    requires
        reaches(*s.0, Term::ZX(ZX(Box::new(x))), r),
    ensures
        reaches(s.as_term(), x, r),
{
    let k = fuel_of(*s.0, Term::ZX(ZX(Box::new(x))), r);
    assert(eval(*s.0, Term::ZX(ZX(Box::new(x))), k) == Some(r));
    assert(eval(s.as_term(), x, k + 1) == Some(r));
}

/// `λ v. x x v` with `x` given: applied to `v`, it gives `x` applied to
/// itself, then to `v`.
pub proof fn law_zx_value(s: ZX, v: Term, a: Term, u: Term)
    requires
        reaches(*s.0, *s.0, a),
        reaches(a, v, u),
    ensures
        reaches(s.as_term(), v, u),
{
    let k1 = fuel_of(*s.0, *s.0, a);
    let k2 = fuel_of(a, v, u);
    assert(eval(*s.0, *s.0, k1 + k2) == Some(a));
    assert(eval(a, v, k1 + k2) == Some(u));
    assert(eval(s.as_term(), v, k1 + k2 + 1) == Some(u));
}

} // verus!
