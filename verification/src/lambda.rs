//! Metaprogramming based on the lambda calculus.
//!
//! Every value of the calculus is a [`Term`]: one of a fixed set of
//! combinators, possibly holding the arguments it has already received.
//! Applying a term to an argument ([`Term::apply`]) follows the reduction
//! rule of its combinator, evaluating strictly: every intermediate result
//! is itself a term. Church numerals and booleans are built from these
//! combinators, so arithmetic, comparison and selection are computed by
//! application alone.
//!
//! Evaluation need not terminate (the fixed-point combinator [`Fix`] makes
//! loops easy), so every evaluation carries a fuel bound: the depth of
//! nested applications that it may reach before it gives up with `None`.

use vstd::prelude::*;

pub use Id as I;
pub use True as K;

pub mod bool_private;
pub mod inc_private;
pub mod sub_private;
pub mod laws;
pub mod bounds;
pub mod values;

verus! {

/// `λ x with c. c`: a constant function that ignores its argument.
#[derive(Debug, PartialEq, Eq)]
pub struct Cap0(pub Box<Term>);

/// The unit mark counted by [`Counter`]: one byte per occurrence.
#[derive(Debug, Clone, Copy, PartialEq, Eq)]
pub enum Tick {
    One,
}

/// The zero counter: applying it to anything gives itself; its value is 0.
#[derive(Debug, Clone, Copy, PartialEq, Eq)]
pub struct CountZero;

/// What a [`Counter`] holds: a single [`Tick`], or an earlier tally paired
/// with the argument that the counter was applied to.
#[derive(Debug, PartialEq, Eq)]
pub enum Tally {
    Tick(Tick),
    Pair(Box<Tally>, Box<Term>),
}

/// A counter: applying it to `x` pairs its tally with `x`. Its value is the
/// number of [`Tick`] marks it holds.
#[derive(Debug, PartialEq, Eq)]
pub struct Counter(pub Tally);

/// `λ x. x Counter CountZero`: turns a Church numeral into a counter whose
/// value is the numeral.
#[derive(Debug, Clone, Copy, PartialEq, Eq)]
pub struct CalcCount;

/// Stores a type, named by its identifier; applying it gives itself.
#[derive(Debug, Clone, Copy, PartialEq, Eq)]
pub struct Type(pub u64);

/// `λ x. x`
#[derive(Debug, Clone, Copy, PartialEq, Eq)]
pub struct Id;

/// `True`, the constant combinator: `λ a. λ b. a`.
#[derive(Debug, Clone, Copy, PartialEq, Eq)]
pub struct True;

/// `Zero` and `False`: `λ a. λ b. b`.
#[derive(Debug, Clone, Copy, PartialEq, Eq)]
pub struct Z;

/// `λ n. n (λ x. False) True`
#[derive(Debug, Clone, Copy, PartialEq, Eq)]
pub struct TIsZero;

/// `λ x. False`
#[derive(Debug, Clone, Copy, PartialEq, Eq)]
pub struct IZ;

/// Successor: `λ n. λ f. λ x. f (n f x)`.
#[derive(Debug, Clone, Copy, PartialEq, Eq)]
pub struct TInc;

/// Addition: `λ m. λ n. λ f. λ x. m f (n f x)`.
#[derive(Debug, Clone, Copy, PartialEq, Eq)]
pub struct TAdd;

/// Addition after `m`.
#[derive(Debug, PartialEq, Eq)]
pub struct A(pub Box<Term>);

/// The sum of `m` and `n`: `λ f. λ x. m f (n f x)`.
#[derive(Debug, PartialEq, Eq)]
pub struct AA(pub Box<Term>, pub Box<Term>);

/// The sum of `m` and `n` applied to `f`: `λ x. m f (n f x)`.
#[derive(Debug, PartialEq, Eq)]
pub struct AAA(pub Box<Term>, pub Box<Term>, pub Box<Term>);

/// Predecessor: `λ n. λ f. λ x. n (λ g. λ h. h (g f)) (λ u. x) (λ u. u)`.
#[derive(Debug, Clone, Copy, PartialEq, Eq)]
pub struct TPreDec;

/// The predecessor of `n`.
#[derive(Debug, PartialEq, Eq)]
pub struct PD0(pub Box<Term>);

/// The predecessor of `n` applied to `f`.
#[derive(Debug, PartialEq, Eq)]
pub struct PD1(pub Box<Term>, pub Box<Term>);

/// `λ g. λ h. h (g f)` with `f` given.
#[derive(Debug, PartialEq, Eq)]
pub struct PD2(pub Box<Term>);

/// `λ h. h (g f)` with `f` and `g` given.
#[derive(Debug, PartialEq, Eq)]
pub struct PD3(pub Box<Term>, pub Box<Term>);

/// Subtraction: `λ m. λ n. n Dec m`.
#[derive(Debug, Clone, Copy, PartialEq, Eq)]
pub struct TSub;

/// Multiplication: `λ m. λ n. λ f. m (n f)`.
#[derive(Debug, Clone, Copy, PartialEq, Eq)]
pub struct TMul;

/// Multiplication after `m`.
#[derive(Debug, PartialEq, Eq)]
pub struct X(pub Box<Term>);

/// The product of `m` and `n`: `λ f. m (n f)`.
#[derive(Debug, PartialEq, Eq)]
pub struct XX(pub Box<Term>, pub Box<Term>);

/// Substitution: `λ x. λ y. λ z. x z (y z)`.
#[derive(Debug, Clone, Copy, PartialEq, Eq)]
pub struct S;

/// Substitution after `x`.
#[derive(Debug, PartialEq, Eq)]
pub struct SS(pub Box<Term>);

/// Substitution after `x` and `y`: `λ z. x z (y z)`.
#[derive(Debug, PartialEq, Eq)]
pub struct SSS(pub Box<Term>, pub Box<Term>);

/// The fixed-point combinator for strict evaluation (the `Z` combinator):
/// `λ f. (λ x. f (λ v. x x v)) (λ x. f (λ v. x x v))`.
#[derive(Debug, Clone, Copy, PartialEq, Eq)]
pub struct Fix;

/// `λ x. f (λ v. x x v)` with `f` given.
#[derive(Debug, PartialEq, Eq)]
pub struct ZF(pub Box<Term>);

/// `λ v. x x v` with `x` given.
#[derive(Debug, PartialEq, Eq)]
pub struct ZX(pub Box<Term>);

/// A value of the calculus.
#[derive(Debug, PartialEq, Eq)]
pub enum Term {
    Cap0(Cap0),
    CountZero(CountZero),
    Counter(Counter),
    CalcCount(CalcCount),
    Type(Type),
    Id(Id),
    True(True),
    Z(Z),
    BoolTrue(bool_private::True),
    BoolFalse(bool_private::False),
    TIsZero(TIsZero),
    IZ(IZ),
    TInc(TInc),
    Inc(inc_private::I),
    IncF(inc_private::II),
    TAdd(TAdd),
    A(A),
    AA(AA),
    AAA(AAA),
    TPreDec(TPreDec),
    PD0(PD0),
    PD1(PD1),
    PD2(PD2),
    PD3(PD3),
    TSub(TSub),
    SubS(sub_private::S),
    TMul(TMul),
    X(X),
    XX(XX),
    S(S),
    SS(SS),
    SSS(SSS),
    Fix(Fix),
    ZF(ZF),
    ZX(ZX),
}

/// The size in bytes that the value would occupy: one byte per [`Tick`],
/// nothing else.
pub open spec fn term_size(t: Term) -> nat
    decreases t,
{
    match t {
        Term::Cap0(c) => term_size(*c.0),
        Term::Counter(c) => tally_size(c.0),
        Term::BoolTrue(b) => term_size(*b.0),
        Term::Inc(n) => term_size(*n.0),
        Term::IncF(n) => term_size(*n.0) + term_size(*n.1),
        Term::A(n) => term_size(*n.0),
        Term::AA(n) => term_size(*n.0) + term_size(*n.1),
        Term::AAA(n) => term_size(*n.0) + term_size(*n.1) + term_size(*n.2),
        Term::PD0(n) => term_size(*n.0),
        Term::PD1(n) => term_size(*n.0) + term_size(*n.1),
        Term::PD2(n) => term_size(*n.0),
        Term::PD3(n) => term_size(*n.0) + term_size(*n.1),
        Term::SubS(n) => term_size(*n.0),
        Term::X(n) => term_size(*n.0),
        Term::XX(n) => term_size(*n.0) + term_size(*n.1),
        Term::SS(n) => term_size(*n.0),
        Term::SSS(n) => term_size(*n.0) + term_size(*n.1),
        Term::ZF(n) => term_size(*n.0),
        Term::ZX(n) => term_size(*n.0),
        _ => 0,
    }
}

/// The size in bytes of a tally.
pub open spec fn tally_size(t: Tally) -> nat
    decreases t,
{
    match t {
        Tally::Tick(_) => 1,
        Tally::Pair(a, x) => tally_size(*a) + term_size(*x),
    }
}


/// The counter that [`CalcCount`] starts from: a single tick.
pub open spec fn counter_start() -> Term {
    Term::Counter(Counter(Tally::Tick(Tick::One)))
}

/// The Church numeral `n`: `Zero` with `Inc` applied `n` times.
pub open spec fn church(n: nat) -> Term
    decreases n,
{
    if n == 0 {
        Term::Z(Z)
    } else {
        Term::Inc(inc_private::I(Box::new(church((n - 1) as nat))))
    }
}

/// The Church boolean for `b`: [`True`] or [`Z`] (which is `False`).
pub open spec fn church_bool(b: bool) -> Term {
    if b {
        Term::True(True)
    } else {
        Term::Z(Z)
    }
}

/// The counter whose value is `n`: [`CountZero`] with [`counter_start`]
/// applied `n` times.
pub open spec fn counter_term(n: nat) -> Term
    decreases n,
{
    if n == 0 {
        Term::CountZero(CountZero)
    } else {
        Term::Counter(
            Counter(Tally::Pair(Box::new(Tally::Tick(Tick::One)), Box::new(counter_term((n - 1) as nat)))),
        )
    }
}

/// `t` with `Dec` applied `n` times.
pub open spec fn dec_pow(n: nat, t: Term) -> Term
    decreases n,
{
    if n == 0 {
        t
    } else {
        Term::PD0(PD0(Box::new(dec_pow((n - 1) as nat, t))))
    }
}

/// Applies `f` to `x`, evaluating strictly, with at most `fuel` nested
/// applications. `None` means that the fuel ran out.
pub open spec fn eval(f: Term, x: Term, fuel: nat) -> Option<Term>
    decreases fuel,
{
    if fuel == 0 {
        None
    } else {
        let k = (fuel - 1) as nat;
        match f {
            Term::Cap0(c) => Some(*c.0),
            Term::CountZero(_) => Some(Term::CountZero(CountZero)),
            Term::Counter(c) => Some(
                Term::Counter(Counter(Tally::Pair(Box::new(c.0), Box::new(x)))),
            ),
            Term::CalcCount(_) => match eval(x, counter_start(), k) {
                Some(g) => eval(g, Term::CountZero(CountZero), k),
                None => None,
            },
            Term::Type(t) => Some(Term::Type(t)),
            Term::Id(_) => Some(x),
            Term::True(_) => Some(Term::BoolTrue(bool_private::True(Box::new(x)))),
            Term::Z(_) => Some(Term::BoolFalse(bool_private::False)),
            Term::BoolTrue(b) => Some(*b.0),
            Term::BoolFalse(_) => Some(x),
            Term::TIsZero(_) => match eval(x, Term::IZ(IZ), k) {
                Some(g) => eval(g, Term::True(True), k),
                None => None,
            },
            Term::IZ(_) => Some(Term::Z(Z)),
            Term::TInc(_) => Some(Term::Inc(inc_private::I(Box::new(x)))),
            Term::Inc(n) => Some(Term::IncF(inc_private::II(n.0, Box::new(x)))),
            Term::IncF(n) => match eval(*n.0, *n.1, k) {
                Some(g) => match eval(g, x, k) {
                    Some(y) => eval(*n.1, y, k),
                    None => None,
                },
                None => None,
            },
            Term::TAdd(_) => Some(Term::A(A(Box::new(x)))),
            Term::A(m) => Some(Term::AA(AA(m.0, Box::new(x)))),
            Term::AA(m) => Some(Term::AAA(AAA(m.0, m.1, Box::new(x)))),
            Term::AAA(m) => match eval(*m.0, *m.2, k) {
                Some(p) => match eval(*m.1, *m.2, k) {
                    Some(q) => match eval(q, x, k) {
                        Some(w) => eval(p, w, k),
                        None => None,
                    },
                    None => None,
                },
                None => None,
            },
            Term::TPreDec(_) => Some(Term::PD0(PD0(Box::new(x)))),
            Term::PD0(n) => Some(Term::PD1(PD1(n.0, Box::new(x)))),
            Term::PD1(n) => match eval(*n.0, Term::PD2(PD2(n.1)), k) {
                Some(a) => match eval(a, Term::Cap0(Cap0(Box::new(x))), k) {
                    Some(b) => eval(b, Term::Id(Id), k),
                    None => None,
                },
                None => None,
            },
            Term::PD2(n) => Some(Term::PD3(PD3(n.0, Box::new(x)))),
            Term::PD3(n) => match eval(*n.1, *n.0, k) {
                Some(a) => eval(x, a, k),
                None => None,
            },
            Term::TSub(_) => Some(Term::SubS(sub_private::S(Box::new(x)))),
            Term::SubS(m) => match eval(x, Term::TPreDec(TPreDec), k) {
                Some(a) => eval(a, *m.0, k),
                None => None,
            },
            Term::TMul(_) => Some(Term::X(X(Box::new(x)))),
            Term::X(m) => Some(Term::XX(XX(m.0, Box::new(x)))),
            Term::XX(m) => match eval(*m.1, x, k) {
                Some(a) => eval(*m.0, a, k),
                None => None,
            },
            Term::S(_) => Some(Term::SS(SS(Box::new(x)))),
            Term::SS(a) => Some(Term::SSS(SSS(a.0, Box::new(x)))),
            Term::SSS(a) => match eval(*a.0, x, k) {
                Some(p) => match eval(*a.1, x, k) {
                    Some(q) => eval(p, q, k),
                    None => None,
                },
                None => None,
            },
            Term::Fix(_) => eval(Term::ZF(ZF(Box::new(x))), Term::ZF(ZF(Box::new(x))), k),
            Term::ZF(f) => eval(*f.0, Term::ZX(ZX(Box::new(x))), k),
            Term::ZX(w) => match eval(*w.0, *w.0, k) {
                Some(a) => eval(a, x, k),
                None => None,
            },
        }
    }
}

/// The type that a term stores: the identifier held by a [`Type`], or `None`
/// (the unit type) for every other term.
pub open spec fn stored(t: Term) -> Option<u64> {
    match t {
        Term::Type(ty) => Some(ty.0),
        _ => None,
    }
}

/// Applies the result `r` of an earlier evaluation, if there is one, to `x`.
pub open spec fn then_eval(r: Option<Term>, x: Term, fuel: nat) -> Option<Term> {
    match r {
        Some(g) => eval(g, x, fuel),
        None => None,
    }
}

/// `f` applied to `a`, then the result applied to `b`.
pub open spec fn eval2(f: Term, a: Term, b: Term, fuel: nat) -> Option<Term> {
    then_eval(eval(f, a, fuel), b, fuel)
}

/// `Count<x>`: `CalcCount` applied to `x`.
pub open spec fn count_at(x: Term, fuel: nat) -> Option<Term> {
    eval(Term::CalcCount(CalcCount), x, fuel)
}

/// `If<c, t, e>`: `c t e`.
pub open spec fn if_at(c: Term, t: Term, e: Term, fuel: nat) -> Option<Term> {
    eval2(c, t, e, fuel)
}

/// `Not<b>`: `If<b, False, True>`.
pub open spec fn not_at(b: Term, fuel: nat) -> Option<Term> {
    if_at(b, Term::Z(Z), Term::True(True), fuel)
}

/// `And<a, b>`: `a b False`.
pub open spec fn and_at(a: Term, b: Term, fuel: nat) -> Option<Term> {
    eval2(a, b, Term::Z(Z), fuel)
}

/// `Or<a, b>`: `a True b`.
pub open spec fn or_at(a: Term, b: Term, fuel: nat) -> Option<Term> {
    eval2(a, Term::True(True), b, fuel)
}

/// `IsZero<n>`: `TIsZero` applied to `n`.
pub open spec fn is_zero_at(n: Term, fuel: nat) -> Option<Term> {
    eval(Term::TIsZero(TIsZero), n, fuel)
}

/// `Sub<a, b>`: `TSub a b`.
pub open spec fn minus_at(a: Term, b: Term, fuel: nat) -> Option<Term> {
    eval2(Term::TSub(TSub), a, b, fuel)
}

/// `IsEq<a, b>`: `And<IsZero<Sub<a, b>>, IsZero<Sub<b, a>>>`.
pub open spec fn is_eq_at(a: Term, b: Term, fuel: nat) -> Option<Term> {
    match minus_at(a, b, fuel) {
        Some(d1) => match is_zero_at(d1, fuel) {
            Some(z1) => match minus_at(b, a, fuel) {
                Some(d2) => match is_zero_at(d2, fuel) {
                    Some(z2) => and_at(z1, z2, fuel),
                    None => None,
                },
                None => None,
            },
            None => None,
        },
        None => None,
    }
}

/// `Ss<x, y, z>`: `S x y z`.
pub open spec fn ss_at(x: Term, y: Term, z: Term, fuel: nat) -> Option<Term> {
    then_eval(eval2(Term::S(S), x, y, fuel), z, fuel)
}

impl Tally {
    /// A copy of the tally.
    pub fn copied(&self) -> (r: Tally)
        ensures
            r == *self,
        decreases *self,
    {
        match self {
            Tally::Tick(t) => Tally::Tick(*t),
            Tally::Pair(a, x) => Tally::Pair(Box::new(a.copied()), Box::new(x.copied())),
        }
    }
}

impl Term {
    /// A copy of the term.
    pub fn copied(&self) -> (r: Term)
        ensures
            r == *self,
        decreases *self,
    {
        match self {
            Term::Cap0(c) => Term::Cap0(Cap0(Box::new(c.0.copied()))),
            Term::CountZero(_) => Term::CountZero(CountZero),
            Term::Counter(c) => Term::Counter(Counter(c.0.copied())),
            Term::CalcCount(_) => Term::CalcCount(CalcCount),
            Term::Type(t) => Term::Type(Type(t.0)),
            Term::Id(_) => Term::Id(Id),
            Term::True(_) => Term::True(True),
            Term::Z(_) => Term::Z(Z),
            Term::BoolTrue(b) => Term::BoolTrue(bool_private::True(Box::new(b.0.copied()))),
            Term::BoolFalse(_) => Term::BoolFalse(bool_private::False),
            Term::TIsZero(_) => Term::TIsZero(TIsZero),
            Term::IZ(_) => Term::IZ(IZ),
            Term::TInc(_) => Term::TInc(TInc),
            Term::Inc(n) => Term::Inc(inc_private::I(Box::new(n.0.copied()))),
            Term::IncF(n) => Term::IncF(inc_private::II(Box::new(n.0.copied()), Box::new(n.1.copied()))),
            Term::TAdd(_) => Term::TAdd(TAdd),
            Term::A(n) => Term::A(A(Box::new(n.0.copied()))),
            Term::AA(n) => Term::AA(AA(Box::new(n.0.copied()), Box::new(n.1.copied()))),
            Term::AAA(n) => Term::AAA(
                AAA(Box::new(n.0.copied()), Box::new(n.1.copied()), Box::new(n.2.copied())),
            ),
            Term::TPreDec(_) => Term::TPreDec(TPreDec),
            Term::PD0(n) => Term::PD0(PD0(Box::new(n.0.copied()))),
            Term::PD1(n) => Term::PD1(PD1(Box::new(n.0.copied()), Box::new(n.1.copied()))),
            Term::PD2(n) => Term::PD2(PD2(Box::new(n.0.copied()))),
            Term::PD3(n) => Term::PD3(PD3(Box::new(n.0.copied()), Box::new(n.1.copied()))),
            Term::TSub(_) => Term::TSub(TSub),
            Term::SubS(n) => Term::SubS(sub_private::S(Box::new(n.0.copied()))),
            Term::TMul(_) => Term::TMul(TMul),
            Term::X(n) => Term::X(X(Box::new(n.0.copied()))),
            Term::XX(n) => Term::XX(XX(Box::new(n.0.copied()), Box::new(n.1.copied()))),
            Term::S(_) => Term::S(S),
            Term::SS(n) => Term::SS(SS(Box::new(n.0.copied()))),
            Term::SSS(n) => Term::SSS(SSS(Box::new(n.0.copied()), Box::new(n.1.copied()))),
            Term::Fix(_) => Term::Fix(Fix),
            Term::ZF(n) => Term::ZF(ZF(Box::new(n.0.copied()))),
            Term::ZX(n) => Term::ZX(ZX(Box::new(n.0.copied()))),
        }
    }
}

impl Term {
    /// Applies `self` to `x` with at most `fuel` nested applications: the
    /// result of the combinator's reduction rule, or `None` when the fuel
    /// runs out first.
    pub fn apply(&self, x: &Term, fuel: u64) -> (r: Option<Term>)
        ensures
            r == eval(*self, *x, fuel as nat),
        decreases fuel,
    {
        if fuel == 0 {
            return None;
        }
        let k = fuel - 1;
        match self {
            Term::Cap0(c) => Some(c.0.copied()),
            Term::CountZero(_) => Some(Term::CountZero(CountZero)),
            Term::Counter(c) => Some(
                Term::Counter(Counter(Tally::Pair(Box::new(c.0.copied()), Box::new(x.copied())))),
            ),
            Term::CalcCount(_) => {
                let g = x.apply(&Term::Counter(Counter(Tally::Tick(Tick::One))), k)?;
                g.apply(&Term::CountZero(CountZero), k)
            },
            Term::Type(t) => Some(Term::Type(Type(t.0))),
            Term::Id(_) => Some(x.copied()),
            Term::True(_) => Some(Term::BoolTrue(bool_private::True(Box::new(x.copied())))),
            Term::Z(_) => Some(Term::BoolFalse(bool_private::False)),
            Term::BoolTrue(b) => Some(b.0.copied()),
            Term::BoolFalse(_) => Some(x.copied()),
            Term::TIsZero(_) => {
                let g = x.apply(&Term::IZ(IZ), k)?;
                g.apply(&Term::True(True), k)
            },
            Term::IZ(_) => Some(Term::Z(Z)),
            Term::TInc(_) => Some(Term::Inc(inc_private::I(Box::new(x.copied())))),
            Term::Inc(n) => Some(Term::IncF(inc_private::II(Box::new(n.0.copied()), Box::new(x.copied())))),
            Term::IncF(n) => {
                let g = n.0.apply(&n.1, k)?;
                let y = g.apply(x, k)?;
                n.1.apply(&y, k)
            },
            Term::TAdd(_) => Some(Term::A(A(Box::new(x.copied())))),
            Term::A(m) => Some(Term::AA(AA(Box::new(m.0.copied()), Box::new(x.copied())))),
            Term::AA(m) => Some(
                Term::AAA(
                    AAA(Box::new(m.0.copied()), Box::new(m.1.copied()), Box::new(x.copied())),
                ),
            ),
            Term::AAA(m) => {
                let p = m.0.apply(&m.2, k)?;
                let q = m.1.apply(&m.2, k)?;
                let w = q.apply(x, k)?;
                p.apply(&w, k)
            },
            Term::TPreDec(_) => Some(Term::PD0(PD0(Box::new(x.copied())))),
            Term::PD0(n) => Some(Term::PD1(PD1(Box::new(n.0.copied()), Box::new(x.copied())))),
            Term::PD1(n) => {
                let a = n.0.apply(&Term::PD2(PD2(Box::new(n.1.copied()))), k)?;
                let b = a.apply(&Term::Cap0(Cap0(Box::new(x.copied()))), k)?;
                b.apply(&Term::Id(Id), k)
            },
            Term::PD2(n) => Some(Term::PD3(PD3(Box::new(n.0.copied()), Box::new(x.copied())))),
            Term::PD3(n) => {
                let a = n.1.apply(&n.0, k)?;
                x.apply(&a, k)
            },
            Term::TSub(_) => Some(Term::SubS(sub_private::S(Box::new(x.copied())))),
            Term::SubS(m) => {
                let a = x.apply(&Term::TPreDec(TPreDec), k)?;
                a.apply(&m.0, k)
            },
            Term::TMul(_) => Some(Term::X(X(Box::new(x.copied())))),
            Term::X(m) => Some(Term::XX(XX(Box::new(m.0.copied()), Box::new(x.copied())))),
            Term::XX(m) => {
                let a = m.1.apply(x, k)?;
                m.0.apply(&a, k)
            },
            Term::S(_) => Some(Term::SS(SS(Box::new(x.copied())))),
            Term::SS(a) => Some(Term::SSS(SSS(Box::new(a.0.copied()), Box::new(x.copied())))),
            Term::SSS(a) => {
                let p = a.0.apply(x, k)?;
                let q = a.1.apply(x, k)?;
                p.apply(&q, k)
            },
            Term::Fix(_) => {
                let zf = Term::ZF(ZF(Box::new(x.copied())));
                zf.apply(&Term::ZF(ZF(Box::new(x.copied()))), k)
            },
            Term::ZF(f) => f.0.apply(&Term::ZX(ZX(Box::new(x.copied()))), k),
            Term::ZX(w) => {
                let a = w.0.apply(&w.0, k)?;
                a.apply(x, k)
            },
        }
    }
}

impl Tally {
    /// The size in bytes of the tally.
    pub fn size(&self) -> (r: usize)
        requires
            tally_size(*self) <= usize::MAX,
        ensures
            r == tally_size(*self),
        decreases *self,
    {
        match self {
            Tally::Tick(_) => 1,
            Tally::Pair(a, x) => a.size() + x.size(),
        }
    }
}

impl Term {
    /// The size in bytes that the value occupies: one byte per [`Tick`].
    pub fn size(&self) -> (r: usize)
        requires
            term_size(*self) <= usize::MAX,
        ensures
            r == term_size(*self),
        decreases *self,
    {
        match self {
            Term::Cap0(c) => c.0.size(),
            Term::BoolTrue(c) => c.0.size(),
            Term::Inc(c) => c.0.size(),
            Term::IncF(c) => c.0.size() + c.1.size(),
            Term::A(c) => c.0.size(),
            Term::AA(c) => c.0.size() + c.1.size(),
            Term::AAA(c) => {
                let a = c.0.size();
                let b = c.1.size();
                a + b + c.2.size()
            },
            Term::PD0(c) => c.0.size(),
            Term::PD1(c) => c.0.size() + c.1.size(),
            Term::PD2(c) => c.0.size(),
            Term::PD3(c) => c.0.size() + c.1.size(),
            Term::SubS(c) => c.0.size(),
            Term::X(c) => c.0.size(),
            Term::XX(c) => c.0.size() + c.1.size(),
            Term::SS(c) => c.0.size(),
            Term::SSS(c) => c.0.size() + c.1.size(),
            Term::ZF(c) => c.0.size(),
            Term::ZX(c) => c.0.size(),
            Term::Counter(c) => c.0.size(),
            _ => 0,
        }
    }
}

impl CountZero {
    /// The value of the zero counter.
    pub fn value(&self) -> (r: usize)
        ensures
            r == 0,
    {
        0
    }
}

impl Counter {
    /// The value of the counter: the number of ticks it holds, that is its
    /// size in bytes.
    pub fn value(&self) -> (r: usize)
        requires
            tally_size(self.0) <= usize::MAX,
        ensures
            r == tally_size(self.0),
    {
        self.0.size()
    }
}

impl Term {
    /// The value of a counter ([`CountZero`] or [`Counter`]).
    pub fn value(&self) -> (r: usize)
        requires
            self is CountZero || self is Counter,
            term_size(*self) <= usize::MAX,
        ensures
            r == term_size(*self),
    {
        match self {
            Term::CountZero(z) => z.value(),
            Term::Counter(c) => c.value(),
            _ => 0,
        }
    }
}

/// `Count<x>`: the counter that the numeral `x` turns into.
pub fn count(x: &Term, fuel: u64) -> (r: Option<Term>)
    ensures
        r == count_at(*x, fuel as nat),
{
    Term::CalcCount(CalcCount).apply(x, fuel)
}

/// `If<c, t, e>`: `t` where `c` is `True`, `e` where it is `False`.
pub fn if_then_else(c: &Term, t: &Term, e: &Term, fuel: u64) -> (r: Option<Term>)
    ensures
        r == if_at(*c, *t, *e, fuel as nat),
{
    let g = c.apply(t, fuel)?;
    g.apply(e, fuel)
}

/// `Not<b>`.
pub fn not(b: &Term, fuel: u64) -> (r: Option<Term>)
    ensures
        r == not_at(*b, fuel as nat),
{
    if_then_else(b, &Term::Z(Z), &Term::True(True), fuel)
}

/// `And<a, b>`.
pub fn and(a: &Term, b: &Term, fuel: u64) -> (r: Option<Term>)
    ensures
        r == and_at(*a, *b, fuel as nat),
{
    let g = a.apply(b, fuel)?;
    g.apply(&Term::Z(Z), fuel)
}

/// `Or<a, b>`.
pub fn or(a: &Term, b: &Term, fuel: u64) -> (r: Option<Term>)
    ensures
        r == or_at(*a, *b, fuel as nat),
{
    let g = a.apply(&Term::True(True), fuel)?;
    g.apply(b, fuel)
}

/// `IsZero<n>`: `True` where `n` is zero, `False` otherwise.
pub fn is_zero(n: &Term, fuel: u64) -> (r: Option<Term>)
    ensures
        r == is_zero_at(*n, fuel as nat),
{
    Term::TIsZero(TIsZero).apply(n, fuel)
}

/// `Sub<a, b>`: `a` with `Dec` applied `b` times.
pub fn minus(a: &Term, b: &Term, fuel: u64) -> (r: Option<Term>)
    ensures
        r == minus_at(*a, *b, fuel as nat),
{
    let g = Term::TSub(TSub).apply(a, fuel)?;
    g.apply(b, fuel)
}

/// `IsEq<a, b>`: `True` where the numerals are equal, `False` otherwise.
pub fn is_eq(a: &Term, b: &Term, fuel: u64) -> (r: Option<Term>)
    ensures
        r == is_eq_at(*a, *b, fuel as nat),
{
    let d1 = minus(a, b, fuel)?;
    let z1 = is_zero(&d1, fuel)?;
    let d2 = minus(b, a, fuel)?;
    let z2 = is_zero(&d2, fuel)?;
    and(&z1, &z2, fuel)
}

/// `Ss<x, y, z>`: substitution, `x z (y z)`.
pub fn ss(x: &Term, y: &Term, z: &Term, fuel: u64) -> (r: Option<Term>)
    ensures
        r == ss_at(*x, *y, *z, fuel as nat),
{
    let g = Term::S(S).apply(x, fuel)?;
    let h = g.apply(y, fuel)?;
    h.apply(z, fuel)
}

/// `Inc<n>`: the successor of `n`, reached in one application of `TInc`.
pub fn inc(n: Term) -> (r: Term)
    ensures
        r == Term::Inc(inc_private::I(Box::new(n))),
        eval(Term::TInc(TInc), n, 1) == Some(r),
{
    Term::Inc(inc_private::I(Box::new(n)))
}

/// `Dec<n>`: the predecessor of `n`, reached in one application of
/// `TPreDec`.
pub fn dec(n: Term) -> (r: Term)
    ensures
        r == Term::PD0(PD0(Box::new(n))),
        eval(Term::TPreDec(TPreDec), n, 1) == Some(r),
{
    Term::PD0(PD0(Box::new(n)))
}

/// `Add<a, b>`: the sum of `a` and `b`, reached by applying `TAdd` to both.
pub fn plus(a: Term, b: Term) -> (r: Term)
    ensures
        r == Term::AA(AA(Box::new(a), Box::new(b))),
        eval2(Term::TAdd(TAdd), a, b, 1) == Some(r),
{
    Term::AA(AA(Box::new(a), Box::new(b)))
}

/// `Mul<a, b>`: the product of `a` and `b`, reached by applying `TMul` to
/// both.
pub fn times(a: Term, b: Term) -> (r: Term)
    ensures
        r == Term::XX(XX(Box::new(a), Box::new(b))),
        eval2(Term::TMul(TMul), a, b, 1) == Some(r),
{
    Term::XX(XX(Box::new(a), Box::new(b)))
}

/// The Church numeral `n`: `Zero` with `Inc` applied `n` times (`Zero`,
/// `One`, ..., `Ten` are the first of them).
pub fn numeral(n: u64) -> (r: Term)
    ensures
        r == church(n as nat),
{
    let mut t = Term::Z(Z);
    let mut i: u64 = 0;
    while i < n
        invariant
            i <= n,
            t == church(i as nat),
        decreases n - i,
    {
        t = inc(t);
        i = i + 1;
    }
    t
}

impl Term {
    /// The type that the term stores: the identifier held by a [`Type`], or
    /// `None` (the unit type) for every other term.
    pub fn stored_type(&self) -> (r: Option<u64>)
        ensures
            r == stored(*self),
    {
        match self {
            Term::Type(t) => Some(t.0),
            _ => None,
        }
    }
}

/// A value of the calculus: it can be applied to an argument, and it may
/// store a type. Every combinator is one, as is every [`Term`].
pub trait Lambda: Sized {
    /// The value as a term.
    spec fn as_term(self) -> Term;

    /// The value as a term.
    fn to_term(self) -> (r: Term)
        ensures
            r == self.as_term(),
    ;

    /// The value applied to `x`, with at most `fuel` nested applications.
    fn apply_to(self, x: &Term, fuel: u64) -> (r: Option<Term>)
        ensures
            r == eval(self.as_term(), *x, fuel as nat),
    {
        self.to_term().apply(x, fuel)
    }

    /// The type that the value stores (`None` for the unit type).
    fn stored_type_of(self) -> (r: Option<u64>)
        ensures
            r == stored(self.as_term()),
    {
        self.to_term().stored_type()
    }
}

impl Lambda for Term {
    open spec fn as_term(self) -> Term {
        self
    }

    fn to_term(self) -> (r: Term) {
        self
    }
}

impl Lambda for Cap0 {
    open spec fn as_term(self) -> Term {
        Term::Cap0(self)
    }

    fn to_term(self) -> (r: Term) {
        Term::Cap0(self)
    }
}

impl Lambda for CountZero {
    open spec fn as_term(self) -> Term {
        Term::CountZero(self)
    }

    fn to_term(self) -> (r: Term) {
        Term::CountZero(self)
    }
}

impl Lambda for Counter {
    open spec fn as_term(self) -> Term {
        Term::Counter(self)
    }

    fn to_term(self) -> (r: Term) {
        Term::Counter(self)
    }
}

impl Lambda for CalcCount {
    open spec fn as_term(self) -> Term {
        Term::CalcCount(self)
    }

    fn to_term(self) -> (r: Term) {
        Term::CalcCount(self)
    }
}

impl Lambda for Type {
    open spec fn as_term(self) -> Term {
        Term::Type(self)
    }

    fn to_term(self) -> (r: Term) {
        Term::Type(self)
    }
}

impl Lambda for Id {
    open spec fn as_term(self) -> Term {
        Term::Id(self)
    }

    fn to_term(self) -> (r: Term) {
        Term::Id(self)
    }
}

impl Lambda for True {
    open spec fn as_term(self) -> Term {
        Term::True(self)
    }

    fn to_term(self) -> (r: Term) {
        Term::True(self)
    }
}

impl Lambda for Z {
    open spec fn as_term(self) -> Term {
        Term::Z(self)
    }

    fn to_term(self) -> (r: Term) {
        Term::Z(self)
    }
}

impl Lambda for bool_private::True {
    open spec fn as_term(self) -> Term {
        Term::BoolTrue(self)
    }

    fn to_term(self) -> (r: Term) {
        Term::BoolTrue(self)
    }
}

impl Lambda for bool_private::False {
    open spec fn as_term(self) -> Term {
        Term::BoolFalse(self)
    }

    fn to_term(self) -> (r: Term) {
        Term::BoolFalse(self)
    }
}

impl Lambda for TIsZero {
    open spec fn as_term(self) -> Term {
        Term::TIsZero(self)
    }

    fn to_term(self) -> (r: Term) {
        Term::TIsZero(self)
    }
}

impl Lambda for IZ {
    open spec fn as_term(self) -> Term {
        Term::IZ(self)
    }

    fn to_term(self) -> (r: Term) {
        Term::IZ(self)
    }
}

impl Lambda for TInc {
    open spec fn as_term(self) -> Term {
        Term::TInc(self)
    }

    fn to_term(self) -> (r: Term) {
        Term::TInc(self)
    }
}

impl Lambda for inc_private::I {
    open spec fn as_term(self) -> Term {
        Term::Inc(self)
    }

    fn to_term(self) -> (r: Term) {
        Term::Inc(self)
    }
}

impl Lambda for inc_private::II {
    open spec fn as_term(self) -> Term {
        Term::IncF(self)
    }

    fn to_term(self) -> (r: Term) {
        Term::IncF(self)
    }
}

impl Lambda for TAdd {
    open spec fn as_term(self) -> Term {
        Term::TAdd(self)
    }

    fn to_term(self) -> (r: Term) {
        Term::TAdd(self)
    }
}

impl Lambda for A {
    open spec fn as_term(self) -> Term {
        Term::A(self)
    }

    fn to_term(self) -> (r: Term) {
        Term::A(self)
    }
}

impl Lambda for AA {
    open spec fn as_term(self) -> Term {
        Term::AA(self)
    }

    fn to_term(self) -> (r: Term) {
        Term::AA(self)
    }
}

impl Lambda for AAA {
    open spec fn as_term(self) -> Term {
        Term::AAA(self)
    }

    fn to_term(self) -> (r: Term) {
        Term::AAA(self)
    }
}

impl Lambda for TPreDec {
    open spec fn as_term(self) -> Term {
        Term::TPreDec(self)
    }

    fn to_term(self) -> (r: Term) {
        Term::TPreDec(self)
    }
}

impl Lambda for PD0 {
    open spec fn as_term(self) -> Term {
        Term::PD0(self)
    }

    fn to_term(self) -> (r: Term) {
        Term::PD0(self)
    }
}

impl Lambda for PD1 {
    open spec fn as_term(self) -> Term {
        Term::PD1(self)
    }

    fn to_term(self) -> (r: Term) {
        Term::PD1(self)
    }
}

impl Lambda for PD2 {
    open spec fn as_term(self) -> Term {
        Term::PD2(self)
    }

    fn to_term(self) -> (r: Term) {
        Term::PD2(self)
    }
}

impl Lambda for PD3 {
    open spec fn as_term(self) -> Term {
        Term::PD3(self)
    }

    fn to_term(self) -> (r: Term) {
        Term::PD3(self)
    }
}

impl Lambda for TSub {
    open spec fn as_term(self) -> Term {
        Term::TSub(self)
    }

    fn to_term(self) -> (r: Term) {
        Term::TSub(self)
    }
}

impl Lambda for sub_private::S {
    open spec fn as_term(self) -> Term {
        Term::SubS(self)
    }

    fn to_term(self) -> (r: Term) {
        Term::SubS(self)
    }
}

impl Lambda for TMul {
    open spec fn as_term(self) -> Term {
        Term::TMul(self)
    }

    fn to_term(self) -> (r: Term) {
        Term::TMul(self)
    }
}

impl Lambda for X {
    open spec fn as_term(self) -> Term {
        Term::X(self)
    }

    fn to_term(self) -> (r: Term) {
        Term::X(self)
    }
}

impl Lambda for XX {
    open spec fn as_term(self) -> Term {
        Term::XX(self)
    }

    fn to_term(self) -> (r: Term) {
        Term::XX(self)
    }
}

impl Lambda for S {
    open spec fn as_term(self) -> Term {
        Term::S(self)
    }

    fn to_term(self) -> (r: Term) {
        Term::S(self)
    }
}

impl Lambda for SS {
    open spec fn as_term(self) -> Term {
        Term::SS(self)
    }

    fn to_term(self) -> (r: Term) {
        Term::SS(self)
    }
}

impl Lambda for SSS {
    open spec fn as_term(self) -> Term {
        Term::SSS(self)
    }

    fn to_term(self) -> (r: Term) {
        Term::SSS(self)
    }
}

impl Lambda for Fix {
    open spec fn as_term(self) -> Term {
        Term::Fix(self)
    }

    fn to_term(self) -> (r: Term) {
        Term::Fix(self)
    }
}

impl Lambda for ZF {
    open spec fn as_term(self) -> Term {
        Term::ZF(self)
    }

    fn to_term(self) -> (r: Term) {
        Term::ZF(self)
    }
}

impl Lambda for ZX {
    open spec fn as_term(self) -> Term {
        Term::ZX(self)
    }

    fn to_term(self) -> (r: Term) {
        Term::ZX(self)
    }
}

} // verus!
