//! Partial construction of a value, one field at a time, each field at
//! most once.
//!
//! A chain of pending fields ([`FieldChain`]) is wrapped around the value
//! under construction ([`CtorThis`]). Each field is identified by a numeral
//! of the calculus in [`lambda`]; marking a field as written ([`CtorChain::done`])
//! finds it by comparing identifiers with `IsEq` and takes it off the chain,
//! so that it cannot be written again. [`meta`] adds type selection on top
//! of the calculus.

use vstd::prelude::*;
use crate::lambda::{church_bool, is_eq, is_eq_at, Term, True, Z};
use crate::lambda::laws::{law_is_eq, represents, settled_from};
use crate::lambda::bounds::{law_is_eq_within, represents_within};

pub mod lambda;
pub mod meta;

verus! {

/// A field of a type under construction.
pub trait Field {
    /// The type of the field's value.
    type Type;

    /// The identifier of the field: a numeral of the calculus.
    spec fn spec_id() -> Term;

    /// The identifier of the field.
    fn id() -> (r: Term)
        ensures
            r == Self::spec_id(),
    ;
}

/// What marking a field as written found.
#[derive(Debug, PartialEq, Eq)]
pub enum Current {
    /// The pending field with this identifier, now written.
    Field(Term),
    /// No pending field has the identifier.
    Nothing,
    /// An identifier comparison did not give `True` or `False` within the
    /// fuel.
    Undecided,
}

/// Where the first pending identifier equal to `n` (by `IsEq`) stands in
/// `ids`: `Some(Some(i))` at index `i`, `Some(None)` nowhere, `None` where a
/// comparison before it gives neither `True` nor `False`.
pub open spec fn search(ids: Seq<Term>, n: Term, fuel: nat) -> Option<Option<nat>>
    decreases ids.len(),
{
    if ids.len() == 0 {
        Some(None)
    } else if is_eq_at(n, ids[0], fuel) == Some(Term::True(True)) {
        Some(Some(0))
    } else if is_eq_at(n, ids[0], fuel) == Some(Term::Z(Z)) {
        match search(ids.drop_first(), n, fuel) {
            Some(Some(i)) => Some(Some(i + 1)),
            other => other,
        }
    } else {
        None
    }
}

/// A field that the search finds stands in the identifiers.
pub proof fn law_search_in_bounds(ids: Seq<Term>, n: Term, fuel: nat)
    ensures
        search(ids, n, fuel) matches Some(Some(i)) ==> i < ids.len(),
    decreases ids.len(),
{
    if ids.len() > 0 {
        law_search_in_bounds(ids.drop_first(), n, fuel);
    }
}

/// The index of the first `k` in `vals`.
pub open spec fn first_index(vals: Seq<nat>, k: nat) -> Option<nat>
    decreases vals.len(),
{
    if vals.len() == 0 {
        None
    } else if vals[0] == k {
        Some(0)
    } else {
        match first_index(vals.drop_first(), k) {
            Some(i) => Some(i + 1),
            None => None,
        }
    }
}

/// Over identifiers that are numerals, the search finds the first field
/// with the number sought: from the fuel `k0` on it gives that field's index
/// (or `Some(None)` where there is none), and with any fuel it gives that or
/// `None`.
pub proof fn law_search_numerals(ids: Seq<Term>, vals: Seq<nat>, n: Term, k: nat) -> (k0: nat)
    requires
        ids.len() == vals.len(),
        forall|j: int| 0 <= j < ids.len() ==> represents(#[trigger] ids[j], vals[j]),
        represents(n, k),
    ensures
        forall|fuel: nat| fuel >= k0 ==> #[trigger] search(ids, n, fuel) == Some(first_index(vals, k)),
        forall|fuel: nat| #[trigger] search(ids, n, fuel) is Some ==> search(ids, n, fuel) == Some(first_index(vals, k)),
    decreases ids.len(),
{
    if ids.len() == 0 {
        0
    } else {
        let tail = ids.drop_first();
        let vtail = vals.drop_first();
        assert forall|j: int| 0 <= j < tail.len() implies represents(#[trigger] tail[j], vtail[j]) by {
            assert(tail[j] == ids[j + 1]);
        }
        let k2 = law_search_numerals(tail, vtail, n, k);
        assert(represents(ids[0], vals[0]));
        law_is_eq(n, ids[0], k, vals[0]);
        let at = |f: nat| is_eq_at(n, ids[0], f);
        let b = church_bool(k == vals[0]);
        let k1 = choose|k0: nat| settled_from(at, b, k0);
        assert forall|fuel: nat| fuel >= k1 + k2 implies #[trigger] search(ids, n, fuel) == Some(first_index(vals, k)) by {
            assert(at(fuel) == Some(b));
            assert(search(tail, n, fuel) == Some(first_index(vtail, k)));
        }
        assert forall|fuel: nat| #[trigger] search(ids, n, fuel) is Some implies search(ids, n, fuel) == Some(first_index(vals, k)) by {
            if is_eq_at(n, ids[0], fuel) is Some {
                assert(at(fuel) is Some);
                assert(at(fuel) == Some(b));
                if k != vals[0] {
                    assert(search(tail, n, fuel) is Some);
                }
            }
        }
        k1 + k2
    }
}

/// The index that [`first_index`] gives holds the number sought.
pub proof fn law_first_index_holds(vals: Seq<nat>, k: nat)
    ensures
        first_index(vals, k) matches Some(i) ==> i < vals.len() && vals[i as int] == k,
    decreases vals.len(),
{
    if vals.len() > 0 {
        law_first_index_holds(vals.drop_first(), k);
    }
}

/// Among fields with distinct numbers, a field once taken off cannot be
/// found again: each field is written at most once.
pub proof fn law_written_once(vals: Seq<nat>, k: nat)
    requires
        forall|i: int, j: int| 0 <= i < j < vals.len() ==> vals[i] != vals[j],
        first_index(vals, k) is Some,
    ensures
        first_index(vals.remove(first_index(vals, k)->0 as int), k) is None,
{
    law_first_index_holds(vals, k);
    let i = first_index(vals, k)->0 as int;
    let rest = vals.remove(i);
    law_first_index_holds(rest, k);
    if first_index(rest, k) is Some {
        let j = first_index(rest, k)->0 as int;
        if j < i {
            assert(rest[j] == vals[j]);
        } else {
            assert(rest[j] == vals[j + 1]);
        }
    }
}

/// Once the field with the number sought is taken off a chain whose
/// identifiers are numerals with distinct numbers, no field with that number
/// is left to find: from the fuel `k0` on the search gives `Some(None)`, and
/// with any fuel it gives that or `None`. Each field is written at most once.
pub proof fn law_taken_off_once(ids: Seq<Term>, vals: Seq<nat>, n: Term, k: nat) -> (k0: nat)
    requires
        ids.len() == vals.len(),
        forall|j: int| 0 <= j < ids.len() ==> represents(#[trigger] ids[j], vals[j]),
        forall|i: int, j: int| 0 <= i < j < vals.len() ==> vals[i] != vals[j],
        represents(n, k),
        first_index(vals, k) is Some,
    ensures
        forall|fuel: nat| fuel >= k0 ==> #[trigger] search(ids.remove(first_index(vals, k)->0 as int), n, fuel)
            == Some(None::<nat>),
        forall|fuel: nat| #[trigger] search(ids.remove(first_index(vals, k)->0 as int), n, fuel) is Some
            ==> search(ids.remove(first_index(vals, k)->0 as int), n, fuel) == Some(None::<nat>),
{
    law_first_index_holds(vals, k);
    law_written_once(vals, k);
    let i = first_index(vals, k)->0 as int;
    let rids = ids.remove(i);
    let rvals = vals.remove(i);
    assert forall|j: int| 0 <= j < rids.len() implies represents(#[trigger] rids[j], rvals[j]) by {
        if j < i {
            assert(rids[j] == ids[j] && rvals[j] == vals[j]);
        } else {
            assert(rids[j] == ids[j + 1] && rvals[j] == vals[j + 1]);
        }
    }
    law_search_numerals(rids, rvals, n, k)
}

/// The fuel from which on the search over identifiers that are numerals
/// up to `s`, each with overhead `c`, is sure to be decided.
pub open spec fn search_fuel(c: nat, s: nat) -> nat {
    2 * c + 2 * (s * (s + 2)) + 2
}

/// Over identifiers that are numerals up to `s`, with overhead `c`, the
/// search gives the index of the first field with the number sought (or
/// `Some(None)` where there is none) with any fuel from `search_fuel(c, s)`
/// on.
pub proof fn law_search_within(ids: Seq<Term>, vals: Seq<nat>, n: Term, k: nat, c: nat, s: nat, fuel: nat)
    requires
        ids.len() == vals.len(),
        forall|j: int| 0 <= j < ids.len() ==> represents_within(#[trigger] ids[j], vals[j], c),
        forall|j: int| 0 <= j < vals.len() ==> #[trigger] vals[j] <= s,
        represents_within(n, k, c),
        k <= s,
        fuel >= search_fuel(c, s),
    ensures
        search(ids, n, fuel) == Some(first_index(vals, k)),
    decreases ids.len(),
{
    if ids.len() > 0 {
        let tail = ids.drop_first();
        let vtail = vals.drop_first();
        assert forall|j: int| 0 <= j < tail.len() implies represents_within(#[trigger] tail[j], vtail[j], c) by {
            assert(tail[j] == ids[j + 1]);
        }
        assert forall|j: int| 0 <= j < vtail.len() implies #[trigger] vtail[j] <= s by {
            assert(vtail[j] == vals[j + 1]);
        }
        law_search_within(tail, vtail, n, k, c, s, fuel);
        let v0 = vals[0];
        assert(represents_within(ids[0], v0, c));
        assert(v0 * (k + 2) <= s * (s + 2)) by (nonlinear_arith)
            requires
                v0 <= s,
                k <= s,
        ;
        assert(k * (v0 + 2) <= s * (s + 2)) by (nonlinear_arith)
            requires
                v0 <= s,
                k <= s,
        ;
        law_is_eq_within(n, ids[0], k, v0, c, c, fuel);
    }
}

/// Two fields with distinct numbers, `q` outermost and `p` inside, can be
/// taken off in either order: each is found exactly once, and then nothing
/// is left pending, with any fuel from `search_fuel(c, s)` on.
pub proof fn law_two_fields_both_orders(p: Term, q: Term, vp: nat, vq: nat, c: nat, s: nat, fuel: nat)
    requires
        represents_within(p, vp, c),
        represents_within(q, vq, c),
        vp != vq,
        vp <= s,
        vq <= s,
        fuel >= search_fuel(c, s),
    ensures
        search(seq![q, p], p, fuel) == Some(Some(1nat)),
        seq![q, p].remove(1) == seq![q],
        search(seq![q], p, fuel) == Some(None::<nat>),
        search(seq![q], q, fuel) == Some(Some(0nat)),
        search(seq![q, p], q, fuel) == Some(Some(0nat)),
        seq![q, p].remove(0) == seq![p],
        search(seq![p], q, fuel) == Some(None::<nat>),
        search(seq![p], p, fuel) == Some(Some(0nat)),
        seq![q].remove(0) == Seq::<Term>::empty(),
        seq![p].remove(0) == Seq::<Term>::empty(),
{
    let both = seq![q, p];
    let vboth = seq![vq, vp];
    assert(both[0] == q && both[1] == p && vboth[0] == vq && vboth[1] == vp);
    assert(vboth.drop_first() =~= seq![vp]);
    assert(seq![vp].drop_first() =~= Seq::<nat>::empty());
    assert(seq![vq].drop_first() =~= Seq::<nat>::empty());
    assert(first_index(Seq::<nat>::empty(), vp) == None::<nat>);
    assert(first_index(Seq::<nat>::empty(), vq) == None::<nat>);
    assert(first_index(seq![vp], vp) == Some(0nat));
    assert(first_index(seq![vq], vp) == None::<nat>);
    assert(first_index(seq![vq], vq) == Some(0nat));
    assert(first_index(seq![vp], vq) == None::<nat>);
    assert(first_index(vboth, vp) == Some(1nat));
    assert(first_index(vboth, vq) == Some(0nat));
    law_search_within(both, vboth, p, vp, c, s, fuel);
    law_search_within(both, vboth, q, vq, c, s, fuel);
    law_search_within(seq![q], seq![vq], p, vp, c, s, fuel);
    law_search_within(seq![q], seq![vq], q, vq, c, s, fuel);
    law_search_within(seq![p], seq![vp], p, vp, c, s, fuel);
    law_search_within(seq![p], seq![vp], q, vq, c, s, fuel);
    assert(seq![q, p].remove(1) =~= seq![q]);
    assert(seq![q, p].remove(0) =~= seq![p]);
    assert(seq![q].remove(0) =~= Seq::<Term>::empty());
    assert(seq![p].remove(0) =~= Seq::<Term>::empty());
}

/// The identifier at the head of a chain whose pending identifiers are
/// `pending`: the outermost pending one, or `Zero` where none is pending.
pub open spec fn head_of(pending: Seq<Term>) -> Term {
    if pending.len() > 0 {
        pending[0]
    } else {
        Term::Z(Z)
    }
}

/// The target of a construction, and the fields of it still to write.
pub trait CtorTarget {
    /// The type under construction.
    type Target;

    /// The value under construction.
    spec fn target(&self) -> Self::Target;

    /// The identifiers of the fields still to write, outermost first.
    spec fn pending(&self) -> Seq<Term>;

    /// The identifier at the head of the chain: that of the outermost field
    /// still to write, or `Zero` where none is.
    fn id(&self) -> (r: Term)
        ensures
            r == head_of(self.pending()),
    ;

    /// The value under construction.
    fn this(&self) -> (r: &Self::Target)
        ensures
            *r == self.target(),
    ;

    /// The value under construction, to write a field of it.
    fn this_mut(&mut self) -> (r: &mut Self::Target)
        ensures
            *r == old(self).target(),
            final(self).target() == *final(r),
            final(self).pending() == old(self).pending(),
    ;
}

/// A chain from which a written field can be taken off.
pub trait CtorChain: CtorTarget {
    /// Marks the first pending field whose identifier equals `n` as written,
    /// taking it off the pending fields.
    fn done(&mut self, n: &Term, fuel: u64) -> (r: Current)
        ensures
            final(self).target() == old(self).target(),
            match search(old(self).pending(), *n, fuel as nat) {
                Some(Some(i)) => r == Current::Field(old(self).pending()[i as int])
                    && final(self).pending() == old(self).pending().remove(i as int),
                Some(None) => r == Current::Nothing && final(self).pending() == old(self).pending(),
                None => r == Current::Undecided && final(self).pending() == old(self).pending(),
            },
    ;
}

/// A wrapper from which the chain can be taken back.
pub trait TakeChain {
    /// The chain held.
    type Chain;

    /// The chain held.
    spec fn chain(&self) -> Self::Chain;

    /// Gives the chain back.
    fn take_chain(self) -> (r: Self::Chain)
        ensures
            r == self.chain(),
    ;
}

/// The base of a chain: the value under construction, with no field pending.
#[derive(Debug)]
pub struct CtorThis<T> {
    this: T,
}

impl<T> CtorThis<T> {
    /// Starts the construction of `this`.
    pub fn new(this: T) -> (r: Self)
        ensures
            r.target() == this,
            r.pending() == Seq::<Term>::empty(),
    {
        CtorThis { this }
    }

    /// Ends the construction, giving the value back.
    pub fn into_this(self) -> (r: T)
        ensures
            r == self.target(),
    {
        self.this
    }
}

impl<T> CtorTarget for CtorThis<T> {
    type Target = T;

    closed spec fn target(&self) -> T {
        self.this
    }

    closed spec fn pending(&self) -> Seq<Term> {
        Seq::empty()
    }

    fn id(&self) -> (r: Term) {
        Term::Z(Z)
    }

    fn this(&self) -> (r: &T) {
        &self.this
    }

    fn this_mut(&mut self) -> (r: &mut T) {
        &mut self.this
    }
}

impl<T> CtorChain for CtorThis<T> {
    fn done(&mut self, n: &Term, fuel: u64) -> (r: Current) {
        Current::Nothing
    }
}

/// A field `F` still to write, wrapped around the chain `P`.
#[derive(Debug)]
pub struct FieldChain<P, F> {
    parent: P,
    id: Term,
    pending: bool,
    field: std::marker::PhantomData<F>,
}

impl<P: CtorTarget, F: Field> FieldChain<P, F> {
    /// Adds the field `F`, under its own identifier, to the fields of
    /// `parent` still to write.
    pub fn new(parent: P) -> (r: Self)
        ensures
            r.target() == parent.target(),
            r.pending() == seq![F::spec_id()] + parent.pending(),
    {
        FieldChain { parent, id: F::id(), pending: true, field: std::marker::PhantomData }
    }
}

impl<P: CtorTarget, F: Field> CtorTarget for FieldChain<P, F> {
    type Target = P::Target;

    closed spec fn target(&self) -> P::Target {
        self.parent.target()
    }

    closed spec fn pending(&self) -> Seq<Term> {
        if self.pending {
            seq![self.id] + self.parent.pending()
        } else {
            self.parent.pending()
        }
    }

    fn id(&self) -> (r: Term) {
        if self.pending {
            self.id.copied()
        } else {
            self.parent.id()
        }
    }

    fn this(&self) -> (r: &P::Target) {
        self.parent.this()
    }

    fn this_mut(&mut self) -> (r: &mut P::Target) {
        self.parent.this_mut()
    }
}

impl<P: CtorChain, F: Field> CtorChain for FieldChain<P, F> {
    fn done(&mut self, n: &Term, fuel: u64) -> (r: Current) {
        if !self.pending {
            return self.parent.done(n, fuel);
        }
        let ghost ids = old(self).pending();
        assert(ids[0] == self.id);
        assert(ids.drop_first() =~= self.parent.pending());
        match is_eq(n, &self.id, fuel) {
            Some(Term::True(_)) => {
                self.pending = false;
                assert(ids.remove(0) =~= self.parent.pending());
                Current::Field(self.id.copied())
            },
            Some(Term::Z(_)) => {
                let r = self.parent.done(n, fuel);
                proof {
                    law_search_in_bounds(ids.drop_first(), *n, fuel as nat);
                    if let Some(Some(i)) = search(ids.drop_first(), *n, fuel as nat) {
                        assert(ids.remove(i + 1int) =~= seq![self.id] + ids.drop_first().remove(i as int));
                    }
                }
                r
            },
            _ => Current::Undecided,
        }
    }
}

/// A construction under way: the chain of fields still to write.
#[derive(Debug)]
pub struct PartialThis<C>(C);

impl<C> PartialThis<C> {
    /// Wraps `chain`.
    pub fn new(chain: C) -> (r: Self)
        ensures
            r.chain() == chain,
    {
        PartialThis(chain)
    }
}

impl<C> TakeChain for PartialThis<C> {
    type Chain = C;

    closed spec fn chain(&self) -> C {
        self.0
    }

    fn take_chain(self) -> (r: C) {
        self.0
    }
}

} // verus!
