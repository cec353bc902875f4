//! Metaprogramming utility: selection between two types by a Church
//! boolean.

use vstd::prelude::*;
use crate::lambda::{church_bool, if_at, if_then_else, stored, Term, Type};

verus! {

/// `Select<c, t, f>`: the type stored by `If<c, Type<t>, Type<f>>`.
pub open spec fn select_at(c: Term, t: u64, f: u64, fuel: nat) -> Option<Option<u64>> {
    match if_at(c, Term::Type(Type(t)), Term::Type(Type(f)), fuel) {
        Some(r) => Some(stored(r)),
        None => None,
    }
}

/// `Select<c, t, f>`: conditional selection of a type. `Some(Some(t))`
/// where `c` is `True`, `Some(Some(f))` where it is `False`; `Some(None)`
/// (the unit type) where `c` picks neither stored type, and `None` where
/// the fuel runs out.
pub fn select(c: &Term, t: u64, f: u64, fuel: u64) -> (r: Option<Option<u64>>)
    ensures
        r == select_at(*c, t, f, fuel as nat),
{
    let chosen = if_then_else(c, &Term::Type(Type(t)), &Term::Type(Type(f)), fuel)?;
    Some(chosen.stored_type())
}

/// `Select` picks the first type on `True` and the second on `False`.
pub proof fn law_select(c: bool, t: u64, f: u64, k: nat)
    requires
        k >= 1,
    ensures
        select_at(church_bool(c), t, f, k) == Some(Some(if c { t } else { f })),
{
}

} // verus!
