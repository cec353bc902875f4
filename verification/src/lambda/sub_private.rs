//! Subtraction after its first argument.

use vstd::prelude::*;
use crate::lambda::Term;

verus! {

/// `TSub` after its first argument `m`: `λ n. n Dec m`.
#[derive(Debug, PartialEq, Eq)]
pub struct S(pub Box<Term>);

} // verus!
