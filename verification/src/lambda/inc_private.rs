//! The successor after its arguments.

use vstd::prelude::*;
use crate::lambda::Term;

verus! {

/// The successor of `n`: `λ f. λ x. f (n f x)`.
#[derive(Debug, PartialEq, Eq)]
pub struct I(pub Box<Term>);

/// The successor of `n` applied to `f`: `λ x. f (n f x)`.
#[derive(Debug, PartialEq, Eq)]
pub struct II(pub Box<Term>, pub Box<Term>);

} // verus!
