//! The two halves of the Church booleans after their first argument.

use vstd::prelude::*;
use crate::lambda::Term;

verus! {

/// `True` after its first argument `a`: `λ b. a`.
#[derive(Debug, PartialEq, Eq)]
pub struct True(pub Box<Term>);

/// `Z` (that is `False`) after its first argument: `λ b. b`.
#[derive(Debug, PartialEq, Eq)]
pub struct False;

} // verus!
