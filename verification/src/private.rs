//! Keeps [`crate::mapping::Index`] from being implemented outside this crate.
use crate::spanned::Spanned;
use crate::value::Value;
use vstd::prelude::*;

verus! {

/// Implemented only by the key types that a mapping can be indexed with.
pub trait Sealed {}

impl Sealed for usize {}

impl Sealed for str {}

impl Sealed for String {}

impl Sealed for Value {}

impl Sealed for Spanned<Value> {}

impl<'a, T: ?Sized + Sealed> Sealed for &'a T {}

} // verus!
