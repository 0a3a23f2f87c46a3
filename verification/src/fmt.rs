//! Showing a value through its `Display` rendering.
use vstd::prelude::*;

verus! {

/// Shows a value through its `Display` rendering wherever a `Debug` rendering is asked for.
pub struct Display<'a, T>(pub &'a T);

} // verus!
