//! `==` and `partial_cmp` for numbers, mappings, values and tags.
use crate::mapping::Mapping;
use crate::number::{n_eq, Number};
use crate::order::{mapping_partial, n_partial, n_partial_exec, text_rel, value_partial, Rel};
use crate::spanned::Spanned;
use crate::tag::{nobang, Tag};
use crate::value::{value_eq, Value};
use std::cmp::Ordering;
use vstd::prelude::*;
use vstd::std_specs::cmp::PartialEqSpecImpl;
use vstd::std_specs::cmp::PartialOrdSpecImpl;

verus! {

/// The standard ordering of a comparison outcome.
pub open spec fn rel_ordering(r: Rel) -> Ordering {
    match r {
        Rel::Less => Ordering::Less,
        Rel::Equal => Ordering::Equal,
        Rel::Greater => Ordering::Greater,
    }
}

/// The standard ordering of a comparison outcome, if there is one.
pub open spec fn rel_option_ordering(r: Option<Rel>) -> Option<Ordering> {
    match r {
        Some(x) => Some(rel_ordering(x)),
        None => None,
    }
}

fn to_ordering(r: Rel) -> (o: Ordering)
    ensures
        o == rel_ordering(r),
{
    match r {
        Rel::Less => Ordering::Less,
        Rel::Equal => Ordering::Equal,
        Rel::Greater => Ordering::Greater,
    }
}

fn to_option_ordering(r: Option<Rel>) -> (o: Option<Ordering>)
    ensures
        o == rel_option_ordering(r),
{
    match r {
        Some(x) => Some(to_ordering(x)),
        None => None,
    }
}

impl PartialEq for Number {
    fn eq(&self, other: &Number) -> (r: bool) {
        self.equals(other)
    }
}

impl PartialEqSpecImpl for Number {
    open spec fn obeys_eq_spec() -> bool {
        true
    }

    open spec fn eq_spec(&self, other: &Number) -> bool {
        n_eq(self@, other@)
    }
}

impl PartialOrd for Number {
    fn partial_cmp(&self, other: &Number) -> (r: Option<Ordering>) {
        to_option_ordering(n_partial_exec(self.0, other.0))
    }
}

impl PartialOrdSpecImpl for Number {
    open spec fn obeys_partial_cmp_spec() -> bool {
        true
    }

    open spec fn partial_cmp_spec(&self, other: &Number) -> Option<Ordering> {
        rel_option_ordering(n_partial(self@, other@))
    }
}

impl PartialEq for Mapping {
    fn eq(&self, other: &Mapping) -> (r: bool) {
        self.equals(other)
    }
}

impl PartialEqSpecImpl for Mapping {
    open spec fn obeys_eq_spec() -> bool {
        true
    }

    open spec fn eq_spec(&self, other: &Mapping) -> bool {
        value_eq(Value::Mapping(*self)@, Value::Mapping(*other)@)
    }
}

impl PartialOrd for Mapping {
    fn partial_cmp(&self, other: &Mapping) -> (r: Option<Ordering>) {
        to_option_ordering(self.partial_rel(other))
    }
}

impl PartialOrdSpecImpl for Mapping {
    open spec fn obeys_partial_cmp_spec() -> bool {
        true
    }

    open spec fn partial_cmp_spec(&self, other: &Mapping) -> Option<Ordering> {
        rel_option_ordering(mapping_partial(self@, other@))
    }
}

impl PartialOrd for Value {
    fn partial_cmp(&self, other: &Value) -> (r: Option<Ordering>) {
        to_option_ordering(self.partial_rel(other))
    }
}

impl PartialOrdSpecImpl for Value {
    open spec fn obeys_partial_cmp_spec() -> bool {
        true
    }

    open spec fn partial_cmp_spec(&self, other: &Value) -> Option<Ordering> {
        rel_option_ordering(value_partial(self@, other@))
    }
}

impl PartialOrd for Spanned<Value> {
    fn partial_cmp(&self, other: &Spanned<Value>) -> (r: Option<Ordering>) {
        to_option_ordering(self.inner.partial_rel(&other.inner))
    }
}

impl PartialOrdSpecImpl for Spanned<Value> {
    open spec fn obeys_partial_cmp_spec() -> bool {
        true
    }

    open spec fn partial_cmp_spec(&self, other: &Spanned<Value>) -> Option<Ordering> {
        rel_option_ordering(value_partial(self.inner@, other.inner@))
    }
}

impl PartialOrd for Tag {
    fn partial_cmp(&self, other: &Tag) -> (r: Option<Ordering>) {
        let a = crate::tag::nobang_chars(&crate::text::chars_of(self.string.as_str()));
        let b = crate::tag::nobang_chars(&crate::text::chars_of(other.string.as_str()));
        Some(to_ordering(crate::order::text_rel_exec(&a, &b)))
    }
}

impl PartialOrdSpecImpl for Tag {
    open spec fn obeys_partial_cmp_spec() -> bool {
        true
    }

    open spec fn partial_cmp_spec(&self, other: &Tag) -> Option<Ordering> {
        Some(rel_ordering(text_rel(nobang(self@), nobang(other@))))
    }
}

} // verus!
