//! Conversions into values and numbers.
use crate::mapping::Mapping;
use crate::number::{n_from_i64, Number, N};
use crate::spanned::Spanned;
use crate::tag::TaggedValue;
use crate::value::{Sequence, Value};
use vstd::prelude::*;

verus! {

impl From<N> for Number {
    fn from(n: N) -> (r: Number) {
        Number(n)
    }
}

impl vstd::std_specs::convert::FromSpecImpl<N> for Number {
    open spec fn obeys_from_spec() -> bool {
        true
    }

    open spec fn from_spec(n: N) -> Number {
        Number(n)
    }
}

impl From<i64> for Number {
    fn from(i: i64) -> (r: Number) {
        Number::from_i64(i)
    }
}

impl vstd::std_specs::convert::FromSpecImpl<i64> for Number {
    open spec fn obeys_from_spec() -> bool {
        true
    }

    open spec fn from_spec(i: i64) -> Number {
        Number(n_from_i64(i))
    }
}

impl From<i32> for Number {
    fn from(i: i32) -> (r: Number) {
        Number::from_i64(i as i64)
    }
}

impl vstd::std_specs::convert::FromSpecImpl<i32> for Number {
    open spec fn obeys_from_spec() -> bool {
        true
    }

    open spec fn from_spec(i: i32) -> Number {
        Number(n_from_i64(i as i64))
    }
}

impl From<u64> for Number {
    fn from(u: u64) -> (r: Number) {
        Number::from_u64(u)
    }
}

impl vstd::std_specs::convert::FromSpecImpl<u64> for Number {
    open spec fn obeys_from_spec() -> bool {
        true
    }

    open spec fn from_spec(u: u64) -> Number {
        Number(N::PosInt(u))
    }
}

impl From<Number> for Value {
    fn from(n: Number) -> (r: Value) {
        Value::Number(n)
    }
}

impl vstd::std_specs::convert::FromSpecImpl<Number> for Value {
    open spec fn obeys_from_spec() -> bool {
        true
    }

    open spec fn from_spec(n: Number) -> Value {
        Value::Number(n)
    }
}

impl From<bool> for Value {
    fn from(b: bool) -> (r: Value) {
        Value::Bool(b)
    }
}

impl vstd::std_specs::convert::FromSpecImpl<bool> for Value {
    open spec fn obeys_from_spec() -> bool {
        true
    }

    open spec fn from_spec(b: bool) -> Value {
        Value::Bool(b)
    }
}

impl From<i64> for Value {
    fn from(i: i64) -> (r: Value) {
        Value::Number(Number::from_i64(i))
    }
}

impl vstd::std_specs::convert::FromSpecImpl<i64> for Value {
    open spec fn obeys_from_spec() -> bool {
        true
    }

    open spec fn from_spec(i: i64) -> Value {
        Value::Number(Number(n_from_i64(i)))
    }
}

impl From<i32> for Value {
    fn from(i: i32) -> (r: Value) {
        Value::Number(Number::from_i64(i as i64))
    }
}

impl vstd::std_specs::convert::FromSpecImpl<i32> for Value {
    open spec fn obeys_from_spec() -> bool {
        true
    }

    open spec fn from_spec(i: i32) -> Value {
        Value::Number(Number(n_from_i64(i as i64)))
    }
}

impl From<u64> for Value {
    fn from(u: u64) -> (r: Value) {
        Value::Number(Number::from_u64(u))
    }
}

impl vstd::std_specs::convert::FromSpecImpl<u64> for Value {
    open spec fn obeys_from_spec() -> bool {
        true
    }

    open spec fn from_spec(u: u64) -> Value {
        Value::Number(Number(N::PosInt(u)))
    }
}

impl From<String> for Value {
    fn from(s: String) -> (r: Value) {
        Value::String(s)
    }
}

impl vstd::std_specs::convert::FromSpecImpl<String> for Value {
    open spec fn obeys_from_spec() -> bool {
        true
    }

    open spec fn from_spec(s: String) -> Value {
        Value::String(s)
    }
}

impl From<Sequence> for Value {
    fn from(s: Sequence) -> (r: Value) {
        Value::Sequence(s)
    }
}

impl vstd::std_specs::convert::FromSpecImpl<Sequence> for Value {
    open spec fn obeys_from_spec() -> bool {
        true
    }

    open spec fn from_spec(s: Sequence) -> Value {
        Value::Sequence(s)
    }
}

impl From<Mapping> for Value {
    fn from(m: Mapping) -> (r: Value) {
        Value::Mapping(m)
    }
}

impl vstd::std_specs::convert::FromSpecImpl<Mapping> for Value {
    open spec fn obeys_from_spec() -> bool {
        true
    }

    open spec fn from_spec(m: Mapping) -> Value {
        Value::Mapping(m)
    }
}

impl From<TaggedValue> for Value {
    fn from(t: TaggedValue) -> (r: Value) {
        Value::Tagged(Box::new(t))
    }
}

impl vstd::std_specs::convert::FromSpecImpl<TaggedValue> for Value {
    open spec fn obeys_from_spec() -> bool {
        true
    }

    open spec fn from_spec(t: TaggedValue) -> Value {
        Value::Tagged(Box::new(t))
    }
}

} // verus!

verus! {

impl From<Spanned<Value>> for Value {
    fn from(s: Spanned<Value>) -> (r: Value) {
        s.into_inner()
    }
}

impl vstd::std_specs::convert::FromSpecImpl<Spanned<Value>> for Value {
    open spec fn obeys_from_spec() -> bool {
        true
    }

    open spec fn from_spec(s: Spanned<Value>) -> Value {
        s.inner
    }
}

} // verus!
