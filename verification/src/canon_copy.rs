//! Copies of canonical values.
use crate::canon::{append_bytes, CanonValue};
use vstd::prelude::*;

verus! {

/// Whether two values are the same in every part.
pub open spec fn is_copy(a: CanonValue, b: CanonValue) -> bool
    decreases a,
{
    match (a, b) {
        (CanonValue::Null, CanonValue::Null) => true,
        (CanonValue::Bool(x), CanonValue::Bool(y)) => x == y,
        (CanonValue::Int(x), CanonValue::Int(y)) => x == y,
        (CanonValue::Bytes(x), CanonValue::Bytes(y)) => x@ == y@,
        (CanonValue::Str(x), CanonValue::Str(y)) => x@ == y@,
        (CanonValue::Array(x), CanonValue::Array(y)) => x@.len() == y@.len() && forall|i: int|
            0 <= i < x@.len() ==> is_copy(#[trigger] x@[i], y@[i]),
        (CanonValue::Dict(x), CanonValue::Dict(y)) => x@.len() == y@.len() && forall|i: int|
            0 <= i < x@.len() ==> is_copy((#[trigger] x@[i]).0, y@[i].0) && is_copy(
                x@[i].1,
                y@[i].1,
            ),
        _ => false,
    }
}

fn copied(value: &CanonValue) -> (r: CanonValue)
    ensures
        is_copy(*value, r),
    decreases value,
{
    match value {
        CanonValue::Null => CanonValue::Null,
        CanonValue::Bool(b) => CanonValue::Bool(*b),
        CanonValue::Int(n) => CanonValue::Int(*n),
        CanonValue::Bytes(bytes) => {
            let mut out: Vec<u8> = Vec::new();
            append_bytes(&mut out, bytes.as_slice());
            CanonValue::Bytes(out)
        },
        CanonValue::Str(text) => CanonValue::Str(text.as_str().to_owned()),
        CanonValue::Array(items) => {
            let mut out: Vec<CanonValue> = Vec::new();
            let mut i: usize = 0;
            while i < items.len()
                invariant
                    i <= items.len(),
                    *value == CanonValue::Array(*items),
                    out.len() == i,
                    forall|j: int| 0 <= j < i ==> is_copy(#[trigger] items@[j], out@[j]),
                decreases items.len() - i,
            {
                proof {
                    assert(decreases_to!(*value => value->Array_0));
                    assert(decreases_to!(*items => items@));
                    assert(decreases_to!(items@ => items@[i as int]));
                    assert(decreases_to!(*value => items@[i as int]));
                }
                out.push(copied(&items[i]));
                i += 1;
            }
            CanonValue::Array(out)
        },
        CanonValue::Dict(entries) => {
            let mut out: Vec<(CanonValue, CanonValue)> = Vec::new();
            let mut i: usize = 0;
            while i < entries.len()
                invariant
                    i <= entries.len(),
                    *value == CanonValue::Dict(*entries),
                    out.len() == i,
                    forall|j: int|
                        0 <= j < i ==> is_copy((#[trigger] entries@[j]).0, out@[j].0) && is_copy(
                            entries@[j].1,
                            out@[j].1,
                        ),
                decreases entries.len() - i,
            {
                proof {
                    assert(decreases_to!(*value => value->Dict_0));
                    assert(decreases_to!(*entries => entries@));
                    assert(decreases_to!(entries@ => entries@[i as int]));
                    assert(decreases_to!(*value => entries@[i as int]));
                    assert(decreases_to!(*value => entries@[i as int].0));
                    assert(decreases_to!(*value => entries@[i as int].1));
                }
                let entry = (copied(&entries[i].0), copied(&entries[i].1));
                out.push(entry);
                i += 1;
            }
            CanonValue::Dict(out)
        },
    }
}

impl Clone for CanonValue {
    fn clone(&self) -> (r: CanonValue)
        ensures
            is_copy(*self, r),
    {
        copied(self)
    }
}

} // verus!
