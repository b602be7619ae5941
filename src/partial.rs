//! Equality between values of two different enums.

use vstd::prelude::*;

verus! {

/// One of two values, compared against `Bar`.
#[derive(Clone, Copy, Debug)]
pub enum Foo {
    F1,
    F2,
}

/// One of two values, the counterpart of `Foo`.
#[derive(Clone, Copy, Debug)]
pub enum Bar {
    B1,
    B2,
}

/// Whether `f` and `b` are counterparts: `F1` with `B1`, `F2` with `B2`.
pub open spec fn counterparts(f: Foo, b: Bar) -> bool {
    match (f, b) {
        (Foo::F1, Bar::B1) => true,
        (Foo::F2, Bar::B2) => true,
        _ => false,
    }
}

impl PartialEq<Bar> for Foo {
    fn eq(&self, other: &Bar) -> (r: bool)
        ensures
            r == counterparts(*self, *other),
    {
        match (self, other) {
            (Foo::F1, Bar::B1) => true,
            (Foo::F2, Bar::B2) => true,
            _ => false,
        }
    }
}

impl vstd::std_specs::cmp::PartialEqSpecImpl<Bar> for Foo {
    open spec fn obeys_eq_spec() -> bool {
        true
    }

    open spec fn eq_spec(&self, other: &Bar) -> bool {
        counterparts(*self, *other)
    }
}

} // verus!
