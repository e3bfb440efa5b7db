//! Small counter helpers.

use std::ops::Add;
use std::ops::Sub;
use vstd::prelude::*;
use vstd::std_specs::convert::FromSpec;
use vstd::std_specs::ops::AddSpec;
use vstd::std_specs::ops::SubSpec;

verus! {

/// Adds one to the counter and returns the new value.
pub fn incr<T: Copy + Add<T, Output = T> + From<u8>>(c: &mut T) -> (v: T)
    requires
        forall|one: T| call_ensures(T::from, (1u8,), one) ==> (*old(c)).add_req(one),
    ensures
        v == *final(c),
        T::obeys_from_spec() && T::obeys_add_spec() ==> v == (*old(c)).add_spec(T::from_spec(1u8)),
{
    let v = *c + T::from(1u8);
    *c = v;
    v
}

/// Subtracts one from the counter and returns the new value.
pub fn decr<T: Copy + Sub<T, Output = T> + From<u8>>(c: &mut T) -> (v: T)
    requires
        forall|one: T| call_ensures(T::from, (1u8,), one) ==> (*old(c)).sub_req(one),
    ensures
        v == *final(c),
        T::obeys_from_spec() && T::obeys_sub_spec() ==> v == (*old(c)).sub_spec(T::from_spec(1u8)),
{
    let v = *c - T::from(1u8);
    *c = v;
    v
}

} // verus!
