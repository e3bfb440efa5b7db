//! The reset capability of pool elements.

use vstd::prelude::*;

verus! {

/// A value whose transient content can be reset in place.
///
/// A pool resets an element when its slot is released, so that the next
/// owner of the slot finds it empty.
pub trait Clear {
    /// Whether the value is in its reset state.
    spec fn is_clear(&self) -> bool;

    /// Resets the value in place.
    fn clear(&mut self)
        ensures
            final(self).is_clear(),
    ;
}

/// Calls `String::clear`, which removes every character of the string and
/// keeps its buffer. Trusted: the string is empty afterwards.
#[verifier::external_body]
fn truncate_string(s: &mut String)
    ensures
        final(s)@ == Seq::<char>::empty(),
{
    s.clear()
}

impl Clear for String {
    open spec fn is_clear(&self) -> bool {
        self@.len() == 0
    }

    fn clear(&mut self) {
        truncate_string(self)
    }
}

impl<T> Clear for Vec<T> {
    open spec fn is_clear(&self) -> bool {
        self@.len() == 0
    }

    fn clear(&mut self) {
        Vec::clear(self)
    }
}

impl<T> Clear for Option<T> {
    open spec fn is_clear(&self) -> bool {
        *self is None
    }

    fn clear(&mut self) {
        *self = None;
    }
}

} // verus!
