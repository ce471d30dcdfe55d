//! A stack of rcans presented together.

use vstd::prelude::*;

verus! {

/// A stack of items (rcans), first pushed first.
#[derive(Debug)]
pub struct CapStack<T> {
    items: Vec<T>,
}

impl<T> CapStack<T> {
    pub closed spec fn spec_items(&self) -> Seq<T> {
        self.items@
    }

    /// The stack of `first` then `second`.
    pub fn new(first: T, second: T) -> (r: Self)
        ensures
            r.spec_items() == seq![first, second],
    {
        let mut v = Vec::new();
        v.push(first);
        v.push(second);
        assert(v@ =~= seq![first, second]);
        Self { items: v }
    }

    /// The items, first pushed first.
    pub fn items(&self) -> (r: &Vec<T>)
        ensures
            r@ == self.spec_items(),
    {
        &self.items
    }

    /// The items, taken out of the stack.
    pub fn into_items(self) -> (r: Vec<T>)
        ensures
            r@ == self.spec_items(),
    {
        self.items
    }

    /// A stack of the given items.
    pub fn from_items(items: Vec<T>) -> (r: Self)
        ensures
            r.spec_items() == items@,
    {
        Self { items }
    }

    /// Checking the stack against a key: not done yet, so nothing is checked
    /// and nothing changes.
    pub fn check<V>(&self, _verify_key: V) {
    }
}

} // verus!
