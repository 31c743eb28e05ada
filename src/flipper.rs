use vstd::prelude::*;

verus! {

/// A single boolean that can be read and flipped.
pub struct Flipper {
    value: bool,
}

impl Flipper {
    pub closed spec fn value(&self) -> bool {
        self.value
    }

    /// A flipper holding `init_value`.
    pub fn new(init_value: bool) -> (r: Self)
        ensures
            r.value() == init_value,
    {
        Flipper { value: init_value }
    }

    /// A flipper holding `false`.
    pub fn default() -> (r: Self)
        ensures
            r.value() == false,
    {
        Flipper::new(false)
    }

    /// The current value.
    pub fn get(&self) -> (r: bool)
        ensures
            r == self.value(),
    {
        self.value
    }

    /// Negates the value.
    pub fn flip(&mut self)
        ensures
            final(self).value() == !old(self).value(),
    {
        self.value = !self.value;
    }
}

} // verus!
