use vstd::prelude::*;
use vstd::pervasive::VecAdditionalExecFns;
use crate::value::Value;

verus! {

/// The enclosing lexical environment's binding-slot array, exposed through
/// indexed access. The running function body and the alias accessors of a
/// mapped arguments object read and write the same slots; that sharing is the
/// intended aliasing semantic.
pub struct Environment {
    pub slots: Vec<Value>,
}

impl Environment {
    /// A fresh environment whose slots hold the given values.
    pub fn new(slots: Vec<Value>) -> (env: Environment)
        ensures
            env.slots@ == slots@,
    {
        Environment { slots }
    }

    pub fn len(&self) -> (n: usize)
        ensures
            n == self.slots@.len(),
    {
        self.slots.len()
    }

    /// Reads the value bound at `binding_index`.
    pub fn get(&self, binding_index: usize) -> (v: Value)
        requires
            binding_index < self.slots@.len(),
        ensures
            v == self.slots@[binding_index as int],
    {
        self.slots[binding_index]
    }

    /// Writes `value` into the slot at `binding_index`, leaving every other
    /// slot as it was.
    pub fn set(&mut self, binding_index: usize, value: Value)
        requires
            binding_index < old(self).slots@.len(),
        ensures
            final(self).slots@ == old(self).slots@.update(binding_index as int, value),
    {
        self.slots.set(binding_index, value);
    }
}

} // verus!
