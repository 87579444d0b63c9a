use std::rc::Rc;
use vstd::prelude::*;

use crate::key::MapKey;

verus! {

/// A shared, read-only handle to a value stored in a `BiMap`.
///
/// Both backing maps hold a handle to the same allocation, so a value is
/// stored once however many maps refer to it.
pub struct Ref<T> {
    ptr: Rc<T>,
}

/// Relies on `Rc::clone`: a new handle to the same value.
#[verifier::external_body]
fn rc_share<T>(p: &Rc<T>) -> (r: Rc<T>)
    ensures
        r == *p,
{
    Rc::clone(p)
}

impl<T: View> View for Ref<T> {
    type V = T::V;

    closed spec fn view(&self) -> T::V {
        (*self.ptr)@
    }
}

impl<T: MapKey> Ref<T> {
    /// Moves `value` into a new allocation with a single handle.
    pub fn new(value: T) -> (r: Ref<T>)
        ensures
            r@ == value@,
    {
        Ref { ptr: Rc::new(value) }
    }

    /// Another handle to the same allocation.
    pub fn share(&self) -> (r: Ref<T>)
        ensures
            r@ == self@,
    {
        Ref { ptr: rc_share(&self.ptr) }
    }

    /// The value behind the handle.
    pub fn get(&self) -> (r: &T)
        ensures
            r@ == self@,
    {
        &*self.ptr
    }

    /// Turns the two handles of one stored value back into the value itself.
    ///
    /// The handles must hold the same value. When they are the last two
    /// handles of one allocation, which is how a `BiMap` uses them, the value
    /// is moved out; otherwise the value is duplicated.
    pub fn join(x: Ref<T>, y: Ref<T>) -> (r: T)
        requires
            x@ == y@,
        ensures
            r@ == x@,
    {
        {
            // The first handle is released here, at the end of this block.
            let Ref { ptr: _first } = x;
        }
        match Rc::try_unwrap(y.ptr) {
            Ok(value) => value,
            Err(rest) => (*rest).duplicate(),
        }
    }
}

} // verus!
