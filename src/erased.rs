//! Type-erased values and factories.
//!
//! Verus does not know the trait `std::any::Any`, so the boxes that hold values
//! of arbitrary types are kept behind opaque structs; what the registry decides
//! about them is verified elsewhere.
use std::any::Any;
use vstd::prelude::*;

verus! {

/// A value of some type, stored with its type.
#[verifier::external_body]
pub struct Payload {
    item: Box<dyn Any>,
}

/// A constructor of payloads, run when a value is first needed.
#[verifier::external_body]
pub struct Factory {
    make: Box<dyn Fn() -> Box<dyn Any>>,
}

impl Payload {
    /// Relies on the unsizing of `Box<T>` to `Box<dyn Any>`, which records `T`.
    #[verifier::external_body]
    pub(crate) fn new<T: 'static>(value: T) -> (r: Payload) {
        Payload { item: Box::new(value) }
    }

    /// Relies on `<dyn Any>::downcast_mut`: a reference to the value if it has type `T`.
    /// On `None` nothing is borrowed, so the payload stays as it was.
    #[verifier::external_body]
    pub(crate) fn downcast_mut<T: 'static>(&mut self) -> (r: Option<&mut T>)
        ensures
            r is None ==> *final(self) == *old(self),
    {
        self.item.downcast_mut::<T>()
    }
}

impl Factory {
    /// Relies on the unsizing of a closure to `Box<dyn Fn() -> Box<dyn Any>>`.
    #[verifier::external_body]
    pub fn new<F: Fn() -> Box<dyn Any> + 'static>(f: F) -> (r: Factory) {
        Factory { make: Box::new(f) }
    }

    /// Relies on calling the stored closure; its output becomes a payload as it is.
    #[verifier::external_body]
    pub(crate) fn produce(&self) -> (r: Payload) {
        Payload { item: (self.make)() }
    }
}

} // verus!
