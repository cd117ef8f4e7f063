//! Handler identifiers: the name of an installed application descriptor,
//! conventionally the descriptor's base file name.

use vstd::prelude::*;

verus! {

/// An identifier naming one installed application descriptor.
///
/// Whether a descriptor with this name is actually resolvable on disk is
/// checked by the I/O layer around the library; the library treats the
/// identifier as opaque text.
#[derive(Debug)]
pub struct Handler(String);

impl View for Handler {
    type V = Seq<char>;

    closed spec fn view(&self) -> Seq<char> {
        self.0@
    }
}

impl DeepView for Handler {
    type V = Seq<char>;

    open spec fn deep_view(&self) -> Seq<char> {
        self.view()
    }
}

impl Clone for Handler {
    fn clone(&self) -> (r: Self)
        ensures
            r@ == self@,
    {
        Handler(self.0.clone())
    }
}

impl Handler {
    /// Wraps a name that the caller has already validated (or chooses not to
    /// validate).
    pub fn assume_valid(name: String) -> (r: Handler)
        ensures
            r@ == name@,
    {
        Handler(name)
    }

    /// The descriptor name this identifier carries.
    pub fn name(&self) -> (r: &String)
        ensures
            r@ == self@,
    {
        &self.0
    }
}

} // verus!
