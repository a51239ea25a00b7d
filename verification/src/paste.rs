//! How a client hands a chosen entry over for pasting.

use vstd::prelude::*;

verus! {

/// Where pasted text goes.
#[derive(Debug, Clone, Copy, PartialEq, Eq, Structural)]
pub enum PasteMethod {
    /// Onto the host's clipboard, from where the user pastes it.
    SendInput,
    /// To the standard output.
    Stdout,
}

/// Pastes by one method, chosen when the engine is made.
#[derive(Debug, Clone, Copy, PartialEq, Eq, Structural)]
pub struct PasteEngine {
    method: PasteMethod,
}

impl PasteEngine {
    pub closed spec fn spec_method(&self) -> PasteMethod {
        self.method
    }

    pub fn new(method: PasteMethod) -> (r: PasteEngine)
        ensures
            r.spec_method() == method,
    {
        PasteEngine { method }
    }

    /// The method this engine pastes by.
    #[verifier::when_used_as_spec(spec_method)]
    pub fn method(&self) -> (r: PasteMethod)
        ensures
            r == self.spec_method(),
    {
        self.method
    }
}

} // verus!
