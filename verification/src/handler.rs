//! The event handler's state: the texts it formats notifications with.
//! The gateway glue that feeds it lives outside the library.

use vstd::prelude::*;

use crate::texts::Texts;

verus! {

/// The state shared by all gateway event handlers.
pub struct Handler {
    pub texts: Texts,
}

impl Handler {
    /// A handler formatting its notifications with the given texts.
    pub fn new(texts: Texts) -> (r: Self)
        ensures
            r.texts == texts,
    {
        Handler { texts }
    }
}

} // verus!
