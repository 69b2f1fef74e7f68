//! The value that the window's progress poll hands back.
use vstd::prelude::*;

verus! {

/// The tick that a progress poll waits for before it looks for news.
#[derive(Debug, Clone, Copy)]
pub struct Progstart {}

impl Progstart {
    /// A tick.
    pub fn new() -> (p: Progstart)
        ensures
            p == (Progstart {}),
    {
        Progstart {}
    }
}

} // verus!
