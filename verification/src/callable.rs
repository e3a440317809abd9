use vstd::prelude::*;

verus! {

/// The native function `clock`, which gives the time in seconds.
#[derive(Debug)]
pub struct Clock;

impl Clock {
    /// The number of arguments it takes: none.
    pub fn arity(&self) -> (n: usize)
        ensures
            n == 0,
    {
        0
    }

    /// The name it is bound to.
    pub fn name(&self) -> (s: String)
        ensures
            s@ == "clock"@,
    {
        String::from_str("clock")
    }
}

} // verus!
