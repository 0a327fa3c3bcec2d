//! The functions of a small guest module that is used to try the runner out.
use vstd::prelude::*;

verus! {

/// What the guest's answer is counted from.
pub const X: i32 = 12;

/// The state of the guest.
#[derive(Clone, Copy, Debug, PartialEq, Eq, Structural)]
pub struct Guest {
    /// One once the guest was started, zero before.
    pub init: i32,
}

impl Guest {
    /// A guest that was not started.
    pub fn new() -> (guest: Guest)
        ensures
            guest.init == 0,
    {
        Guest { init: 0 }
    }
}

/// Starts the guest.
pub fn start(guest: &mut Guest)
    ensures
        final(guest).init == 1,
{
    guest.init = 1;
}

/// Adds two numbers.
pub fn add(a: i32, b: i32) -> (sum: i32)
    requires
        i32::MIN <= a + b <= i32::MAX,
    ensures
        sum == a + b,
{
    a + b
}

/// Answers `n`, when the host's function has returned `a`.
pub fn test(n: i32, a: i32) -> (answer: i32)
    requires
        i32::MIN <= n + n <= i32::MAX,
        i32::MIN <= X - (n + n) <= i32::MAX,
        i32::MIN <= X - (n + n) - a <= i32::MAX,
    ensures
        answer == X - 2 * n - a,
{
    let answer: i32 = self::add(n, n);
    X - answer - a
}

} // verus!
