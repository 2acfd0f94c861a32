//! How long a replica waits, and for what.
use vstd::prelude::*;

verus! {

/// Milliseconds between two heartbeats of a leader.
pub const LEADER_TIMEOUT: u64 = 500;

/// The least number of milliseconds for which a follower or a candidate waits.
pub const NOT_LEADER_MIN_TIMEOUT: u64 = 2000;

/// The greatest number of milliseconds for which a follower or a candidate waits.
pub const NOT_LEADER_MAX_TIMEOUT: u64 = 3500;

/// What a replica waits for.
#[derive(Clone, Copy, Debug, PartialEq, Eq, Structural)]
pub enum Wait {
    /// Any message, for so many milliseconds.
    Any { timeout: u64 },
    /// A control message, for as long as it takes.
    Control,
}

/// A random number, through `rand::Rng::gen_range` on the generator that `rand::thread_rng` keeps
/// for the thread. The contract claims that the number lies in the range from `min` to `max`, the
/// ends among them; which one it is rests on chance and is left unsaid. `gen_range` panics on an
/// empty range, so the range must not be empty. `thread_rng` panics where the system has no seed
/// for it to give.
#[verifier::external_body]
pub(crate) fn draw(min: u64, max: u64) -> (drawn: u64)
    requires
        min <= max,
    ensures
        min <= drawn <= max,
{
    rand::Rng::gen_range(&mut rand::thread_rng(), min..=max)
}

} // verus!
