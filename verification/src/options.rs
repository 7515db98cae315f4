//! Runner options chosen at configuration time.

use vstd::prelude::*;

verus! {

/// How a batch of matches is run: how many worker threads, and whether
/// to slow down or narrate play.
#[derive(Copy, Clone, PartialEq, Eq, Structural, Debug)]
pub struct Options {
    pub num_threads: usize,
    pub slow: bool,
    pub verbose: bool,
}

impl Options {
    /// Bundles the given settings.
    pub fn new(num_threads: usize, slow: bool, verbose: bool) -> (r: Options)
        ensures
            r == (Options { num_threads, slow, verbose }),
    {
        Options { num_threads, slow, verbose }
    }

    /// The default settings: four threads, neither slow nor verbose.
    pub fn default() -> (r: Options)
        ensures
            r == (Options { num_threads: 4usize, slow: false, verbose: false }),
    {
        Self::new(4, false, false)
    }
}

/// Display settings for a single game: narration and the pause between
/// turns, in milliseconds.
#[derive(Copy, Clone, PartialEq, Eq, Structural, Debug)]
pub struct GameOptions {
    pub verbose: bool,
    pub turn_pause_millis: u64,
}

} // verus!
