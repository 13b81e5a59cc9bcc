//! The engine coordinator and its version.
use vstd::prelude::*;

verus! {

/// Human-readable engine name used by first-party applications.
pub const ENGINE_NAME: &'static str = "MeowEngine";

/// Engine coordinator that produces resolved, backend-neutral frames.
#[derive(Clone, Copy, Debug, PartialEq, Eq, Structural)]
pub struct Engine;

impl Engine {
    /// Creates an engine coordinator.
    pub fn new() -> (r: Self)
        ensures
            r == Engine,
    {
        Engine
    }
}

impl Default for Engine {
    fn default() -> (r: Self)
        ensures
            r == Engine,
    {
        Engine
    }
}

/// The package version of this engine.
pub fn version() -> (r: &'static str)
    ensures
        r@ == seq!['0', '.', '6', '.', '0'],
{
    let v = "0.6.0";
    proof {
        reveal_strlit("0.6.0");
    }
    v
}

} // verus!
