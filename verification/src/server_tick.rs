//! The fixed simulation step shared by the whole engine.

use vstd::prelude::*;

verus! {

pub struct ServerTick {}

impl ServerTick {
    /// Length of one simulation tick, in milliseconds.
    pub const SERVER_TICK: i32 = 20;
}

} // verus!
