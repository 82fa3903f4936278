//! What a match knows of one connected client: its display name and whether
//! the transport is still open. The transport itself lives outside the
//! library, keyed by match slot and client index.

use vstd::prelude::*;

verus! {

pub struct Client {
    pub name: String,
    pub connected: bool,
}

impl Client {
    pub fn new(name: String) -> (r: Client)
        ensures
            r.name == name,
            r.connected,
    {
        Client { name, connected: true }
    }
}

} // verus!
