//! The mutable state of one game session: its phase, its join code, and the
//! ordered list of connected clients.

use vstd::prelude::*;
use crate::client::Client;

verus! {

pub struct GameMatch {
    pub state: u8,
    pub code: String,
    pub clients: Vec<Client>,
}

impl GameMatch {
    pub const GAME_CODE_LEN: i32 = 6;

    pub const UNUSED: u8 = 0;
    pub const LOBBY: u8 = 1;
    pub const GAME: u8 = 2;

    pub fn new() -> (r: GameMatch)
        ensures
            r.state == Self::UNUSED,
            r.code@.len() == 0,
            r.clients@.len() == 0,
    {
        GameMatch {
            state: Self::UNUSED,
            code: String::new(),
            clients: Vec::new(),
        }
    }

    /// Appends a freshly connected client.
    pub fn push_client(&mut self, name: String)
        ensures
            final(self).state == old(self).state,
            final(self).code == old(self).code,
            final(self).clients@.len() == old(self).clients@.len() + 1,
            forall|i: int| 0 <= i < old(self).clients@.len()
                ==> final(self).clients@[i] == old(self).clients@[i],
            final(self).clients@.last().name == name,
            final(self).clients@.last().connected,
    {
        let new_client = Client::new(name);
        self.clients.push(new_client);
    }
}

} // verus!
