//! Fixed-size pool of matches: slot reservation, join-code lookup, and
//! join-code generation.
//!
//! Reserving a slot and picking a collision-free code are separate verified
//! steps: the caller retries `try_assign_code` (with whatever backoff it
//! likes) until it reports success, which the randomness makes overwhelmingly
//! likely on the first attempt.

use vstd::prelude::*;
use vstd::utf8::{
    encode_utf8, valid_utf8, decode_utf8, decode_utf8_encode_utf8, partial_valid_utf8,
    partial_valid_utf8_extend_ascii_block,
};
use crate::game_match::GameMatch;
use crate::proto::Proto;
use crate::rng::{random_alnum_byte, is_ascii_alnum_byte};

verus! {

/// An uppercase ASCII alphanumeric byte: what a join code is made of.
pub open spec fn is_code_byte(b: u8) -> bool {
    (0x30 <= b <= 0x39) || (0x41 <= b <= 0x5a)
}

/// A well-formed join code: six uppercase alphanumeric characters on the
/// wire.
pub open spec fn is_join_code(code: Seq<char>) -> bool {
    &&& encode_utf8(code).len() == GameMatch::GAME_CODE_LEN
    &&& forall|i: int| 0 <= i < encode_utf8(code).len()
        ==> is_code_byte(#[trigger] encode_utf8(code)[i])
}

pub proof fn lemma_ascii_bytes_valid_utf8(b: Seq<u8>)
    requires
        forall|i: int| 0 <= i < b.len() ==> (#[trigger] b[i]) < 0x80,
    ensures
        valid_utf8(b),
{
    assert(b.subrange(0, 0) =~= Seq::<u8>::empty());
    assert(partial_valid_utf8(b, 0));
    partial_valid_utf8_extend_ascii_block(b, 0, b.len() as int);
    assert(b.subrange(0, b.len() as int) =~= b);
}

pub struct GameMatches {
    pub c: Vec<GameMatch>,
}

impl GameMatches {
    pub const MAX_MATCHES: usize = 100;

    /// A fresh pool: every slot unused, with an empty code and no clients.
    pub fn new() -> (r: GameMatches)
        ensures
            r.c@.len() == Self::MAX_MATCHES,
            forall|i: int| 0 <= i < r.c@.len() ==> {
                &&& (#[trigger] r.c@[i]).state == GameMatch::UNUSED
                &&& r.c@[i].code@.len() == 0
                &&& r.c@[i].clients@.len() == 0
            },
    {
        let mut c: Vec<GameMatch> = Vec::new();
        let mut i: usize = 0;

        while i < Self::MAX_MATCHES
            invariant
                i == c@.len(),
                i <= Self::MAX_MATCHES,
                forall|j: int| 0 <= j < c@.len() ==> {
                    &&& (#[trigger] c@[j]).state == GameMatch::UNUSED
                    &&& c@[j].code@.len() == 0
                    &&& c@[j].clients@.len() == 0
                },
            decreases Self::MAX_MATCHES - i,
        {
            let new_game_match = GameMatch::new();
            c.push(new_game_match);
            i = i + 1;
        }

        GameMatches { c }
    }

    /// Whether slot `i` is active (non-Unused) and carries this join code.
    pub open spec fn spec_code_matches(self, i: int, code: Seq<char>) -> bool {
        &&& self.c@[i].state != GameMatch::UNUSED
        &&& self.c@[i].code@ == code
    }

    /// Finds the first active slot carrying this join code; an inactive
    /// slot's code — stale or empty — never matches. Failure means no
    /// active slot carries it.
    pub fn index_by_code(&self, code: &String) -> (r: Result<usize, &'static str>)
        ensures
            (match r {
                Ok(i) => i < self.c@.len() && self.spec_code_matches(i as int, code@)
                    && (forall|j: int| 0 <= j < i ==> !self.spec_code_matches(j, code@)),
                Err(_) => forall|i: int| 0 <= i < self.c@.len()
                    ==> !self.spec_code_matches(i, code@),
            }),
    {
        let n = self.c.len();
        let mut i: usize = 0;

        while i < n
            invariant
                i <= n,
                n == self.c@.len(),
                forall|j: int| 0 <= j < i ==> !self.spec_code_matches(j, code@),
            decreases n - i,
        {
            if self.c[i].state != GameMatch::UNUSED && *code == self.c[i].code {
                return Ok(i);
            }

            i = i + 1;
        }

        Err("No match")
    }

    /// Appends a client to the given slot's match; every other slot is
    /// untouched.
    pub fn push_client(&mut self, game_match_i: usize, name: String)
        requires
            game_match_i < old(self).c@.len(),
        ensures
            final(self).c@.len() == old(self).c@.len(),
            forall|j: int| 0 <= j < old(self).c@.len() && j != game_match_i
                ==> final(self).c@[j] == old(self).c@[j],
            ({
                let m = final(self).c@[game_match_i as int];
                let o = old(self).c@[game_match_i as int];
                &&& m.state == o.state
                &&& m.code == o.code
                &&& m.clients@.len() == o.clients@.len() + 1
                &&& forall|k: int| 0 <= k < o.clients@.len() ==> m.clients@[k] == o.clients@[k]
                &&& m.clients@.last().name == name
                &&& m.clients@.last().connected
            }),
    {
        self.c[game_match_i].push_client(name);
    }

    /// Reserves the first unused slot, flipping it to Lobby; fails exactly
    /// when every slot is in use, leaving the pool unchanged.
    pub fn activate(&mut self) -> (r: Result<usize, &'static str>)
        ensures
            (match r {
                Ok(i) => {
                    &&& i < old(self).c@.len()
                    &&& old(self).c@[i as int].state == GameMatch::UNUSED
                    &&& forall|j: int| 0 <= j < i
                        ==> (#[trigger] old(self).c@[j]).state != GameMatch::UNUSED
                    &&& final(self).c@ == old(self).c@.update(i as int, (GameMatch {
                        state: GameMatch::LOBBY,
                        ..old(self).c@[i as int]
                    }))
                },
                Err(_) => {
                    &&& forall|i: int| 0 <= i < old(self).c@.len()
                        ==> (#[trigger] old(self).c@[i]).state != GameMatch::UNUSED
                    &&& *final(self) == *old(self)
                },
            }),
    {
        let n = self.c.len();
        let mut i: usize = 0;

        while i < n
            invariant
                i <= n,
                n == self.c@.len(),
                *self == *old(self),
                forall|j: int| 0 <= j < i
                    ==> (#[trigger] self.c@[j]).state != GameMatch::UNUSED,
            decreases n - i,
        {
            if self.c[i].state == GameMatch::UNUSED {
                self.c[i].state = GameMatch::LOBBY;

                proof {
                    assert(final(self).c@ =~= old(self).c@.update(i as int, (GameMatch {
                        state: GameMatch::LOBBY,
                        ..old(self).c@[i as int]
                    })));
                }

                return Ok(i);
            }

            i = i + 1;
        }

        Err("Match limit reached")
    }

    /// Draws a six-character join code: uppercase ASCII alphanumeric.
    pub fn generate_code() -> (r: String)
        ensures
            is_join_code(r@),
    {
        let mut bytes: Vec<u8> = Vec::new();
        let mut i: usize = 0;

        while i < 6
            invariant
                i <= 6,
                bytes@.len() == i,
                forall|j: int| 0 <= j < bytes@.len() ==> is_code_byte(#[trigger] bytes@[j]),
            decreases 6 - i,
        {
            let mut b = random_alnum_byte();

            if b >= 0x61 {
                b = b - 0x20;
            }

            bytes.push(b);
            i = i + 1;
        }

        proof {
            lemma_ascii_bytes_valid_utf8(bytes@);
        }

        let ghost byte_view = bytes@;
        let code = Proto::vec_to_string(bytes);

        proof {
            decode_utf8_encode_utf8(byte_view);
        }

        match code {
            Some(s) => s,
            None => vstd::pervasive::unreached(),
        }
    }

    /// One code-assignment attempt for a reserved slot: draws a code and, if
    /// no active slot already carries it, stores it. On success the slot's
    /// code is a fresh well-formed join code that no other active slot
    /// shares; on failure nothing changes and the caller tries again.
    pub fn try_assign_code(&mut self, game_match_i: usize) -> (r: bool)
        requires
            game_match_i < old(self).c@.len(),
        ensures
            (if r {
                let m = final(self).c@[game_match_i as int];
                &&& is_join_code(m.code@)
                &&& forall|j: int| 0 <= j < final(self).c@.len() && j != game_match_i
                    && (#[trigger] final(self).c@[j]).state != GameMatch::UNUSED
                    ==> final(self).c@[j].code@ != m.code@
                &&& final(self).c@ == old(self).c@.update(game_match_i as int, (GameMatch {
                    code: m.code,
                    ..old(self).c@[game_match_i as int]
                }))
            } else {
                *final(self) == *old(self)
            }),
    {
        let new_code = Self::generate_code();
        let ghost ncv = new_code@;
        let existing = self.index_by_code(&new_code);

        if existing.is_err() {
            self.c[game_match_i].code = new_code;

            proof {
                assert(final(self).c@ =~= old(self).c@.update(game_match_i as int, (GameMatch {
                    code: final(self).c@[game_match_i as int].code,
                    ..old(self).c@[game_match_i as int]
                })));

                assert forall|j: int| 0 <= j < final(self).c@.len() && j != game_match_i
                    && (#[trigger] final(self).c@[j]).state != GameMatch::UNUSED
                    implies final(self).c@[j].code@
                        != final(self).c@[game_match_i as int].code@ by {
                    assert(!old(self).spec_code_matches(j, ncv));
                    assert(final(self).c@[j] == old(self).c@[j]);
                }
            }

            return true;
        }

        false
    }
}

} // verus!
