//! Stateless binary wire-protocol codec.
//!
//! Every message's first byte is an opcode (`TST_*` client-to-server,
//! `TCT_*` server-to-client). Multi-byte numeric fields are 4-byte
//! little-endian values: `u32` bit patterns stand in for the wire's 32-bit
//! floats, `i32` for signed counters. String fields are raw UTF-8, bounded
//! either by fixed surrounding field lengths or, in lists, by the separator
//! byte `0x1E`. Decoding fails, and never panics, when the buffer is shorter
//! than the opcode's minimum length or a string field is not valid UTF-8.

use vstd::prelude::*;
use vstd::bytes::{
    spec_u32_to_le_bytes, spec_u32_from_le_bytes, u32_to_le_bytes, u32_from_le_bytes,
    lemma_auto_spec_u32_to_from_le_bytes,
};
use vstd::slice::{slice_subrange, slice_to_vec};
use vstd::utf8::{
    encode_utf8, decode_utf8, valid_utf8, is_ascii_chars, encode_utf8_valid_utf8,
    encode_utf8_decode_utf8, is_ascii_chars_encode_utf8, encode_scalar, has_width_1_encoding,
};

verus! {

pub struct Proto {}

impl Proto {
    pub const TST_JOIN_EXISTING: u8 = 0x00;
    pub const TST_CREATE_NEW: u8 = 0x01;
    pub const TST_TOGGLE_READY: u8 = 0x02;
    pub const TST_NEW_POS: u8 = 0x03;
    pub const TST_NEW_ANGLE: u8 = 0x04;
    pub const TST_TAKE_WEAPON: u8 = 0x05;
    pub const TST_TRIGGER_PULLED: u8 = 0x06;
    pub const TST_TRIGGER_RELEASED: u8 = 0x07;

    pub const TCT_JOIN_EXISTING_RESULT: u8 = 0x80;
    pub const JOIN_EXISTING_RESULT_SUCCESS: u8 = 0x01;
    pub const JOIN_EXISTING_RESULT_BAD_CODE: u8 = 0x02;
    pub const JOIN_EXISTING_RESULT_SERVER_ERROR: u8 = 0x03;

    pub const TCT_CREATE_NEW_RESULT: u8 = 0x81;
    pub const CREATE_NEW_RESULT_SUCCESS: u8 = 0xff;
    pub const CREATE_NEW_RESULT_SERVER_ERROR: u8 = 0x00;

    pub const TCT_PLAYER_LIST: u8 = 0x82;
    pub const TCT_TOGGLE_READY: u8 = 0x83;
    pub const TCT_START_GAME: u8 = 0x84;
    pub const TCT_NEW_POS: u8 = 0x85;
    pub const TCT_NEW_ANGLE: u8 = 0x86;
    pub const TCT_WEAPON_SPAWN: u8 = 0x87;
    pub const TCT_REMOVE_WEAPON: u8 = 0x88;
    pub const TCT_ASSIGN_WEAPON: u8 = 0x89;
    pub const TCT_NEW_PROJECTILE: u8 = 0x90;
    pub const TCT_DESTROY_PROJECTILE: u8 = 0x91;
    pub const TCT_PROJECTILE_EXPLOSION: u8 = 0x92;
    pub const TCT_UPDATE_HEALTH: u8 = 0x93;
    pub const TCT_REMOVE_AMMO: u8 = 0x94;
    pub const TCT_KILL_PLAYER: u8 = 0x95;
    pub const TCT_RESPAWN_PLAYER: u8 = 0x96;
    pub const TCT_GAME_OVER_STATS: u8 = 0x97;

    pub const SEPARATOR: u8 = 0x1E;

    pub const FALSE: u8 = 0x00;
    pub const TRUE: u8 = 0xff;

    /// Relates a parser's result to the spec-level parse of the same bytes:
    /// the parser returns exactly the parsed value, or an error exactly when
    /// the bytes do not form a well-formed message.
    pub open spec fn parse_gives<T>(r: Result<T, &'static str>, expected: Option<T>) -> bool {
        match expected {
            Some(v) => r == Ok::<T, &'static str>(v),
            None => r is Err,
        }
    }

    pub fn get_type(message: &Vec<u8>) -> (r: Result<u8, &'static str>)
        ensures
            message@.len() > 0 ==> r == Ok::<u8, &'static str>(message@[0]),
            message@.len() == 0 ==> r is Err,
    {
        if message.len() > 0 {
            return Ok(message[0]);
        }

        Err("Unable to get message type")
    }

    fn read_u32_le(message: &Vec<u8>, start: usize) -> (r: u32)
        requires
            start + 4 <= message@.len(),
        ensures
            r == spec_u32_from_le_bytes(message@.subrange(start as int, start as int + 4)),
    {
        let n = message.len();
        assert(start + 4 <= n);
        let bytes = slice_subrange(message.as_slice(), start, start + 4);
        u32_from_le_bytes(bytes)
    }

    // +---------+
    // | Parsers |
    // +---------+

    pub open spec fn spec_parse_tct_toggle_ready(m: Seq<u8>) -> Option<(usize, bool)> {
        if m.len() >= 3 && (m[2] == Proto::TRUE || m[2] == Proto::FALSE) {
            Some((m[1] as usize, m[2] == Proto::TRUE))
        } else {
            None
        }
    }

    pub fn parse_tct_toggle_ready(message: &Vec<u8>) -> (r: Result<(usize, bool), &'static str>)
        ensures
            Self::parse_gives(r, Self::spec_parse_tct_toggle_ready(message@)),
    {
        if message.len() > 2 {
            let player_i = message[1] as usize;

            if message[2] == Proto::TRUE {
                return Ok((player_i, true));
            }
            if message[2] == Proto::FALSE {
                return Ok((player_i, false));
            }
            return Err("Unknown ready state");
        }

        Err("Message too short")
    }

    pub open spec fn spec_parse_tct_start_game(m: Seq<u8>) -> Option<(usize, u32, u32)> {
        if m.len() >= 10 {
            Some((
                m[1] as usize,
                spec_u32_from_le_bytes(m.subrange(2, 6)),
                spec_u32_from_le_bytes(m.subrange(6, 10)),
            ))
        } else {
            None
        }
    }

    pub fn parse_tct_start_game(message: &Vec<u8>) -> (r: Result<(usize, u32, u32), &'static str>)
        ensures
            Self::parse_gives(r, Self::spec_parse_tct_start_game(message@)),
    {
        if message.len() >= 10 {
            let player_i = message[1] as usize;
            let x_bits = Self::read_u32_le(message, 2);
            let y_bits = Self::read_u32_le(message, 6);

            return Ok((player_i, x_bits, y_bits));
        }

        Err("Message too short")
    }

    pub open spec fn spec_parse_tst_new_pos(m: Seq<u8>) -> Option<(u32, u32)> {
        if m.len() >= 9 {
            Some((
                spec_u32_from_le_bytes(m.subrange(1, 5)),
                spec_u32_from_le_bytes(m.subrange(5, 9)),
            ))
        } else {
            None
        }
    }

    pub fn parse_tst_new_pos(message: &Vec<u8>) -> (r: Result<(u32, u32), &'static str>)
        ensures
            Self::parse_gives(r, Self::spec_parse_tst_new_pos(message@)),
    {
        if message.len() >= 9 {
            let x_bits = Self::read_u32_le(message, 1);
            let y_bits = Self::read_u32_le(message, 5);

            return Ok((x_bits, y_bits));
        }

        Err("Message too short")
    }

    pub open spec fn spec_parse_tst_new_angle(m: Seq<u8>) -> Option<u32> {
        if m.len() >= 5 {
            Some(spec_u32_from_le_bytes(m.subrange(1, 5)))
        } else {
            None
        }
    }

    pub fn parse_tst_new_angle(message: &Vec<u8>) -> (r: Result<u32, &'static str>)
        ensures
            Self::parse_gives(r, Self::spec_parse_tst_new_angle(message@)),
    {
        if message.len() >= 5 {
            return Ok(Self::read_u32_le(message, 1));
        }

        Err("Message too short")
    }

    pub open spec fn spec_parse_tct_new_pos(m: Seq<u8>) -> Option<(usize, u32, u32)> {
        if m.len() >= 10 {
            Some((
                m[1] as usize,
                spec_u32_from_le_bytes(m.subrange(2, 6)),
                spec_u32_from_le_bytes(m.subrange(6, 10)),
            ))
        } else {
            None
        }
    }

    pub fn parse_tct_new_pos(message: &Vec<u8>) -> (r: Result<(usize, u32, u32), &'static str>)
        ensures
            Self::parse_gives(r, Self::spec_parse_tct_new_pos(message@)),
    {
        if message.len() >= 10 {
            let player_i = message[1] as usize;
            let x_bits = Self::read_u32_le(message, 2);
            let y_bits = Self::read_u32_le(message, 6);

            return Ok((player_i, x_bits, y_bits));
        }

        Err("Message too short")
    }

    pub open spec fn spec_parse_tct_new_angle(m: Seq<u8>) -> Option<(usize, u32)> {
        if m.len() >= 6 {
            Some((m[1] as usize, spec_u32_from_le_bytes(m.subrange(2, 6))))
        } else {
            None
        }
    }

    pub fn parse_tct_new_angle(message: &Vec<u8>) -> (r: Result<(usize, u32), &'static str>)
        ensures
            Self::parse_gives(r, Self::spec_parse_tct_new_angle(message@)),
    {
        if message.len() >= 6 {
            let player_i = message[1] as usize;
            let angle_bits = Self::read_u32_le(message, 2);

            return Ok((player_i, angle_bits));
        }

        Err("Message too short")
    }

    pub open spec fn spec_parse_tct_weapon_spawn(m: Seq<u8>) -> Option<(usize, u32, u32)> {
        if m.len() >= 10 {
            Some((
                m[1] as usize,
                spec_u32_from_le_bytes(m.subrange(2, 6)),
                spec_u32_from_le_bytes(m.subrange(6, 10)),
            ))
        } else {
            None
        }
    }

    pub fn parse_tct_weapon_spawn(message: &Vec<u8>) -> (r: Result<(usize, u32, u32), &'static str>)
        ensures
            Self::parse_gives(r, Self::spec_parse_tct_weapon_spawn(message@)),
    {
        if message.len() >= 10 {
            let weapon_type = message[1] as usize;
            let x_bits = Self::read_u32_le(message, 2);
            let y_bits = Self::read_u32_le(message, 6);

            return Ok((weapon_type, x_bits, y_bits));
        }

        Err("Message too short")
    }

    pub open spec fn spec_parse_index_only(m: Seq<u8>) -> Option<usize> {
        if m.len() >= 2 {
            Some(m[1] as usize)
        } else {
            None
        }
    }

    pub fn parse_tct_remove_weapon(message: &Vec<u8>) -> (r: Result<usize, &'static str>)
        ensures
            Self::parse_gives(r, Self::spec_parse_index_only(message@)),
    {
        if message.len() > 1 {
            return Ok(message[1] as usize);
        }

        Err("Message too short")
    }

    pub open spec fn spec_parse_tct_assign_weapon(m: Seq<u8>) -> Option<(usize, usize)> {
        if m.len() >= 3 {
            Some((m[1] as usize, m[2] as usize))
        } else {
            None
        }
    }

    pub fn parse_tct_assign_weapon(message: &Vec<u8>) -> (r: Result<(usize, usize), &'static str>)
        ensures
            Self::parse_gives(r, Self::spec_parse_tct_assign_weapon(message@)),
    {
        if message.len() > 2 {
            return Ok((message[1] as usize, message[2] as usize));
        }

        Err("Message too short")
    }

    pub open spec fn spec_parse_tct_new_projectile(m: Seq<u8>) -> Option<(usize, u32, u32, u32, u32)> {
        if m.len() >= 18 {
            Some((
                m[1] as usize,
                spec_u32_from_le_bytes(m.subrange(2, 6)),
                spec_u32_from_le_bytes(m.subrange(6, 10)),
                spec_u32_from_le_bytes(m.subrange(10, 14)),
                spec_u32_from_le_bytes(m.subrange(14, 18)),
            ))
        } else {
            None
        }
    }

    pub fn parse_tct_new_projectile(
        message: &Vec<u8>,
    ) -> (r: Result<(usize, u32, u32, u32, u32), &'static str>)
        ensures
            Self::parse_gives(r, Self::spec_parse_tct_new_projectile(message@)),
    {
        if message.len() >= 18 {
            let projectile_type = message[1] as usize;
            let x_bits = Self::read_u32_le(message, 2);
            let y_bits = Self::read_u32_le(message, 6);
            let vel_x_bits = Self::read_u32_le(message, 10);
            let vel_y_bits = Self::read_u32_le(message, 14);

            return Ok((projectile_type, x_bits, y_bits, vel_x_bits, vel_y_bits));
        }

        Err("Message too short")
    }

    pub open spec fn spec_parse_tct_projectile_explosion(m: Seq<u8>) -> Option<(usize, u32, u32)> {
        if m.len() >= 10 {
            Some((
                m[1] as usize,
                spec_u32_from_le_bytes(m.subrange(2, 6)),
                spec_u32_from_le_bytes(m.subrange(6, 10)),
            ))
        } else {
            None
        }
    }

    pub fn parse_tct_projectile_explosion(
        message: &Vec<u8>,
    ) -> (r: Result<(usize, u32, u32), &'static str>)
        ensures
            Self::parse_gives(r, Self::spec_parse_tct_projectile_explosion(message@)),
    {
        if message.len() >= 10 {
            let projectile_type = message[1] as usize;
            let x_bits = Self::read_u32_le(message, 2);
            let y_bits = Self::read_u32_le(message, 6);

            return Ok((projectile_type, x_bits, y_bits));
        }

        Err("Message too short")
    }

    pub fn parse_tct_destroy_projectile(message: &Vec<u8>) -> (r: Result<usize, &'static str>)
        ensures
            Self::parse_gives(r, Self::spec_parse_index_only(message@)),
    {
        if message.len() > 1 {
            return Ok(message[1] as usize);
        }

        Err("Message too short")
    }

    pub open spec fn spec_parse_tct_update_health(m: Seq<u8>) -> Option<u32> {
        if m.len() >= 5 {
            Some(spec_u32_from_le_bytes(m.subrange(1, 5)))
        } else {
            None
        }
    }

    pub fn parse_tct_update_health(message: &Vec<u8>) -> (r: Result<u32, &'static str>)
        ensures
            Self::parse_gives(r, Self::spec_parse_tct_update_health(message@)),
    {
        if message.len() >= 5 {
            return Ok(Self::read_u32_le(message, 1));
        }

        Err("Message too short")
    }

    pub fn parse_tct_kill_player(message: &Vec<u8>) -> (r: Result<usize, &'static str>)
        ensures
            Self::parse_gives(r, Self::spec_parse_index_only(message@)),
    {
        if message.len() > 1 {
            return Ok(message[1] as usize);
        }

        Err("Message too short")
    }

    pub open spec fn spec_parse_tct_respawn_player(m: Seq<u8>) -> Option<(usize, u32, u32)> {
        if m.len() >= 10 {
            Some((
                m[1] as usize,
                spec_u32_from_le_bytes(m.subrange(2, 6)),
                spec_u32_from_le_bytes(m.subrange(6, 10)),
            ))
        } else {
            None
        }
    }

    pub fn parse_tct_respawn_player(
        message: &Vec<u8>,
    ) -> (r: Result<(usize, u32, u32), &'static str>)
        ensures
            Self::parse_gives(r, Self::spec_parse_tct_respawn_player(message@)),
    {
        if message.len() >= 10 {
            let player_i = message[1] as usize;
            let x_bits = Self::read_u32_le(message, 2);
            let y_bits = Self::read_u32_le(message, 6);

            return Ok((player_i, x_bits, y_bits));
        }

        Err("Message too short")
    }

    pub open spec fn spec_parse_tct_join_existing_result(m: Seq<u8>) -> Option<u8> {
        if m.len() >= 2 {
            Some(m[1])
        } else {
            None
        }
    }

    pub fn parse_tct_join_existing_result(message: &Vec<u8>) -> (r: Result<u8, &'static str>)
        ensures
            Self::parse_gives(r, Self::spec_parse_tct_join_existing_result(message@)),
    {
        if message.len() > 1 {
            return Ok(message[1]);
        }

        Err("Message too short")
    }

    // +-------------+
    // | Serializers |
    // +-------------+

    pub open spec fn spec_tst_toggle_ready() -> Seq<u8> {
        seq![Proto::TST_TOGGLE_READY]
    }

    pub fn tst_toggle_ready() -> (r: Vec<u8>)
        ensures
            r@ == Self::spec_tst_toggle_ready(),
    {
        let mut data: Vec<u8> = Vec::new();
        data.push(Self::TST_TOGGLE_READY);
        proof { assert(data@ =~= Self::spec_tst_toggle_ready()); }
        data
    }

    pub open spec fn spec_tst_take_weapon() -> Seq<u8> {
        seq![Proto::TST_TAKE_WEAPON]
    }

    pub fn tst_take_weapon() -> (r: Vec<u8>)
        ensures
            r@ == Self::spec_tst_take_weapon(),
    {
        let mut data: Vec<u8> = Vec::new();
        data.push(Self::TST_TAKE_WEAPON);
        proof { assert(data@ =~= Self::spec_tst_take_weapon()); }
        data
    }

    pub open spec fn spec_tst_trigger_pulled() -> Seq<u8> {
        seq![Proto::TST_TRIGGER_PULLED]
    }

    pub fn tst_trigger_pulled() -> (r: Vec<u8>)
        ensures
            r@ == Self::spec_tst_trigger_pulled(),
    {
        let mut data: Vec<u8> = Vec::new();
        data.push(Self::TST_TRIGGER_PULLED);
        proof { assert(data@ =~= Self::spec_tst_trigger_pulled()); }
        data
    }

    pub open spec fn spec_tst_trigger_released() -> Seq<u8> {
        seq![Proto::TST_TRIGGER_RELEASED]
    }

    pub fn tst_trigger_released() -> (r: Vec<u8>)
        ensures
            r@ == Self::spec_tst_trigger_released(),
    {
        let mut data: Vec<u8> = Vec::new();
        data.push(Self::TST_TRIGGER_RELEASED);
        proof { assert(data@ =~= Self::spec_tst_trigger_released()); }
        data
    }

    pub open spec fn spec_tct_remove_ammo() -> Seq<u8> {
        seq![Proto::TCT_REMOVE_AMMO]
    }

    pub fn tct_remove_ammo() -> (r: Vec<u8>)
        ensures
            r@ == Self::spec_tct_remove_ammo(),
    {
        let mut data: Vec<u8> = Vec::new();
        data.push(Self::TCT_REMOVE_AMMO);
        proof { assert(data@ =~= Self::spec_tct_remove_ammo()); }
        data
    }

    pub open spec fn spec_tct_join_existing_result(status: u8) -> Seq<u8> {
        seq![Proto::TCT_JOIN_EXISTING_RESULT, status]
    }

    pub fn tct_join_existing_result(status: u8) -> (r: Vec<u8>)
        ensures
            r@ == Self::spec_tct_join_existing_result(status),
    {
        let mut data: Vec<u8> = Vec::new();
        data.push(Self::TCT_JOIN_EXISTING_RESULT);
        data.push(status);
        proof { assert(data@ =~= Self::spec_tct_join_existing_result(status)); }
        data
    }

    pub open spec fn spec_tct_toggle_ready(player_i: u8, ready: bool) -> Seq<u8> {
        seq![Proto::TCT_TOGGLE_READY, player_i, if ready { Proto::TRUE } else { Proto::FALSE }]
    }

    pub fn tct_toggle_ready(player_i: u8, ready: bool) -> (r: Vec<u8>)
        ensures
            r@ == Self::spec_tct_toggle_ready(player_i, ready),
    {
        let mut data: Vec<u8> = Vec::new();
        data.push(Self::TCT_TOGGLE_READY);
        data.push(player_i);

        if ready {
            data.push(Self::TRUE);
        } else {
            data.push(Self::FALSE);
        }

        proof { assert(data@ =~= Self::spec_tct_toggle_ready(player_i, ready)); }
        data
    }

    pub open spec fn spec_tct_start_game(player_i: u8, x_bits: u32, y_bits: u32) -> Seq<u8> {
        seq![Proto::TCT_START_GAME, player_i] + spec_u32_to_le_bytes(x_bits)
            + spec_u32_to_le_bytes(y_bits)
    }

    pub fn tct_start_game(player_i: u8, x_bits: u32, y_bits: u32) -> (r: Vec<u8>)
        ensures
            r@ == Self::spec_tct_start_game(player_i, x_bits, y_bits),
    {
        let mut data: Vec<u8> = Vec::new();
        data.push(Self::TCT_START_GAME);
        data.push(player_i);
        let mut xb = u32_to_le_bytes(x_bits);
        data.append(&mut xb);
        let mut yb = u32_to_le_bytes(y_bits);
        data.append(&mut yb);
        proof { assert(data@ =~= Self::spec_tct_start_game(player_i, x_bits, y_bits)); }
        data
    }

    pub open spec fn spec_tst_new_pos(x_bits: u32, y_bits: u32) -> Seq<u8> {
        seq![Proto::TST_NEW_POS] + spec_u32_to_le_bytes(x_bits) + spec_u32_to_le_bytes(y_bits)
    }

    pub fn tst_new_pos(x_bits: u32, y_bits: u32) -> (r: Vec<u8>)
        ensures
            r@ == Self::spec_tst_new_pos(x_bits, y_bits),
    {
        let mut data: Vec<u8> = Vec::new();
        data.push(Self::TST_NEW_POS);
        let mut xb = u32_to_le_bytes(x_bits);
        data.append(&mut xb);
        let mut yb = u32_to_le_bytes(y_bits);
        data.append(&mut yb);
        proof { assert(data@ =~= Self::spec_tst_new_pos(x_bits, y_bits)); }
        data
    }

    pub open spec fn spec_tct_new_pos(player_i: u8, x_bits: u32, y_bits: u32) -> Seq<u8> {
        seq![Proto::TCT_NEW_POS, player_i] + spec_u32_to_le_bytes(x_bits)
            + spec_u32_to_le_bytes(y_bits)
    }

    pub fn tct_new_pos(player_i: u8, x_bits: u32, y_bits: u32) -> (r: Vec<u8>)
        ensures
            r@ == Self::spec_tct_new_pos(player_i, x_bits, y_bits),
    {
        let mut data: Vec<u8> = Vec::new();
        data.push(Self::TCT_NEW_POS);
        data.push(player_i);
        let mut xb = u32_to_le_bytes(x_bits);
        data.append(&mut xb);
        let mut yb = u32_to_le_bytes(y_bits);
        data.append(&mut yb);
        proof { assert(data@ =~= Self::spec_tct_new_pos(player_i, x_bits, y_bits)); }
        data
    }

    pub open spec fn spec_tst_new_angle(angle_bits: u32) -> Seq<u8> {
        seq![Proto::TST_NEW_ANGLE] + spec_u32_to_le_bytes(angle_bits)
    }

    pub fn tst_new_angle(angle_bits: u32) -> (r: Vec<u8>)
        ensures
            r@ == Self::spec_tst_new_angle(angle_bits),
    {
        let mut data: Vec<u8> = Vec::new();
        data.push(Self::TST_NEW_ANGLE);
        let mut ab = u32_to_le_bytes(angle_bits);
        data.append(&mut ab);
        proof { assert(data@ =~= Self::spec_tst_new_angle(angle_bits)); }
        data
    }

    pub open spec fn spec_tct_new_angle(player_i: u8, angle_bits: u32) -> Seq<u8> {
        seq![Proto::TCT_NEW_ANGLE, player_i] + spec_u32_to_le_bytes(angle_bits)
    }

    pub fn tct_new_angle(player_i: u8, angle_bits: u32) -> (r: Vec<u8>)
        ensures
            r@ == Self::spec_tct_new_angle(player_i, angle_bits),
    {
        let mut data: Vec<u8> = Vec::new();
        data.push(Self::TCT_NEW_ANGLE);
        data.push(player_i);
        let mut ab = u32_to_le_bytes(angle_bits);
        data.append(&mut ab);
        proof { assert(data@ =~= Self::spec_tct_new_angle(player_i, angle_bits)); }
        data
    }

    pub open spec fn spec_tct_weapon_spawn(weapon_type: u8, x_bits: u32, y_bits: u32) -> Seq<u8> {
        seq![Proto::TCT_WEAPON_SPAWN, weapon_type] + spec_u32_to_le_bytes(x_bits)
            + spec_u32_to_le_bytes(y_bits)
    }

    pub fn tct_weapon_spawn(weapon_type: u8, x_bits: u32, y_bits: u32) -> (r: Vec<u8>)
        ensures
            r@ == Self::spec_tct_weapon_spawn(weapon_type, x_bits, y_bits),
    {
        let mut data: Vec<u8> = Vec::new();
        data.push(Self::TCT_WEAPON_SPAWN);
        data.push(weapon_type);
        let mut xb = u32_to_le_bytes(x_bits);
        data.append(&mut xb);
        let mut yb = u32_to_le_bytes(y_bits);
        data.append(&mut yb);
        proof { assert(data@ =~= Self::spec_tct_weapon_spawn(weapon_type, x_bits, y_bits)); }
        data
    }

    pub open spec fn spec_tct_remove_weapon(weapon_i: u8) -> Seq<u8> {
        seq![Proto::TCT_REMOVE_WEAPON, weapon_i]
    }

    pub fn tct_remove_weapon(weapon_i: u8) -> (r: Vec<u8>)
        ensures
            r@ == Self::spec_tct_remove_weapon(weapon_i),
    {
        let mut data: Vec<u8> = Vec::new();
        data.push(Self::TCT_REMOVE_WEAPON);
        data.push(weapon_i);
        proof { assert(data@ =~= Self::spec_tct_remove_weapon(weapon_i)); }
        data
    }

    pub open spec fn spec_tct_assign_weapon(player_i: u8, weapon_type: u8) -> Seq<u8> {
        seq![Proto::TCT_ASSIGN_WEAPON, player_i, weapon_type]
    }

    pub fn tct_assign_weapon(player_i: u8, weapon_type: u8) -> (r: Vec<u8>)
        ensures
            r@ == Self::spec_tct_assign_weapon(player_i, weapon_type),
    {
        let mut data: Vec<u8> = Vec::new();
        data.push(Self::TCT_ASSIGN_WEAPON);
        data.push(player_i);
        data.push(weapon_type);
        proof { assert(data@ =~= Self::spec_tct_assign_weapon(player_i, weapon_type)); }
        data
    }

    pub open spec fn spec_tct_new_projectile(
        projectile_type: u8,
        x_bits: u32,
        y_bits: u32,
        vel_x_bits: u32,
        vel_y_bits: u32,
    ) -> Seq<u8> {
        seq![Proto::TCT_NEW_PROJECTILE, projectile_type] + spec_u32_to_le_bytes(x_bits)
            + spec_u32_to_le_bytes(y_bits) + spec_u32_to_le_bytes(vel_x_bits)
            + spec_u32_to_le_bytes(vel_y_bits)
    }

    pub fn tct_new_projectile(
        projectile_type: u8,
        x_bits: u32,
        y_bits: u32,
        vel_x_bits: u32,
        vel_y_bits: u32,
    ) -> (r: Vec<u8>)
        ensures
            r@ == Self::spec_tct_new_projectile(projectile_type, x_bits, y_bits, vel_x_bits, vel_y_bits),
    {
        let mut data: Vec<u8> = Vec::new();
        data.push(Self::TCT_NEW_PROJECTILE);
        data.push(projectile_type);
        let mut xb = u32_to_le_bytes(x_bits);
        data.append(&mut xb);
        let mut yb = u32_to_le_bytes(y_bits);
        data.append(&mut yb);
        let mut vxb = u32_to_le_bytes(vel_x_bits);
        data.append(&mut vxb);
        let mut vyb = u32_to_le_bytes(vel_y_bits);
        data.append(&mut vyb);
        proof {
            assert(data@ =~= Self::spec_tct_new_projectile(
                projectile_type, x_bits, y_bits, vel_x_bits, vel_y_bits,
            ));
        }
        data
    }

    pub open spec fn spec_tct_destroy_projectile(projectile_i: u8) -> Seq<u8> {
        seq![Proto::TCT_DESTROY_PROJECTILE, projectile_i]
    }

    pub fn tct_destroy_projectile(projectile_i: u8) -> (r: Vec<u8>)
        ensures
            r@ == Self::spec_tct_destroy_projectile(projectile_i),
    {
        let mut data: Vec<u8> = Vec::new();
        data.push(Self::TCT_DESTROY_PROJECTILE);
        data.push(projectile_i);
        proof { assert(data@ =~= Self::spec_tct_destroy_projectile(projectile_i)); }
        data
    }

    pub open spec fn spec_tct_projectile_explosion(
        projectile_type: u8,
        x_bits: u32,
        y_bits: u32,
    ) -> Seq<u8> {
        seq![Proto::TCT_PROJECTILE_EXPLOSION, projectile_type] + spec_u32_to_le_bytes(x_bits)
            + spec_u32_to_le_bytes(y_bits)
    }

    pub fn tct_projectile_explosion(projectile_type: u8, x_bits: u32, y_bits: u32) -> (r: Vec<u8>)
        ensures
            r@ == Self::spec_tct_projectile_explosion(projectile_type, x_bits, y_bits),
    {
        let mut data: Vec<u8> = Vec::new();
        data.push(Self::TCT_PROJECTILE_EXPLOSION);
        data.push(projectile_type);
        let mut xb = u32_to_le_bytes(x_bits);
        data.append(&mut xb);
        let mut yb = u32_to_le_bytes(y_bits);
        data.append(&mut yb);
        proof {
            assert(data@ =~= Self::spec_tct_projectile_explosion(projectile_type, x_bits, y_bits));
        }
        data
    }

    pub open spec fn spec_tct_update_health(health_bits: u32) -> Seq<u8> {
        seq![Proto::TCT_UPDATE_HEALTH] + spec_u32_to_le_bytes(health_bits)
    }

    pub fn tct_update_health(health_bits: u32) -> (r: Vec<u8>)
        ensures
            r@ == Self::spec_tct_update_health(health_bits),
    {
        let mut data: Vec<u8> = Vec::new();
        data.push(Self::TCT_UPDATE_HEALTH);
        let mut hb = u32_to_le_bytes(health_bits);
        data.append(&mut hb);
        proof { assert(data@ =~= Self::spec_tct_update_health(health_bits)); }
        data
    }

    pub open spec fn spec_tct_kill_player(player_i: u8) -> Seq<u8> {
        seq![Proto::TCT_KILL_PLAYER, player_i]
    }

    pub fn tct_kill_player(player_i: u8) -> (r: Vec<u8>)
        ensures
            r@ == Self::spec_tct_kill_player(player_i),
    {
        let mut data: Vec<u8> = Vec::new();
        data.push(Self::TCT_KILL_PLAYER);
        data.push(player_i);
        proof { assert(data@ =~= Self::spec_tct_kill_player(player_i)); }
        data
    }

    pub open spec fn spec_tct_respawn_player(player_i: u8, x_bits: u32, y_bits: u32) -> Seq<u8> {
        seq![Proto::TCT_RESPAWN_PLAYER, player_i] + spec_u32_to_le_bytes(x_bits)
            + spec_u32_to_le_bytes(y_bits)
    }

    pub fn tct_respawn_player(player_i: u8, x_bits: u32, y_bits: u32) -> (r: Vec<u8>)
        ensures
            r@ == Self::spec_tct_respawn_player(player_i, x_bits, y_bits),
    {
        let mut data: Vec<u8> = Vec::new();
        data.push(Self::TCT_RESPAWN_PLAYER);
        data.push(player_i);
        let mut xb = u32_to_le_bytes(x_bits);
        data.append(&mut xb);
        let mut yb = u32_to_le_bytes(y_bits);
        data.append(&mut yb);
        proof { assert(data@ =~= Self::spec_tct_respawn_player(player_i, x_bits, y_bits)); }
        data
    }

    // +-----------------------+
    // | Round-trip guarantees |
    // +-----------------------+

    /// Law: a ToggleReady broadcast decodes to the index and flag it was
    /// encoded from.
    pub proof fn lemma_tct_toggle_ready_round_trip(player_i: u8, ready: bool)
        ensures
            Self::spec_parse_tct_toggle_ready(Self::spec_tct_toggle_ready(player_i, ready))
                == Some((player_i as usize, ready)),
    {
    }

    /// Law: a StartGame message decodes to the index and coordinate bit
    /// patterns it was encoded from.
    pub proof fn lemma_tct_start_game_round_trip(player_i: u8, x_bits: u32, y_bits: u32)
        ensures
            Self::spec_parse_tct_start_game(Self::spec_tct_start_game(player_i, x_bits, y_bits))
                == Some((player_i as usize, x_bits, y_bits)),
    {
        lemma_auto_spec_u32_to_from_le_bytes();
        let m = Self::spec_tct_start_game(player_i, x_bits, y_bits);
        assert(m.subrange(2, 6) =~= spec_u32_to_le_bytes(x_bits));
        assert(m.subrange(6, 10) =~= spec_u32_to_le_bytes(y_bits));
    }

    /// Law: a client position report decodes to the coordinate bit patterns
    /// it was encoded from.
    pub proof fn lemma_tst_new_pos_round_trip(x_bits: u32, y_bits: u32)
        ensures
            Self::spec_parse_tst_new_pos(Self::spec_tst_new_pos(x_bits, y_bits))
                == Some((x_bits, y_bits)),
    {
        lemma_auto_spec_u32_to_from_le_bytes();
        let m = Self::spec_tst_new_pos(x_bits, y_bits);
        assert(m.subrange(1, 5) =~= spec_u32_to_le_bytes(x_bits));
        assert(m.subrange(5, 9) =~= spec_u32_to_le_bytes(y_bits));
    }

    /// Law: a client angle report decodes to the angle bit pattern it was
    /// encoded from.
    pub proof fn lemma_tst_new_angle_round_trip(angle_bits: u32)
        ensures
            Self::spec_parse_tst_new_angle(Self::spec_tst_new_angle(angle_bits))
                == Some(angle_bits),
    {
        lemma_auto_spec_u32_to_from_le_bytes();
        let m = Self::spec_tst_new_angle(angle_bits);
        assert(m.subrange(1, 5) =~= spec_u32_to_le_bytes(angle_bits));
    }

    /// Law: a position broadcast decodes to the index and coordinate bit
    /// patterns it was encoded from.
    pub proof fn lemma_tct_new_pos_round_trip(player_i: u8, x_bits: u32, y_bits: u32)
        ensures
            Self::spec_parse_tct_new_pos(Self::spec_tct_new_pos(player_i, x_bits, y_bits))
                == Some((player_i as usize, x_bits, y_bits)),
    {
        lemma_auto_spec_u32_to_from_le_bytes();
        let m = Self::spec_tct_new_pos(player_i, x_bits, y_bits);
        assert(m.subrange(2, 6) =~= spec_u32_to_le_bytes(x_bits));
        assert(m.subrange(6, 10) =~= spec_u32_to_le_bytes(y_bits));
    }

    /// Law: an angle broadcast decodes to the index and angle bit pattern it
    /// was encoded from.
    pub proof fn lemma_tct_new_angle_round_trip(player_i: u8, angle_bits: u32)
        ensures
            Self::spec_parse_tct_new_angle(Self::spec_tct_new_angle(player_i, angle_bits))
                == Some((player_i as usize, angle_bits)),
    {
        lemma_auto_spec_u32_to_from_le_bytes();
        let m = Self::spec_tct_new_angle(player_i, angle_bits);
        assert(m.subrange(2, 6) =~= spec_u32_to_le_bytes(angle_bits));
    }

    /// Law: a weapon-spawn broadcast decodes to the type and coordinate bit
    /// patterns it was encoded from.
    pub proof fn lemma_tct_weapon_spawn_round_trip(weapon_type: u8, x_bits: u32, y_bits: u32)
        ensures
            Self::spec_parse_tct_weapon_spawn(Self::spec_tct_weapon_spawn(weapon_type, x_bits, y_bits))
                == Some((weapon_type as usize, x_bits, y_bits)),
    {
        lemma_auto_spec_u32_to_from_le_bytes();
        let m = Self::spec_tct_weapon_spawn(weapon_type, x_bits, y_bits);
        assert(m.subrange(2, 6) =~= spec_u32_to_le_bytes(x_bits));
        assert(m.subrange(6, 10) =~= spec_u32_to_le_bytes(y_bits));
    }

    /// Law: a weapon-removal broadcast decodes to the index it was encoded
    /// from.
    pub proof fn lemma_tct_remove_weapon_round_trip(weapon_i: u8)
        ensures
            Self::spec_parse_index_only(Self::spec_tct_remove_weapon(weapon_i))
                == Some(weapon_i as usize),
    {
    }

    /// Law: a weapon-assignment broadcast decodes to the indices it was
    /// encoded from.
    pub proof fn lemma_tct_assign_weapon_round_trip(player_i: u8, weapon_type: u8)
        ensures
            Self::spec_parse_tct_assign_weapon(Self::spec_tct_assign_weapon(player_i, weapon_type))
                == Some((player_i as usize, weapon_type as usize)),
    {
    }

    /// Law: a projectile broadcast decodes to the type, position and velocity
    /// bit patterns it was encoded from.
    pub proof fn lemma_tct_new_projectile_round_trip(
        projectile_type: u8,
        x_bits: u32,
        y_bits: u32,
        vel_x_bits: u32,
        vel_y_bits: u32,
    )
        ensures
            Self::spec_parse_tct_new_projectile(Self::spec_tct_new_projectile(
                projectile_type, x_bits, y_bits, vel_x_bits, vel_y_bits,
            )) == Some((projectile_type as usize, x_bits, y_bits, vel_x_bits, vel_y_bits)),
    {
        lemma_auto_spec_u32_to_from_le_bytes();
        let m = Self::spec_tct_new_projectile(projectile_type, x_bits, y_bits, vel_x_bits, vel_y_bits);
        assert(m.subrange(2, 6) =~= spec_u32_to_le_bytes(x_bits));
        assert(m.subrange(6, 10) =~= spec_u32_to_le_bytes(y_bits));
        assert(m.subrange(10, 14) =~= spec_u32_to_le_bytes(vel_x_bits));
        assert(m.subrange(14, 18) =~= spec_u32_to_le_bytes(vel_y_bits));
    }

    /// Law: a projectile-destruction broadcast decodes to the index it was
    /// encoded from.
    pub proof fn lemma_tct_destroy_projectile_round_trip(projectile_i: u8)
        ensures
            Self::spec_parse_index_only(Self::spec_tct_destroy_projectile(projectile_i))
                == Some(projectile_i as usize),
    {
    }

    /// Law: an explosion broadcast decodes to the type and coordinate bit
    /// patterns it was encoded from.
    pub proof fn lemma_tct_projectile_explosion_round_trip(
        projectile_type: u8,
        x_bits: u32,
        y_bits: u32,
    )
        ensures
            Self::spec_parse_tct_projectile_explosion(Self::spec_tct_projectile_explosion(
                projectile_type, x_bits, y_bits,
            )) == Some((projectile_type as usize, x_bits, y_bits)),
    {
        lemma_auto_spec_u32_to_from_le_bytes();
        let m = Self::spec_tct_projectile_explosion(projectile_type, x_bits, y_bits);
        assert(m.subrange(2, 6) =~= spec_u32_to_le_bytes(x_bits));
        assert(m.subrange(6, 10) =~= spec_u32_to_le_bytes(y_bits));
    }

    /// Law: a health broadcast decodes to the health bit pattern it was
    /// encoded from.
    pub proof fn lemma_tct_update_health_round_trip(health_bits: u32)
        ensures
            Self::spec_parse_tct_update_health(Self::spec_tct_update_health(health_bits))
                == Some(health_bits),
    {
        lemma_auto_spec_u32_to_from_le_bytes();
        let m = Self::spec_tct_update_health(health_bits);
        assert(m.subrange(1, 5) =~= spec_u32_to_le_bytes(health_bits));
    }

    /// Law: a kill broadcast decodes to the index it was encoded from.
    pub proof fn lemma_tct_kill_player_round_trip(player_i: u8)
        ensures
            Self::spec_parse_index_only(Self::spec_tct_kill_player(player_i))
                == Some(player_i as usize),
    {
    }

    /// Law: a respawn broadcast decodes to the index and coordinate bit
    /// patterns it was encoded from.
    pub proof fn lemma_tct_respawn_player_round_trip(player_i: u8, x_bits: u32, y_bits: u32)
        ensures
            Self::spec_parse_tct_respawn_player(Self::spec_tct_respawn_player(player_i, x_bits, y_bits))
                == Some((player_i as usize, x_bits, y_bits)),
    {
        lemma_auto_spec_u32_to_from_le_bytes();
        let m = Self::spec_tct_respawn_player(player_i, x_bits, y_bits);
        assert(m.subrange(2, 6) =~= spec_u32_to_le_bytes(x_bits));
        assert(m.subrange(6, 10) =~= spec_u32_to_le_bytes(y_bits));
    }

    /// Law: a join-result message decodes to the status it was encoded from.
    pub proof fn lemma_tct_join_existing_result_round_trip(status: u8)
        ensures
            Self::spec_parse_tct_join_existing_result(Self::spec_tct_join_existing_result(status))
                == Some(status),
    {
    }

    /// Law: every decoder rejects a buffer one byte shorter than its opcode's
    /// minimum length.
    pub proof fn lemma_truncated_rejected(m: Seq<u8>)
        ensures
            m.len() == 2 ==> Self::spec_parse_tct_toggle_ready(m) is None,
            m.len() == 9 ==> Self::spec_parse_tct_start_game(m) is None,
            m.len() == 8 ==> Self::spec_parse_tst_new_pos(m) is None,
            m.len() == 4 ==> Self::spec_parse_tst_new_angle(m) is None,
            m.len() == 9 ==> Self::spec_parse_tct_new_pos(m) is None,
            m.len() == 5 ==> Self::spec_parse_tct_new_angle(m) is None,
            m.len() == 9 ==> Self::spec_parse_tct_weapon_spawn(m) is None,
            m.len() == 1 ==> Self::spec_parse_index_only(m) is None,
            m.len() == 2 ==> Self::spec_parse_tct_assign_weapon(m) is None,
            m.len() == 17 ==> Self::spec_parse_tct_new_projectile(m) is None,
            m.len() == 9 ==> Self::spec_parse_tct_projectile_explosion(m) is None,
            m.len() == 4 ==> Self::spec_parse_tct_update_health(m) is None,
            m.len() == 9 ==> Self::spec_parse_tct_respawn_player(m) is None,
            m.len() == 1 ==> Self::spec_parse_tct_join_existing_result(m) is None,
            m.len() == 0 ==> Self::spec_parse_tst_create_new(m) is None,
            m.len() == 6 ==> Self::spec_parse_tst_join_existing(m, 6) is None,
            m.len() == 1 ==> Self::spec_parse_tct_create_new_result(m) is None,
            m.len() == 0 ==> Self::spec_parse_tct_player_list(m) is None,
    {
    }

    // +-----------------------+
    // | String-valued fields  |
    // +-----------------------+

    /// Relies on String::from_utf8: it succeeds exactly on valid UTF-8 input,
    /// and the returned string's characters are the input's UTF-8 decoding.
    #[verifier::external_body]
    pub(crate) fn vec_to_string(bytes: Vec<u8>) -> (r: Option<String>)
        ensures
            r is Some <==> valid_utf8(bytes@),
            r matches Some(s) ==> s@ == decode_utf8(bytes@),
    {
        match String::from_utf8(bytes) {
            Ok(s) => Some(s),
            Err(_) => None,
        }
    }

    fn string_bytes(s: &String) -> (r: Vec<u8>)
        ensures
            r@ == encode_utf8(s@),
    {
        slice_to_vec(s.as_str().as_bytes())
    }

    pub open spec fn spec_tst_create_new(name: Seq<char>) -> Seq<u8> {
        seq![Proto::TST_CREATE_NEW] + encode_utf8(name)
    }

    pub fn tst_create_new(name: &String) -> (r: Vec<u8>)
        ensures
            r@ == Self::spec_tst_create_new(name@),
    {
        let mut data: Vec<u8> = Vec::new();
        data.push(Self::TST_CREATE_NEW);
        let mut nb = Self::string_bytes(name);
        data.append(&mut nb);
        proof { assert(data@ =~= Self::spec_tst_create_new(name@)); }
        data
    }

    pub open spec fn spec_parse_tst_create_new(m: Seq<u8>) -> Option<Seq<char>> {
        if m.len() >= 1 {
            let nb = m.subrange(1, m.len() as int);
            if valid_utf8(nb) {
                Some(decode_utf8(nb))
            } else {
                None
            }
        } else {
            None
        }
    }

    pub fn parse_tst_create_new(message: &Vec<u8>) -> (r: Result<String, &'static str>)
        ensures
            (match r {
                Ok(name) => Self::spec_parse_tst_create_new(message@) == Some(name@),
                Err(_) => Self::spec_parse_tst_create_new(message@) is None,
            }),
    {
        let n = message.len();

        if n >= 1 {
            let name_bytes = slice_to_vec(slice_subrange(message.as_slice(), 1, n));

            if let Some(name) = Self::vec_to_string(name_bytes) {
                return Ok(name);
            }

            return Err("Invalid name bytes");
        }

        Err("Message too short")
    }

    /// Law: a CreateNew request decodes to the name it was encoded from,
    /// the empty name included.
    pub proof fn lemma_tst_create_new_round_trip(name: Seq<char>)
        ensures
            Self::spec_parse_tst_create_new(Self::spec_tst_create_new(name)) == Some(name),
    {
        broadcast use encode_utf8_valid_utf8, encode_utf8_decode_utf8;

        let m = Self::spec_tst_create_new(name);
        assert(m.subrange(1, m.len() as int) =~= encode_utf8(name));
    }

    pub open spec fn spec_tst_join_existing(code: Seq<char>, name: Seq<char>) -> Seq<u8> {
        seq![Proto::TST_JOIN_EXISTING] + encode_utf8(code) + encode_utf8(name)
    }

    pub fn tst_join_existing(code: &String, name: &String) -> (r: Vec<u8>)
        ensures
            r@ == Self::spec_tst_join_existing(code@, name@),
    {
        let mut data: Vec<u8> = Vec::new();
        data.push(Self::TST_JOIN_EXISTING);
        let mut cb = Self::string_bytes(code);
        data.append(&mut cb);
        let mut nb = Self::string_bytes(name);
        data.append(&mut nb);
        proof { assert(data@ =~= Self::spec_tst_join_existing(code@, name@)); }
        data
    }

    pub open spec fn spec_parse_tst_join_existing(m: Seq<u8>, code_len: int) -> Option<(
        Seq<char>,
        Seq<char>,
    )> {
        if m.len() >= 1 + code_len && code_len >= 0 {
            let cb = m.subrange(1, 1 + code_len);
            let nb = m.subrange(1 + code_len, m.len() as int);
            if valid_utf8(cb) && valid_utf8(nb) {
                Some((decode_utf8(cb), decode_utf8(nb)))
            } else {
                None
            }
        } else {
            None
        }
    }

    pub fn parse_tst_join_existing(message: &Vec<u8>, game_code_length: i32) -> (r: Result<
        (String, String),
        &'static str,
    >)
        requires
            game_code_length >= 0,
        ensures
            (match r {
                Ok(pair) => Self::spec_parse_tst_join_existing(message@, game_code_length as int)
                    == Some((pair.0@, pair.1@)),
                Err(_) => Self::spec_parse_tst_join_existing(message@, game_code_length as int)
                    is None,
            }),
    {
        let code_len = game_code_length as usize;
        let n = message.len();

        if n >= 1 + code_len {
            let code_bytes = slice_to_vec(slice_subrange(message.as_slice(), 1, 1 + code_len));
            let name_bytes = slice_to_vec(slice_subrange(message.as_slice(), 1 + code_len, n));

            let code = Self::vec_to_string(code_bytes);

            if code.is_none() {
                return Err("Invalid code bytes");
            }

            let name = Self::vec_to_string(name_bytes);

            if name.is_none() {
                return Err("Invalid name bytes");
            }

            return Ok((code.unwrap(), name.unwrap()));
        }

        Err("Message too short")
    }

    /// Law: a JoinExisting request decodes to the code and name it was
    /// encoded from, for any six-character ASCII code and any name, the empty
    /// name included.
    pub proof fn lemma_tst_join_existing_round_trip(code: Seq<char>, name: Seq<char>)
        requires
            code.len() == 6,
            is_ascii_chars(code),
        ensures
            Self::spec_parse_tst_join_existing(Self::spec_tst_join_existing(code, name), 6)
                == Some((code, name)),
    {
        broadcast use encode_utf8_valid_utf8, encode_utf8_decode_utf8;

        is_ascii_chars_encode_utf8(code);
        let m = Self::spec_tst_join_existing(code, name);
        assert(m.subrange(1, 7) =~= encode_utf8(code));
        assert(m.subrange(7, m.len() as int) =~= encode_utf8(name));
    }

    pub open spec fn spec_tct_create_new_result(status: u8, code: Seq<char>) -> Seq<u8> {
        seq![Proto::TCT_CREATE_NEW_RESULT, status] + encode_utf8(code)
    }

    pub fn tct_create_new_result(status: u8, code: &String) -> (r: Vec<u8>)
        ensures
            r@ == Self::spec_tct_create_new_result(status, code@),
    {
        let mut data: Vec<u8> = Vec::new();
        data.push(Self::TCT_CREATE_NEW_RESULT);
        data.push(status);
        let mut cb = Self::string_bytes(code);
        data.append(&mut cb);
        proof { assert(data@ =~= Self::spec_tct_create_new_result(status, code@)); }
        data
    }

    pub open spec fn spec_parse_tct_create_new_result(m: Seq<u8>) -> Option<(u8, Seq<char>)> {
        if m.len() >= 2 {
            let cb = m.subrange(2, m.len() as int);
            if valid_utf8(cb) {
                Some((m[1], decode_utf8(cb)))
            } else {
                None
            }
        } else {
            None
        }
    }

    pub fn parse_tct_create_new_result(message: &Vec<u8>) -> (r: Result<
        (u8, String),
        &'static str,
    >)
        ensures
            (match r {
                Ok(pair) => Self::spec_parse_tct_create_new_result(message@)
                    == Some((pair.0, pair.1@)),
                Err(_) => Self::spec_parse_tct_create_new_result(message@) is None,
            }),
    {
        let n = message.len();

        if n >= 2 {
            let status = message[1];
            let code_bytes = slice_to_vec(slice_subrange(message.as_slice(), 2, n));

            if let Some(code) = Self::vec_to_string(code_bytes) {
                return Ok((status, code));
            }

            return Err("Invalid code bytes");
        }

        Err("Message too short")
    }

    /// Law: a CreateNewResult message decodes to the status and code it was
    /// encoded from, the empty code of the failure reply included.
    pub proof fn lemma_tct_create_new_result_round_trip(status: u8, code: Seq<char>)
        ensures
            Self::spec_parse_tct_create_new_result(Self::spec_tct_create_new_result(status, code))
                == Some((status, code)),
    {
        broadcast use encode_utf8_valid_utf8, encode_utf8_decode_utf8;

        let m = Self::spec_tct_create_new_result(status, code);
        assert(m.subrange(2, m.len() as int) =~= encode_utf8(code));
    }

    // +-------------+
    // | Player list |
    // +-------------+

    /// Index of the first separator byte in `b`, or `b.len()` if there is
    /// none.
    pub open spec fn spec_first_sep(b: Seq<u8>) -> nat
        decreases b.len(),
    {
        if b.len() == 0 {
            0
        } else if b[0] == Proto::SEPARATOR {
            0
        } else {
            1 + Self::spec_first_sep(b.skip(1))
        }
    }

    proof fn lemma_first_sep_at(b: Seq<u8>, k: nat)
        requires
            k <= b.len(),
            forall|j: int| 0 <= j < k ==> b[j] != Proto::SEPARATOR,
            k < b.len() ==> b[k as int] == Proto::SEPARATOR,
        ensures
            Self::spec_first_sep(b) == k,
        decreases k,
    {
        if k > 0 {
            assert(b.skip(1).len() == b.len() - 1);
            assert(forall|j: int| 0 <= j < k - 1 ==> b.skip(1)[j] == b[j + 1]);
            Self::lemma_first_sep_at(b.skip(1), (k - 1) as nat);
        }
    }

    /// The names carried by a player-list payload: the separator-terminated
    /// chunks, each decoded as UTF-8; trailing bytes after the last separator
    /// carry no name. `None` when some chunk is not valid UTF-8.
    pub open spec fn spec_parse_names(b: Seq<u8>) -> Option<Seq<Seq<char>>>
        decreases b.len(),
    {
        let k = Self::spec_first_sep(b);
        if k >= b.len() {
            Some(Seq::empty())
        } else {
            let chunk = b.take(k as int);
            if valid_utf8(chunk) {
                match Self::spec_parse_names(b.skip(k as int + 1)) {
                    Some(rest) => Some(seq![decode_utf8(chunk)] + rest),
                    None => None,
                }
            } else {
                None
            }
        }
    }

    pub open spec fn spec_parse_tct_player_list(m: Seq<u8>) -> Option<Seq<Seq<char>>> {
        if m.len() >= 1 {
            Self::spec_parse_names(m.skip(1))
        } else {
            None
        }
    }

    pub fn parse_tct_player_list(message: &Vec<u8>) -> (r: Result<Vec<String>, &'static str>)
        ensures
            (match r {
                Ok(names) => Self::spec_parse_tct_player_list(message@) == Some(names.deep_view()),
                Err(_) => Self::spec_parse_tct_player_list(message@) is None,
            }),
    {
        let n = message.len();

        if n < 1 {
            return Err("Message too short");
        }

        let mut player_names: Vec<String> = Vec::new();
        let mut name_buff: Vec<u8> = Vec::new();
        let mut i: usize = 1;

        while i < n
            invariant
                1 <= i <= n,
                n == message@.len(),
                forall|j: int| 0 <= j < name_buff@.len() ==> name_buff@[j] != Proto::SEPARATOR,
                (match Self::spec_parse_names(name_buff@ + message@.skip(i as int)) {
                    Some(rest) => Self::spec_parse_names(message@.skip(1))
                        == Some(player_names.deep_view() + rest),
                    None => Self::spec_parse_names(message@.skip(1)) is None,
                }),
            decreases n - i,
        {
            let byte = message[i];

            if byte == Proto::SEPARATOR {
                let ghost old_names = player_names.deep_view();
                let ghost old_buff = name_buff@;
                let ghost s = old_buff + message@.skip(i as int);

                proof {
                    Self::lemma_first_sep_at(s, old_buff.len());
                    assert(s.take(old_buff.len() as int) =~= old_buff);
                    assert(s.skip(old_buff.len() as int + 1) =~= message@.skip(i as int + 1));
                }

                let parsed_name = Self::vec_to_string(name_buff);

                if parsed_name.is_none() {
                    return Err("Unable to parse name");
                }

                let new_player = parsed_name.unwrap();
                player_names.push(new_player);
                name_buff = Vec::new();

                proof {
                    assert(player_names.deep_view() =~= old_names.push(decode_utf8(old_buff)));
                    assert(name_buff@ + message@.skip(i as int + 1)
                        =~= message@.skip(i as int + 1));
                    if let Some(rest) = Self::spec_parse_names(message@.skip(i as int + 1)) {
                        assert(old_names + (seq![decode_utf8(old_buff)] + rest)
                            =~= player_names.deep_view() + rest);
                    }
                }
            } else {
                let ghost old_buff = name_buff@;
                name_buff.push(byte);

                proof {
                    assert(name_buff@ + message@.skip(i as int + 1)
                        =~= old_buff + message@.skip(i as int));
                }
            }

            i = i + 1;
        }

        proof {
            assert(name_buff@ + message@.skip(n as int) =~= name_buff@);
            Self::lemma_first_sep_at(name_buff@, name_buff@.len());
            assert(player_names.deep_view() + Seq::<Seq<char>>::empty()
                =~= player_names.deep_view());
        }

        Ok(player_names)
    }

    /// The wire encoding of a list of names: each name's UTF-8 bytes followed
    /// by one separator byte.
    pub open spec fn spec_joined_names(names: Seq<Seq<char>>) -> Seq<u8>
        decreases names.len(),
    {
        if names.len() == 0 {
            Seq::empty()
        } else {
            encode_utf8(names[0]) + seq![Proto::SEPARATOR] + Self::spec_joined_names(names.skip(1))
        }
    }

    pub open spec fn spec_tct_player_list(names: Seq<Seq<char>>) -> Seq<u8> {
        seq![Proto::TCT_PLAYER_LIST] + Self::spec_joined_names(names)
    }

    proof fn lemma_joined_names_push(names: Seq<Seq<char>>, x: Seq<char>)
        ensures
            Self::spec_joined_names(names.push(x)) =~= Self::spec_joined_names(names)
                + encode_utf8(x) + seq![Proto::SEPARATOR],
        decreases names.len(),
    {
        let l = names.push(x);

        if names.len() == 0 {
            assert(l[0] == x);
            assert(l.skip(1) =~= Seq::<Seq<char>>::empty());
            assert(Self::spec_joined_names(l.skip(1)) == Seq::<u8>::empty());
            assert(Self::spec_joined_names(l) == encode_utf8(x) + seq![Proto::SEPARATOR]
                + Seq::<u8>::empty());
            assert(Self::spec_joined_names(names) == Seq::<u8>::empty());
        } else {
            assert(l[0] == names[0]);
            assert(l.skip(1) =~= names.skip(1).push(x));
            Self::lemma_joined_names_push(names.skip(1), x);
            assert(Self::spec_joined_names(l) == encode_utf8(names[0]) + seq![Proto::SEPARATOR]
                + Self::spec_joined_names(names.skip(1).push(x)));
            assert(Self::spec_joined_names(names) == encode_utf8(names[0])
                + seq![Proto::SEPARATOR] + Self::spec_joined_names(names.skip(1)));
        }
    }

    pub fn tct_player_list(names: &Vec<String>) -> (r: Vec<u8>)
        ensures
            r@ == Self::spec_tct_player_list(names.deep_view()),
    {
        let mut data: Vec<u8> = Vec::new();
        data.push(Self::TCT_PLAYER_LIST);

        let mut i: usize = 0;

        while i < names.len()
            invariant
                0 <= i <= names@.len(),
                data@ =~= seq![Proto::TCT_PLAYER_LIST]
                    + Self::spec_joined_names(names.deep_view().take(i as int)),
            decreases names@.len() - i,
        {
            let ghost done = names.deep_view().take(i as int);
            let mut nb = Self::string_bytes(&names[i]);
            data.append(&mut nb);
            data.push(Self::SEPARATOR);

            proof {
                Self::lemma_joined_names_push(done, names.deep_view()[i as int]);
                assert(names.deep_view().take(i as int + 1)
                    =~= done.push(names.deep_view()[i as int]));
            }

            i = i + 1;
        }

        proof {
            assert(names.deep_view().take(names.deep_view().len() as int) =~= names.deep_view());
        }

        data
    }

    /// True of a name that the list encoding can carry losslessly: no
    /// character is the separator. Any other character, ASCII or not, is
    /// carried: a multi-byte UTF-8 encoding never contains the separator
    /// byte.
    pub open spec fn wire_name_ok(s: Seq<char>) -> bool {
        forall|j: int| 0 <= j < s.len() ==> (#[trigger] s[j]) as u32 != 0x1E
    }

    /// No byte of a non-separator scalar's UTF-8 encoding is the separator:
    /// a one-byte encoding is the scalar itself, and every byte of a longer
    /// encoding has its high bit set.
    proof fn lemma_scalar_bytes_not_separator(c: u32)
        requires
            c != 0x1E,
        ensures
            forall|j: int| 0 <= j < encode_scalar(c).len()
                ==> #[trigger] encode_scalar(c)[j] != Proto::SEPARATOR,
    {
        if has_width_1_encoding(c) {
            assert(((c & 0x7F) as u8) != 0x1Eu8) by (bit_vector)
                requires
                    c <= 0x7F,
                    c != 0x1E,
            ;
        } else {
            assert((0xC0u8 | (((c >> 6) & 0x1F) as u8)) != 0x1Eu8) by (bit_vector);
            assert((0xE0u8 | (((c >> 12) & 0x0F) as u8)) != 0x1Eu8) by (bit_vector);
            assert((0xF0u8 | (((c >> 18) & 0x7) as u8)) != 0x1Eu8) by (bit_vector);
            assert((0x80u8 | ((c & 0x3F) as u8)) != 0x1Eu8) by (bit_vector);
            assert((0x80u8 | (((c >> 6) & 0x3F) as u8)) != 0x1Eu8) by (bit_vector);
            assert((0x80u8 | (((c >> 12) & 0x3F) as u8)) != 0x1Eu8) by (bit_vector);
        }
    }

    /// No byte of a separator-free name's UTF-8 encoding is the separator.
    proof fn lemma_name_bytes_not_separator(chars: Seq<char>)
        requires
            Self::wire_name_ok(chars),
        ensures
            forall|j: int| 0 <= j < encode_utf8(chars).len()
                ==> #[trigger] encode_utf8(chars)[j] != Proto::SEPARATOR,
        decreases chars.len(),
    {
        if chars.len() > 0 {
            let head = encode_scalar(chars[0] as u32);
            let tail = encode_utf8(chars.drop_first());

            vstd::utf8::char_is_scalar(chars[0]);
            Self::lemma_scalar_bytes_not_separator(chars[0] as u32);
            Self::lemma_name_bytes_not_separator(chars.drop_first());

            assert forall|j: int| 0 <= j < encode_utf8(chars).len()
                implies #[trigger] encode_utf8(chars)[j] != Proto::SEPARATOR by {
                if j < head.len() {
                    assert(encode_utf8(chars)[j] == head[j]);
                } else {
                    assert(encode_utf8(chars)[j] == tail[j - head.len()]);
                }
            }
        }
    }

    /// Law: a player-list broadcast decodes to the names it was encoded from,
    /// for any list of separator-free names, empty names included.
    pub proof fn lemma_tct_player_list_round_trip(names: Seq<Seq<char>>)
        requires
            forall|i: int| 0 <= i < names.len() ==> Self::wire_name_ok(#[trigger] names[i]),
        ensures
            Self::spec_parse_names(Self::spec_joined_names(names)) == Some(names),
            Self::spec_parse_tct_player_list(Self::spec_tct_player_list(names)) == Some(names),
        decreases names.len(),
    {
        broadcast use encode_utf8_valid_utf8, encode_utf8_decode_utf8;

        let b = Self::spec_joined_names(names);

        if names.len() == 0 {
            Self::lemma_first_sep_at(b, 0);
            assert(Self::spec_parse_names(b) == Some(Seq::<Seq<char>>::empty()));
            assert(Some(Seq::<Seq<char>>::empty()) == Some(names)) by {
                assert(Seq::<Seq<char>>::empty() =~= names);
            }
        } else {
            let n0 = names[0];
            let eb = encode_utf8(n0);
            Self::lemma_name_bytes_not_separator(n0);

            assert(forall|j: int| 0 <= j < eb.len() ==> b[j] == eb[j]);
            assert(forall|j: int| 0 <= j < eb.len() ==> b[j] != Proto::SEPARATOR);
            assert(b[eb.len() as int] == Proto::SEPARATOR);
            Self::lemma_first_sep_at(b, eb.len());

            assert(b.take(eb.len() as int) =~= eb);
            assert(b.skip(eb.len() as int + 1) =~= Self::spec_joined_names(names.skip(1)));

            Self::lemma_tct_player_list_round_trip(names.skip(1));

            assert(seq![n0] + names.skip(1) =~= names);
            assert(Self::spec_tct_player_list(names).skip(1) =~= b);
        }
    }

    // +------------------+
    // | Game-over stats  |
    // +------------------+

    /// A signed counter on the wire: the little-endian bytes of its 32-bit
    /// two's-complement pattern.
    pub open spec fn spec_i32_le_bytes(x: i32) -> Seq<u8> {
        spec_u32_to_le_bytes(x as u32)
    }

    pub open spec fn spec_stats_bytes(kills_deaths: Seq<(i32, i32)>) -> Seq<u8>
        decreases kills_deaths.len(),
    {
        if kills_deaths.len() == 0 {
            Seq::empty()
        } else {
            Self::spec_i32_le_bytes(kills_deaths[0].0) + Self::spec_i32_le_bytes(
                kills_deaths[0].1,
            ) + Self::spec_stats_bytes(kills_deaths.skip(1))
        }
    }

    pub open spec fn spec_tct_game_over_stats(kills_deaths: Seq<(i32, i32)>) -> Seq<u8> {
        seq![Proto::TCT_GAME_OVER_STATS] + Self::spec_stats_bytes(kills_deaths)
    }

    proof fn lemma_stats_bytes_push(kills_deaths: Seq<(i32, i32)>, x: (i32, i32))
        ensures
            Self::spec_stats_bytes(kills_deaths.push(x)) =~= Self::spec_stats_bytes(kills_deaths)
                + Self::spec_i32_le_bytes(x.0) + Self::spec_i32_le_bytes(x.1),
        decreases kills_deaths.len(),
    {
        let l = kills_deaths.push(x);

        if kills_deaths.len() == 0 {
            assert(l[0] == x);
            assert(l.skip(1) =~= Seq::<(i32, i32)>::empty());
            assert(Self::spec_stats_bytes(l.skip(1)) == Seq::<u8>::empty());
            assert(Self::spec_stats_bytes(l) == Self::spec_i32_le_bytes(x.0)
                + Self::spec_i32_le_bytes(x.1) + Seq::<u8>::empty());
            assert(Self::spec_stats_bytes(kills_deaths) == Seq::<u8>::empty());
        } else {
            assert(l[0] == kills_deaths[0]);
            assert(l.skip(1) =~= kills_deaths.skip(1).push(x));
            Self::lemma_stats_bytes_push(kills_deaths.skip(1), x);
            assert(Self::spec_stats_bytes(l) == Self::spec_i32_le_bytes(kills_deaths[0].0)
                + Self::spec_i32_le_bytes(kills_deaths[0].1) + Self::spec_stats_bytes(
                kills_deaths.skip(1).push(x),
            ));
            assert(Self::spec_stats_bytes(kills_deaths) == Self::spec_i32_le_bytes(
                kills_deaths[0].0,
            ) + Self::spec_i32_le_bytes(kills_deaths[0].1) + Self::spec_stats_bytes(
                kills_deaths.skip(1),
            ));
        }
    }

    pub fn tct_game_over_stats(kills_deaths: &Vec<(i32, i32)>) -> (r: Vec<u8>)
        ensures
            r@ == Self::spec_tct_game_over_stats(kills_deaths@),
    {
        let mut data: Vec<u8> = Vec::new();
        data.push(Self::TCT_GAME_OVER_STATS);

        let mut i: usize = 0;

        while i < kills_deaths.len()
            invariant
                0 <= i <= kills_deaths@.len(),
                data@ =~= seq![Proto::TCT_GAME_OVER_STATS]
                    + Self::spec_stats_bytes(kills_deaths@.take(i as int)),
            decreases kills_deaths@.len() - i,
        {
            let ghost done = kills_deaths@.take(i as int);
            let (kills, deaths) = kills_deaths[i];
            let mut kb = u32_to_le_bytes(#[verifier::truncate] (kills as u32));
            data.append(&mut kb);
            let mut db = u32_to_le_bytes(#[verifier::truncate] (deaths as u32));
            data.append(&mut db);

            proof {
                Self::lemma_stats_bytes_push(done, kills_deaths@[i as int]);
                assert(kills_deaths@.take(i as int + 1) =~= done.push(kills_deaths@[i as int]));
            }

            i = i + 1;
        }

        proof {
            assert(kills_deaths@.take(kills_deaths@.len() as int) =~= kills_deaths@);
        }

        data
    }

    /// The per-player (kills, deaths) pairs carried by a stats payload: one
    /// pair per full eight bytes; a trailing fragment carries no pair.
    pub open spec fn spec_parse_stats(b: Seq<u8>) -> Seq<(i32, i32)>
        decreases b.len(),
    {
        if b.len() < 8 {
            Seq::empty()
        } else {
            seq![
                (
                    spec_u32_from_le_bytes(b.subrange(0, 4)) as i32,
                    spec_u32_from_le_bytes(b.subrange(4, 8)) as i32,
                ),
            ] + Self::spec_parse_stats(b.skip(8))
        }
    }

    pub open spec fn spec_parse_tct_game_over_stats(m: Seq<u8>) -> Seq<(i32, i32)> {
        if m.len() >= 1 {
            Self::spec_parse_stats(m.skip(1))
        } else {
            Seq::empty()
        }
    }

    pub fn parse_tct_game_over_stats(message: &Vec<u8>) -> (r: Vec<(i32, i32)>)
        ensures
            r@ == Self::spec_parse_tct_game_over_stats(message@),
    {
        let mut kills_deaths: Vec<(i32, i32)> = Vec::new();
        let n = message.len();

        if n < 1 {
            return kills_deaths;
        }

        let mut i: usize = 1;

        while i < n && n - i >= 8
            invariant
                1 <= i <= n,
                n == message@.len(),
                Self::spec_parse_stats(message@.skip(1)) =~= kills_deaths@
                    + Self::spec_parse_stats(message@.skip(i as int)),
            decreases n - i,
        {
            let kills_u = Self::read_u32_le(message, i);
            let deaths_u = Self::read_u32_le(message, i + 4);
            let kills = #[verifier::truncate] (kills_u as i32);
            let deaths = #[verifier::truncate] (deaths_u as i32);

            proof {
                let tail = message@.skip(i as int);
                assert(tail.subrange(0, 4) =~= message@.subrange(i as int, i as int + 4));
                assert(tail.subrange(4, 8) =~= message@.subrange(i as int + 4, i as int + 8));
                assert(tail.skip(8) =~= message@.skip(i as int + 8));
            }

            kills_deaths.push((kills, deaths));
            i = i + 8;
        }

        proof {
            assert(Self::spec_parse_stats(message@.skip(i as int)) =~= Seq::<(i32, i32)>::empty());
            assert(kills_deaths@ + Seq::<(i32, i32)>::empty() =~= kills_deaths@);
        }

        kills_deaths
    }

    /// Law: a GameOverStats broadcast decodes to every (kills, deaths) pair
    /// it was encoded from, in order.
    pub proof fn lemma_tct_game_over_stats_round_trip(kills_deaths: Seq<(i32, i32)>)
        ensures
            Self::spec_parse_tct_game_over_stats(Self::spec_tct_game_over_stats(kills_deaths))
                == kills_deaths,
        decreases kills_deaths.len(),
    {
        lemma_auto_spec_u32_to_from_le_bytes();

        let b = Self::spec_stats_bytes(kills_deaths);

        if kills_deaths.len() == 0 {
            assert(b =~= Seq::<u8>::empty());
            assert(Self::spec_parse_stats(b) =~= kills_deaths);
        } else {
            let k = kills_deaths[0].0;
            let d = kills_deaths[0].1;

            assert(((k as u32) as i32) == k) by (bit_vector);
            assert(((d as u32) as i32) == d) by (bit_vector);

            assert(b.subrange(0, 4) =~= Self::spec_i32_le_bytes(k));
            assert(b.subrange(4, 8) =~= Self::spec_i32_le_bytes(d));
            assert(b.skip(8) =~= Self::spec_stats_bytes(kills_deaths.skip(1)));

            Self::lemma_tct_game_over_stats_round_trip(kills_deaths.skip(1));

            assert(Self::spec_tct_game_over_stats(kills_deaths.skip(1)).skip(1)
                =~= Self::spec_stats_bytes(kills_deaths.skip(1)));
            assert(Self::spec_parse_stats(b) =~= seq![(k, d)]
                + Self::spec_parse_stats(b.skip(8)));
            assert(seq![(k, d)] + kills_deaths.skip(1) =~= kills_deaths);
            assert(Self::spec_tct_game_over_stats(kills_deaths).skip(1) =~= b);
        }
    }
}

} // verus!
