//! Cache-validation tags: maps entropy bytes to an alphanumeric tag.
//!
//! The entropy itself is drawn once per deployment by the caller; this
//! module owns the mapping from entropy bytes to the tag's characters.

use vstd::prelude::*;
use vstd::utf8::{encode_utf8, decode_utf8, valid_utf8, decode_utf8_encode_utf8};
use crate::proto::Proto;
use crate::game_matches::lemma_ascii_bytes_valid_utf8;

verus! {

pub struct Etag {}

impl Etag {
    /// One entropy byte's tag character, drawn from the alphabet
    /// `a-z A-Z 0-9` by the byte's residue.
    pub open spec fn spec_tag_byte(b: u8) -> u8 {
        let i = b % 62;
        if i < 26 {
            (0x61 + i) as u8
        } else if i < 52 {
            (0x41 + (i - 26)) as u8
        } else {
            (0x30 + (i - 52)) as u8
        }
    }

    /// The tag for the given entropy bytes: one alphanumeric character per
    /// byte.
    pub fn get(etag_bytes: &Vec<u8>) -> (r: String)
        ensures
            encode_utf8(r@) == etag_bytes@.map_values(|b: u8| Self::spec_tag_byte(b)),
    {
        let mut tag: Vec<u8> = Vec::new();
        let n = etag_bytes.len();
        let mut i: usize = 0;

        while i < n
            invariant
                i <= n,
                n == etag_bytes@.len(),
                tag@ =~= etag_bytes@.map_values(|b: u8| Self::spec_tag_byte(b)).take(i as int),
                forall|k: int| 0 <= k < tag@.len() ==> (#[trigger] tag@[k]) < 0x80,
            decreases n - i,
        {
            let b = etag_bytes[i] % 62;

            let ch: u8 = if b < 26 {
                0x61 + b
            } else if b < 52 {
                0x41 + (b - 26)
            } else {
                0x30 + (b - 52)
            };

            tag.push(ch);

            proof {
                assert(tag@ =~= etag_bytes@.map_values(|x: u8| Self::spec_tag_byte(x)).take(
                    i as int + 1,
                ));
            }

            i = i + 1;
        }

        proof {
            assert(tag@ =~= etag_bytes@.map_values(|b: u8| Self::spec_tag_byte(b)));
            lemma_ascii_bytes_valid_utf8(tag@);
        }

        let ghost tag_bytes = tag@;
        let text = Proto::vec_to_string(tag);

        proof {
            decode_utf8_encode_utf8(tag_bytes);
        }

        match text {
            Some(s) => s,
            None => vstd::pervasive::unreached(),
        }
    }
}

} // verus!
