//! A terminal whack-a-mole arcade game: a 3-by-3 field of holes reveals
//! transient targets that the player strikes with digit keys before a
//! countdown runs out. This crate holds the game's verified core: the
//! wall-bitmask grid geometry, the glyph renderer's character grid, and
//! the shared game state with its spawn, timer, strike and win rules.

pub mod digits;
pub mod game;
mod rng;
pub mod view;

use vstd::prelude::*;

verus! {

/// Maps a digit key to the index of the hole it strikes.
pub fn hole_index_of_key(ch: char) -> (r: Option<usize>)
    ensures
        r == key_hole_index(ch),
{
    match ch {
        '1' => Some(0),
        '2' => Some(1),
        '3' => Some(2),
        '4' => Some(3),
        '5' => Some(4),
        '6' => Some(5),
        '7' => Some(6),
        '8' => Some(7),
        '9' => Some(8),
        _ => None,
    }
}

/// The hole index that a key event selects: digits '1' through '9'
/// name holes 0 through 8; every other key is ignored.
pub open spec fn key_hole_index(ch: char) -> Option<usize> {
    match ch {
        '1' => Some(0usize),
        '2' => Some(1usize),
        '3' => Some(2usize),
        '4' => Some(3usize),
        '5' => Some(4usize),
        '6' => Some(5usize),
        '7' => Some(6usize),
        '8' => Some(7usize),
        '9' => Some(8usize),
        _ => None,
    }
}

} // verus!
