//! This module implements the traits and methods used to hash a position.
//!
//! A position is hashed the Zobrist way: each piece on each cell has a
//! pseudo-random 64-bit key, and the hash of a position is the exclusive or of
//! the keys of its pieces, and of a key of the player to move when black moves.
//! The key of a piece on a cell is drawn by the SplitMix64 generator from the
//! piece and the cell.
use vstd::prelude::*;

use crate::bitboard::{piece_at, Board};
use crate::logic::{Player, N_CELLS};
use crate::piece::Piece;

verus! {

/// Key of the black player to move
pub const PLAYER_HASH: u64 = 0xf2a7_4de4_52e6_b438u64;

/// Increment of the SplitMix64 state
pub const GOLDEN_GAMMA: u64 = 0x9e37_79b9_7f4a_7c15u64;

/// First multiplier of the SplitMix64 output
pub const MIX1: u64 = 0xbf58_476d_1ce4_e5b9u64;

/// Second multiplier of the SplitMix64 output
pub const MIX2: u64 = 0x94d0_49bb_1331_11ebu64;

/// The SplitMix64 output for the state `x`.
pub open spec fn split_mix(x: u64) -> u64 {
    let z1 = vstd::wrapping::u64_specs::wrapping_add(x, GOLDEN_GAMMA);
    let z2 = vstd::wrapping::u64_specs::wrapping_mul(z1 ^ (z1 >> 30u64), MIX1);
    let z3 = vstd::wrapping::u64_specs::wrapping_mul(z2 ^ (z2 >> 27u64), MIX2);
    z3 ^ (z3 >> 31u64)
}

/// The key of `piece` on the cell `index`.
pub open spec fn zobrist_key(piece: u8, index: int) -> u64 {
    split_mix((piece * 64 + index + 1) as u64)
}

/// The exclusive or of the keys of the pieces on the cells below `n`, starting
/// from the key of the player to move.
pub open spec fn hash_upto(v: Seq<u64>, player: Player, n: int) -> u64
    decreases n,
{
    if n <= 0 {
        if player == 1 {
            PLAYER_HASH
        } else {
            0
        }
    } else {
        let acc = hash_upto(v, player, n - 1);
        let p = piece_at(v, n - 1);
        if p == 0 {
            acc
        } else {
            acc ^ zobrist_key(p, n - 1)
        }
    }
}

/// The hash of a position: the exclusive or of the keys of its pieces and of
/// the player to move.
pub open spec fn position_hash(v: Seq<u64>, player: Player) -> u64 {
    hash_upto(v, player, 45)
}

/// Returns the key of `piece` on the cell `index`.
pub fn zobrist_key_of(piece: Piece, index: usize) -> (r: u64)
    requires
        index < 64,
    ensures
        r == zobrist_key(piece, index as int),
{
    let x = (piece as u64) * 64 + (index as u64) + 1;
    let z1 = x.wrapping_add(GOLDEN_GAMMA);
    let z2 = (z1 ^ (z1 >> 30u64)).wrapping_mul(MIX1);
    let z3 = (z2 ^ (z2 >> 27u64)).wrapping_mul(MIX2);
    z3 ^ (z3 >> 31u64)
}

/// `HashTrait` trait for `Cells`
pub trait HashTrait {
    /// Converts the cells into a hash that can be used to index a transposition table.
    fn hash(&self) -> usize;
}

impl<'a> HashTrait for (&'a Board, Player) {
    fn hash(&self) -> (r: usize)
        ensures
            r == position_hash(self.0@, self.1) as usize,
    {
        let board = self.0;
        let mut acc: u64 = if self.1 == 1 {
            PLAYER_HASH
        } else {
            0
        };
        let mut index: usize = 0;
        while index < N_CELLS
            invariant
                index <= 45,
                acc == hash_upto(board@, self.1, index as int),
            decreases N_CELLS - index,
        {
            let piece = board.get_piece(index);
            if piece != 0 {
                acc = acc ^ zobrist_key_of(piece, index);
            }
            index += 1;
        }
        acc as usize
    }
}

proof fn lemma_xor_facts(a: u64, k: u64, z: u64)
    ensures
        0u64 ^ k == k,
        (a ^ k) ^ z == (a ^ z) ^ k,
{
    assert(0u64 ^ k == k && (a ^ k) ^ z == (a ^ z) ^ k) by (bit_vector);
}

proof fn lemma_hash_upto_player(v: Seq<u64>, n: int)
    ensures
        hash_upto(v, 1, n) == hash_upto(v, 0, n) ^ PLAYER_HASH,
    decreases n,
{
    if n <= 0 {
        lemma_xor_facts(0, PLAYER_HASH, 0);
    } else {
        lemma_hash_upto_player(v, n - 1);
        let p = piece_at(v, n - 1);
        if p != 0 {
            lemma_xor_facts(hash_upto(v, 0, n - 1), PLAYER_HASH, zobrist_key(p, n - 1));
        }
    }
}

/// Law: the hash of a position with black to move is the hash of the same
/// cells with white to move, combined (exclusive or) with the key of the
/// player; as that key is not 0, the two hashes differ.
pub proof fn lemma_hash_player(v: Seq<u64>)
    ensures
        position_hash(v, 1) == position_hash(v, 0) ^ PLAYER_HASH,
        position_hash(v, 1) != position_hash(v, 0),
{
    lemma_hash_upto_player(v, 45);
    let h = position_hash(v, 0);
    assert(h ^ 0xf2a7_4de4_52e6_b438u64 != h) by (bit_vector);
}

} // verus!
