//! Precomputed bitboards describing the geometry of the board.
//!
//! The cells are indexed as such:
//! ```not_rust
//!   0   1   2   3   4   5
//! 6   7   8   9   10  11  12
//!   13  14  15  16  17  18
//! 19  20  21  22  23  24  25
//!   26  27  28  29  30  31
//! 32  33  34  35  36  37  38
//!   39  40  41  42  43  44
//! ```
//! Two cells are neighbours when they are side by side on a row or touch on
//! the next or previous row; the cells at distance 2 are two steps away along
//! one of the six directions, and the cell halfway between has the index
//! `(a + b) / 2`.
//!
//! The tables have 64 entries so that any bit index can be looked up; the
//! entries past the last cell are empty.
use vstd::prelude::*;

use crate::bitboard::{bit, lemma_bit_ops};

verus! {

/// For each cell, the cells at distance 1.
pub const NEIGHBOURS1: [u64; 64] = [
    0xc2u64, 0x185u64, 0x30au64, 0x614u64,
    0xc28u64, 0x1810u64, 0x2081u64, 0x6143u64,
    0xc286u64, 0x1850cu64, 0x30a18u64, 0x61430u64,
    0x40820u64, 0x1840c0u64, 0x30a180u64, 0x614300u64,
    0xc28600u64, 0x1850c00u64, 0x3021800u64, 0x4102000u64,
    0xc286000u64, 0x1850c000u64, 0x30a18000u64, 0x61430000u64,
    0xc2860000u64, 0x81040000u64, 0x308180000u64, 0x614300000u64,
    0xc28600000u64, 0x1850c00000u64, 0x30a1800000u64, 0x6043000000u64,
    0x8204000000u64, 0x1850c000000u64, 0x30a18000000u64, 0x61430000000u64,
    0xc2860000000u64, 0x1850c0000000u64, 0x102080000000u64, 0x10300000000u64,
    0x28600000000u64, 0x50c00000000u64, 0xa1800000000u64, 0x143000000000u64,
    0x86000000000u64, 0x0u64, 0x0u64, 0x0u64,
    0x0u64, 0x0u64, 0x0u64, 0x0u64,
    0x0u64, 0x0u64, 0x0u64, 0x0u64,
    0x0u64, 0x0u64, 0x0u64, 0x0u64,
    0x0u64, 0x0u64, 0x0u64, 0x0u64,
];

/// For each cell, the cells at distance 2 in a straight line.
pub const NEIGHBOURS2: [u64; 64] = [
    0x4004u64, 0xa008u64, 0x14011u64, 0x28022u64,
    0x50004u64, 0x20008u64, 0x100100u64, 0x280200u64,
    0x500440u64, 0xa00880u64, 0x1401100u64, 0x2800200u64,
    0x1000400u64, 0x8008002u64, 0x14010005u64, 0x2802200au64,
    0x50044014u64, 0xa0008028u64, 0x40010010u64, 0x200200080u64,
    0x500400140u64, 0xa00880280u64, 0x1401100500u64, 0x2802200a00u64,
    0x5000401400u64, 0x2000800800u64, 0x10010004000u64, 0x2802000a000u64,
    0x50044014000u64, 0xa0088028000u64, 0x140010050000u64, 0x80020020000u64,
    0x400100000u64, 0x800280000u64, 0x1100500000u64, 0x2200a00000u64,
    0x4401400000u64, 0x802800000u64, 0x1001000000u64, 0x20008000000u64,
    0x40014000000u64, 0x88028000000u64, 0x110050000000u64, 0x200a0000000u64,
    0x40040000000u64, 0x0u64, 0x0u64, 0x0u64,
    0x0u64, 0x0u64, 0x0u64, 0x0u64,
    0x0u64, 0x0u64, 0x0u64, 0x0u64,
    0x0u64, 0x0u64, 0x0u64, 0x0u64,
    0x0u64, 0x0u64, 0x0u64, 0x0u64,
];

/// For each cell, the cells between it and its distance-2 cells.
pub const BLOCKER_MASKS: [u64; 64] = [
    0x82u64, 0x184u64, 0x30au64, 0x614u64,
    0xc08u64, 0x810u64, 0x2080u64, 0x6100u64,
    0xc280u64, 0x18500u64, 0x30a00u64, 0x60400u64,
    0x40800u64, 0x104080u64, 0x308180u64, 0x614300u64,
    0xc28600u64, 0x1810c00u64, 0x1020800u64, 0x4102000u64,
    0xc206000u64, 0x1850c000u64, 0x30a18000u64, 0x61430000u64,
    0xc0860000u64, 0x81040000u64, 0x208100000u64, 0x610300000u64,
    0xc28600000u64, 0x1850c00000u64, 0x3021800000u64, 0x2041000000u64,
    0x204000000u64, 0x40c000000u64, 0xa18000000u64, 0x1430000000u64,
    0x2860000000u64, 0x10c0000000u64, 0x2080000000u64, 0x10200000000u64,
    0x20600000000u64, 0x50c00000000u64, 0xa1800000000u64, 0x43000000000u64,
    0x82000000000u64, 0x0u64, 0x0u64, 0x0u64,
    0x0u64, 0x0u64, 0x0u64, 0x0u64,
    0x0u64, 0x0u64, 0x0u64, 0x0u64,
    0x0u64, 0x0u64, 0x0u64, 0x0u64,
    0x0u64, 0x0u64, 0x0u64, 0x0u64,
];

/// The cells at bit 45 and above, which are not cells of the board.
pub const OUTSIDE_MASK: u64 = 0xffffe00000000000u64;

/// For every cell, the table entries leave out the cell itself and the bits
/// past the last cell.
proof fn lemma_tables_exclude()
    ensures
        0xc2u64 & ((1u64 << 0u64) | 0xffffe00000000000u64) == 0u64
        && 0x4004u64 & ((1u64 << 0u64) | 0xffffe00000000000u64) == 0u64
        && 0x185u64 & ((1u64 << 1u64) | 0xffffe00000000000u64) == 0u64
        && 0xa008u64 & ((1u64 << 1u64) | 0xffffe00000000000u64) == 0u64
        && 0x30au64 & ((1u64 << 2u64) | 0xffffe00000000000u64) == 0u64
        && 0x14011u64 & ((1u64 << 2u64) | 0xffffe00000000000u64) == 0u64
        && 0x614u64 & ((1u64 << 3u64) | 0xffffe00000000000u64) == 0u64
        && 0x28022u64 & ((1u64 << 3u64) | 0xffffe00000000000u64) == 0u64
        && 0xc28u64 & ((1u64 << 4u64) | 0xffffe00000000000u64) == 0u64
        && 0x50004u64 & ((1u64 << 4u64) | 0xffffe00000000000u64) == 0u64
        && 0x1810u64 & ((1u64 << 5u64) | 0xffffe00000000000u64) == 0u64
        && 0x20008u64 & ((1u64 << 5u64) | 0xffffe00000000000u64) == 0u64
        && 0x2081u64 & ((1u64 << 6u64) | 0xffffe00000000000u64) == 0u64
        && 0x100100u64 & ((1u64 << 6u64) | 0xffffe00000000000u64) == 0u64
        && 0x6143u64 & ((1u64 << 7u64) | 0xffffe00000000000u64) == 0u64
        && 0x280200u64 & ((1u64 << 7u64) | 0xffffe00000000000u64) == 0u64
        && 0xc286u64 & ((1u64 << 8u64) | 0xffffe00000000000u64) == 0u64
        && 0x500440u64 & ((1u64 << 8u64) | 0xffffe00000000000u64) == 0u64
        && 0x1850cu64 & ((1u64 << 9u64) | 0xffffe00000000000u64) == 0u64
        && 0xa00880u64 & ((1u64 << 9u64) | 0xffffe00000000000u64) == 0u64
        && 0x30a18u64 & ((1u64 << 10u64) | 0xffffe00000000000u64) == 0u64
        && 0x1401100u64 & ((1u64 << 10u64) | 0xffffe00000000000u64) == 0u64
        && 0x61430u64 & ((1u64 << 11u64) | 0xffffe00000000000u64) == 0u64
        && 0x2800200u64 & ((1u64 << 11u64) | 0xffffe00000000000u64) == 0u64
        && 0x40820u64 & ((1u64 << 12u64) | 0xffffe00000000000u64) == 0u64
        && 0x1000400u64 & ((1u64 << 12u64) | 0xffffe00000000000u64) == 0u64
        && 0x1840c0u64 & ((1u64 << 13u64) | 0xffffe00000000000u64) == 0u64
        && 0x8008002u64 & ((1u64 << 13u64) | 0xffffe00000000000u64) == 0u64
        && 0x30a180u64 & ((1u64 << 14u64) | 0xffffe00000000000u64) == 0u64
        && 0x14010005u64 & ((1u64 << 14u64) | 0xffffe00000000000u64) == 0u64
        && 0x614300u64 & ((1u64 << 15u64) | 0xffffe00000000000u64) == 0u64
        && 0x2802200au64 & ((1u64 << 15u64) | 0xffffe00000000000u64) == 0u64
        && 0xc28600u64 & ((1u64 << 16u64) | 0xffffe00000000000u64) == 0u64
        && 0x50044014u64 & ((1u64 << 16u64) | 0xffffe00000000000u64) == 0u64
        && 0x1850c00u64 & ((1u64 << 17u64) | 0xffffe00000000000u64) == 0u64
        && 0xa0008028u64 & ((1u64 << 17u64) | 0xffffe00000000000u64) == 0u64
        && 0x3021800u64 & ((1u64 << 18u64) | 0xffffe00000000000u64) == 0u64
        && 0x40010010u64 & ((1u64 << 18u64) | 0xffffe00000000000u64) == 0u64
        && 0x4102000u64 & ((1u64 << 19u64) | 0xffffe00000000000u64) == 0u64
        && 0x200200080u64 & ((1u64 << 19u64) | 0xffffe00000000000u64) == 0u64
        && 0xc286000u64 & ((1u64 << 20u64) | 0xffffe00000000000u64) == 0u64
        && 0x500400140u64 & ((1u64 << 20u64) | 0xffffe00000000000u64) == 0u64
        && 0x1850c000u64 & ((1u64 << 21u64) | 0xffffe00000000000u64) == 0u64
        && 0xa00880280u64 & ((1u64 << 21u64) | 0xffffe00000000000u64) == 0u64
        && 0x30a18000u64 & ((1u64 << 22u64) | 0xffffe00000000000u64) == 0u64
        && 0x1401100500u64 & ((1u64 << 22u64) | 0xffffe00000000000u64) == 0u64
        && 0x61430000u64 & ((1u64 << 23u64) | 0xffffe00000000000u64) == 0u64
        && 0x2802200a00u64 & ((1u64 << 23u64) | 0xffffe00000000000u64) == 0u64
        && 0xc2860000u64 & ((1u64 << 24u64) | 0xffffe00000000000u64) == 0u64
        && 0x5000401400u64 & ((1u64 << 24u64) | 0xffffe00000000000u64) == 0u64
        && 0x81040000u64 & ((1u64 << 25u64) | 0xffffe00000000000u64) == 0u64
        && 0x2000800800u64 & ((1u64 << 25u64) | 0xffffe00000000000u64) == 0u64
        && 0x308180000u64 & ((1u64 << 26u64) | 0xffffe00000000000u64) == 0u64
        && 0x10010004000u64 & ((1u64 << 26u64) | 0xffffe00000000000u64) == 0u64
        && 0x614300000u64 & ((1u64 << 27u64) | 0xffffe00000000000u64) == 0u64
        && 0x2802000a000u64 & ((1u64 << 27u64) | 0xffffe00000000000u64) == 0u64
        && 0xc28600000u64 & ((1u64 << 28u64) | 0xffffe00000000000u64) == 0u64
        && 0x50044014000u64 & ((1u64 << 28u64) | 0xffffe00000000000u64) == 0u64
        && 0x1850c00000u64 & ((1u64 << 29u64) | 0xffffe00000000000u64) == 0u64
        && 0xa0088028000u64 & ((1u64 << 29u64) | 0xffffe00000000000u64) == 0u64
        && 0x30a1800000u64 & ((1u64 << 30u64) | 0xffffe00000000000u64) == 0u64
        && 0x140010050000u64 & ((1u64 << 30u64) | 0xffffe00000000000u64) == 0u64
        && 0x6043000000u64 & ((1u64 << 31u64) | 0xffffe00000000000u64) == 0u64
        && 0x80020020000u64 & ((1u64 << 31u64) | 0xffffe00000000000u64) == 0u64
        && 0x8204000000u64 & ((1u64 << 32u64) | 0xffffe00000000000u64) == 0u64
        && 0x400100000u64 & ((1u64 << 32u64) | 0xffffe00000000000u64) == 0u64
        && 0x1850c000000u64 & ((1u64 << 33u64) | 0xffffe00000000000u64) == 0u64
        && 0x800280000u64 & ((1u64 << 33u64) | 0xffffe00000000000u64) == 0u64
        && 0x30a18000000u64 & ((1u64 << 34u64) | 0xffffe00000000000u64) == 0u64
        && 0x1100500000u64 & ((1u64 << 34u64) | 0xffffe00000000000u64) == 0u64
        && 0x61430000000u64 & ((1u64 << 35u64) | 0xffffe00000000000u64) == 0u64
        && 0x2200a00000u64 & ((1u64 << 35u64) | 0xffffe00000000000u64) == 0u64
        && 0xc2860000000u64 & ((1u64 << 36u64) | 0xffffe00000000000u64) == 0u64
        && 0x4401400000u64 & ((1u64 << 36u64) | 0xffffe00000000000u64) == 0u64
        && 0x1850c0000000u64 & ((1u64 << 37u64) | 0xffffe00000000000u64) == 0u64
        && 0x802800000u64 & ((1u64 << 37u64) | 0xffffe00000000000u64) == 0u64
        && 0x102080000000u64 & ((1u64 << 38u64) | 0xffffe00000000000u64) == 0u64
        && 0x1001000000u64 & ((1u64 << 38u64) | 0xffffe00000000000u64) == 0u64
        && 0x10300000000u64 & ((1u64 << 39u64) | 0xffffe00000000000u64) == 0u64
        && 0x20008000000u64 & ((1u64 << 39u64) | 0xffffe00000000000u64) == 0u64
        && 0x28600000000u64 & ((1u64 << 40u64) | 0xffffe00000000000u64) == 0u64
        && 0x40014000000u64 & ((1u64 << 40u64) | 0xffffe00000000000u64) == 0u64
        && 0x50c00000000u64 & ((1u64 << 41u64) | 0xffffe00000000000u64) == 0u64
        && 0x88028000000u64 & ((1u64 << 41u64) | 0xffffe00000000000u64) == 0u64
        && 0xa1800000000u64 & ((1u64 << 42u64) | 0xffffe00000000000u64) == 0u64
        && 0x110050000000u64 & ((1u64 << 42u64) | 0xffffe00000000000u64) == 0u64
        && 0x143000000000u64 & ((1u64 << 43u64) | 0xffffe00000000000u64) == 0u64
        && 0x200a0000000u64 & ((1u64 << 43u64) | 0xffffe00000000000u64) == 0u64
        && 0x86000000000u64 & ((1u64 << 44u64) | 0xffffe00000000000u64) == 0u64
        && 0x40040000000u64 & ((1u64 << 44u64) | 0xffffe00000000000u64) == 0u64,
{
    assert(
        0xc2u64 & ((1u64 << 0u64) | 0xffffe00000000000u64) == 0u64
        && 0x4004u64 & ((1u64 << 0u64) | 0xffffe00000000000u64) == 0u64
        && 0x185u64 & ((1u64 << 1u64) | 0xffffe00000000000u64) == 0u64
        && 0xa008u64 & ((1u64 << 1u64) | 0xffffe00000000000u64) == 0u64
        && 0x30au64 & ((1u64 << 2u64) | 0xffffe00000000000u64) == 0u64
        && 0x14011u64 & ((1u64 << 2u64) | 0xffffe00000000000u64) == 0u64
        && 0x614u64 & ((1u64 << 3u64) | 0xffffe00000000000u64) == 0u64
        && 0x28022u64 & ((1u64 << 3u64) | 0xffffe00000000000u64) == 0u64
        && 0xc28u64 & ((1u64 << 4u64) | 0xffffe00000000000u64) == 0u64
        && 0x50004u64 & ((1u64 << 4u64) | 0xffffe00000000000u64) == 0u64
        && 0x1810u64 & ((1u64 << 5u64) | 0xffffe00000000000u64) == 0u64
        && 0x20008u64 & ((1u64 << 5u64) | 0xffffe00000000000u64) == 0u64
        && 0x2081u64 & ((1u64 << 6u64) | 0xffffe00000000000u64) == 0u64
        && 0x100100u64 & ((1u64 << 6u64) | 0xffffe00000000000u64) == 0u64
        && 0x6143u64 & ((1u64 << 7u64) | 0xffffe00000000000u64) == 0u64
        && 0x280200u64 & ((1u64 << 7u64) | 0xffffe00000000000u64) == 0u64
        && 0xc286u64 & ((1u64 << 8u64) | 0xffffe00000000000u64) == 0u64
        && 0x500440u64 & ((1u64 << 8u64) | 0xffffe00000000000u64) == 0u64
        && 0x1850cu64 & ((1u64 << 9u64) | 0xffffe00000000000u64) == 0u64
        && 0xa00880u64 & ((1u64 << 9u64) | 0xffffe00000000000u64) == 0u64
        && 0x30a18u64 & ((1u64 << 10u64) | 0xffffe00000000000u64) == 0u64
        && 0x1401100u64 & ((1u64 << 10u64) | 0xffffe00000000000u64) == 0u64
        && 0x61430u64 & ((1u64 << 11u64) | 0xffffe00000000000u64) == 0u64
        && 0x2800200u64 & ((1u64 << 11u64) | 0xffffe00000000000u64) == 0u64
        && 0x40820u64 & ((1u64 << 12u64) | 0xffffe00000000000u64) == 0u64
        && 0x1000400u64 & ((1u64 << 12u64) | 0xffffe00000000000u64) == 0u64
        && 0x1840c0u64 & ((1u64 << 13u64) | 0xffffe00000000000u64) == 0u64
        && 0x8008002u64 & ((1u64 << 13u64) | 0xffffe00000000000u64) == 0u64
        && 0x30a180u64 & ((1u64 << 14u64) | 0xffffe00000000000u64) == 0u64
        && 0x14010005u64 & ((1u64 << 14u64) | 0xffffe00000000000u64) == 0u64
        && 0x614300u64 & ((1u64 << 15u64) | 0xffffe00000000000u64) == 0u64
        && 0x2802200au64 & ((1u64 << 15u64) | 0xffffe00000000000u64) == 0u64
        && 0xc28600u64 & ((1u64 << 16u64) | 0xffffe00000000000u64) == 0u64
        && 0x50044014u64 & ((1u64 << 16u64) | 0xffffe00000000000u64) == 0u64
        && 0x1850c00u64 & ((1u64 << 17u64) | 0xffffe00000000000u64) == 0u64
        && 0xa0008028u64 & ((1u64 << 17u64) | 0xffffe00000000000u64) == 0u64
        && 0x3021800u64 & ((1u64 << 18u64) | 0xffffe00000000000u64) == 0u64
        && 0x40010010u64 & ((1u64 << 18u64) | 0xffffe00000000000u64) == 0u64
        && 0x4102000u64 & ((1u64 << 19u64) | 0xffffe00000000000u64) == 0u64
        && 0x200200080u64 & ((1u64 << 19u64) | 0xffffe00000000000u64) == 0u64
        && 0xc286000u64 & ((1u64 << 20u64) | 0xffffe00000000000u64) == 0u64
        && 0x500400140u64 & ((1u64 << 20u64) | 0xffffe00000000000u64) == 0u64
        && 0x1850c000u64 & ((1u64 << 21u64) | 0xffffe00000000000u64) == 0u64
        && 0xa00880280u64 & ((1u64 << 21u64) | 0xffffe00000000000u64) == 0u64
        && 0x30a18000u64 & ((1u64 << 22u64) | 0xffffe00000000000u64) == 0u64
        && 0x1401100500u64 & ((1u64 << 22u64) | 0xffffe00000000000u64) == 0u64
        && 0x61430000u64 & ((1u64 << 23u64) | 0xffffe00000000000u64) == 0u64
        && 0x2802200a00u64 & ((1u64 << 23u64) | 0xffffe00000000000u64) == 0u64
        && 0xc2860000u64 & ((1u64 << 24u64) | 0xffffe00000000000u64) == 0u64
        && 0x5000401400u64 & ((1u64 << 24u64) | 0xffffe00000000000u64) == 0u64
        && 0x81040000u64 & ((1u64 << 25u64) | 0xffffe00000000000u64) == 0u64
        && 0x2000800800u64 & ((1u64 << 25u64) | 0xffffe00000000000u64) == 0u64
        && 0x308180000u64 & ((1u64 << 26u64) | 0xffffe00000000000u64) == 0u64
        && 0x10010004000u64 & ((1u64 << 26u64) | 0xffffe00000000000u64) == 0u64
        && 0x614300000u64 & ((1u64 << 27u64) | 0xffffe00000000000u64) == 0u64
        && 0x2802000a000u64 & ((1u64 << 27u64) | 0xffffe00000000000u64) == 0u64
        && 0xc28600000u64 & ((1u64 << 28u64) | 0xffffe00000000000u64) == 0u64
        && 0x50044014000u64 & ((1u64 << 28u64) | 0xffffe00000000000u64) == 0u64
        && 0x1850c00000u64 & ((1u64 << 29u64) | 0xffffe00000000000u64) == 0u64
        && 0xa0088028000u64 & ((1u64 << 29u64) | 0xffffe00000000000u64) == 0u64
        && 0x30a1800000u64 & ((1u64 << 30u64) | 0xffffe00000000000u64) == 0u64
        && 0x140010050000u64 & ((1u64 << 30u64) | 0xffffe00000000000u64) == 0u64
        && 0x6043000000u64 & ((1u64 << 31u64) | 0xffffe00000000000u64) == 0u64
        && 0x80020020000u64 & ((1u64 << 31u64) | 0xffffe00000000000u64) == 0u64
        && 0x8204000000u64 & ((1u64 << 32u64) | 0xffffe00000000000u64) == 0u64
        && 0x400100000u64 & ((1u64 << 32u64) | 0xffffe00000000000u64) == 0u64
        && 0x1850c000000u64 & ((1u64 << 33u64) | 0xffffe00000000000u64) == 0u64
        && 0x800280000u64 & ((1u64 << 33u64) | 0xffffe00000000000u64) == 0u64
        && 0x30a18000000u64 & ((1u64 << 34u64) | 0xffffe00000000000u64) == 0u64
        && 0x1100500000u64 & ((1u64 << 34u64) | 0xffffe00000000000u64) == 0u64
        && 0x61430000000u64 & ((1u64 << 35u64) | 0xffffe00000000000u64) == 0u64
        && 0x2200a00000u64 & ((1u64 << 35u64) | 0xffffe00000000000u64) == 0u64
        && 0xc2860000000u64 & ((1u64 << 36u64) | 0xffffe00000000000u64) == 0u64
        && 0x4401400000u64 & ((1u64 << 36u64) | 0xffffe00000000000u64) == 0u64
        && 0x1850c0000000u64 & ((1u64 << 37u64) | 0xffffe00000000000u64) == 0u64
        && 0x802800000u64 & ((1u64 << 37u64) | 0xffffe00000000000u64) == 0u64
        && 0x102080000000u64 & ((1u64 << 38u64) | 0xffffe00000000000u64) == 0u64
        && 0x1001000000u64 & ((1u64 << 38u64) | 0xffffe00000000000u64) == 0u64
        && 0x10300000000u64 & ((1u64 << 39u64) | 0xffffe00000000000u64) == 0u64
        && 0x20008000000u64 & ((1u64 << 39u64) | 0xffffe00000000000u64) == 0u64
        && 0x28600000000u64 & ((1u64 << 40u64) | 0xffffe00000000000u64) == 0u64
        && 0x40014000000u64 & ((1u64 << 40u64) | 0xffffe00000000000u64) == 0u64
        && 0x50c00000000u64 & ((1u64 << 41u64) | 0xffffe00000000000u64) == 0u64
        && 0x88028000000u64 & ((1u64 << 41u64) | 0xffffe00000000000u64) == 0u64
        && 0xa1800000000u64 & ((1u64 << 42u64) | 0xffffe00000000000u64) == 0u64
        && 0x110050000000u64 & ((1u64 << 42u64) | 0xffffe00000000000u64) == 0u64
        && 0x143000000000u64 & ((1u64 << 43u64) | 0xffffe00000000000u64) == 0u64
        && 0x200a0000000u64 & ((1u64 << 43u64) | 0xffffe00000000000u64) == 0u64
        && 0x86000000000u64 & ((1u64 << 44u64) | 0xffffe00000000000u64) == 0u64
        && 0x40040000000u64 & ((1u64 << 44u64) | 0xffffe00000000000u64) == 0u64
    ) by (bit_vector);
}

/// No cell is its own neighbour (at distance 1 or 2), and every neighbour is a
/// cell of the board.
pub proof fn lemma_neighbours_cells(x: int)
    requires
        0 <= x < 45,
    ensures
        NEIGHBOURS1[x] & ((1u64 << (x as u64)) | OUTSIDE_MASK) == 0,
        NEIGHBOURS2[x] & ((1u64 << (x as u64)) | OUTSIDE_MASK) == 0,
{
    lemma_tables_exclude();
    if x == 0 {
    } else if x == 1 {
    } else if x == 2 {
    } else if x == 3 {
    } else if x == 4 {
    } else if x == 5 {
    } else if x == 6 {
    } else if x == 7 {
    } else if x == 8 {
    } else if x == 9 {
    } else if x == 10 {
    } else if x == 11 {
    } else if x == 12 {
    } else if x == 13 {
    } else if x == 14 {
    } else if x == 15 {
    } else if x == 16 {
    } else if x == 17 {
    } else if x == 18 {
    } else if x == 19 {
    } else if x == 20 {
    } else if x == 21 {
    } else if x == 22 {
    } else if x == 23 {
    } else if x == 24 {
    } else if x == 25 {
    } else if x == 26 {
    } else if x == 27 {
    } else if x == 28 {
    } else if x == 29 {
    } else if x == 30 {
    } else if x == 31 {
    } else if x == 32 {
    } else if x == 33 {
    } else if x == 34 {
    } else if x == 35 {
    } else if x == 36 {
    } else if x == 37 {
    } else if x == 38 {
    } else if x == 39 {
    } else if x == 40 {
    } else if x == 41 {
    } else if x == 42 {
    } else if x == 43 {
    } else if x == 44 {
    }
}

/// The neighbours of a cell (at distance 1 or 2) are other cells of the board.
pub proof fn lemma_neighbour_bits(x: int, j: int)
    requires
        0 <= x < 45,
    ensures
        bit(NEIGHBOURS1[x], j) ==> j != x && 0 <= j < 45,
        bit(NEIGHBOURS2[x], j) ==> j != x && 0 <= j < 45,
{
    lemma_neighbours_cells(x);
    let m = (1u64 << (x as u64)) | OUTSIDE_MASK;
    lemma_bit_ops(NEIGHBOURS1[x], m, j);
    lemma_bit_ops(NEIGHBOURS2[x], m, j);
    if 0 <= j < 64 {
        let xx = x as u64;
        let jj = j as u64;
        assert(xx < 64 && jj < 64 ==> ((((1u64 << xx) | 0xffffe00000000000u64) >> jj) & 1u64
            == 1u64) == (jj == xx || jj >= 45)) by (bit_vector);
    }
}

} // verus!
