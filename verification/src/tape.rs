//! The machine's memory: a ring of byte cells, and the arithmetic on the
//! pointer and on a cell.

use vstd::prelude::*;

verus! {

/// Number of cells on the tape.
pub const TAPE_SIZE: usize = 30_000;

/// Where the pointer stands after moving `n` cells right of `pointer`: past
/// the last cell it goes on from cell 0.
pub open spec fn right_of(pointer: int, n: int) -> int {
    (pointer + n) % (TAPE_SIZE as int)
}

/// Where the pointer stands after moving `n` cells left of `pointer`: past
/// cell 0 it goes on from the last cell.
pub open spec fn left_of(pointer: int, n: int) -> int {
    (pointer - n) % (TAPE_SIZE as int)
}

/// A cell's value after adding `n`, modulo 256.
pub open spec fn raised(cell: u8, n: int) -> u8 {
    ((cell + n) % 256) as u8
}

/// A cell's value after subtracting `n`, modulo 256.
pub open spec fn lowered(cell: u8, n: int) -> u8 {
    ((cell - n) % 256) as u8
}

/// The number that two bytes spell, the high byte first.
pub open spec fn big_endian(high: u8, low: u8) -> int {
    high * 256 + low
}

/// Moves the pointer `n` cells to the right on the ring.
pub fn move_right(pointer: usize, n: usize) -> (moved: usize)
    ensures
        moved == right_of(pointer as int, n as int),
        moved < TAPE_SIZE,
{
    let from: usize = pointer % TAPE_SIZE;
    let step: usize = n % TAPE_SIZE;
    (from + step) % TAPE_SIZE
}

/// Moves the pointer `n` cells to the left on the ring. A move that passes
/// cell 0 once ends `n - pointer` cells below the tape's size.
pub fn move_left(pointer: usize, n: usize) -> (moved: usize)
    ensures
        moved == left_of(pointer as int, n as int),
        moved < TAPE_SIZE,
        pointer < TAPE_SIZE && n <= pointer ==> moved == pointer - n,
        pointer < TAPE_SIZE && pointer < n < pointer + TAPE_SIZE ==> moved == TAPE_SIZE - (n
            - pointer),
{
    let from: usize = pointer % TAPE_SIZE;
    let step: usize = n % TAPE_SIZE;
    if step > from {
        TAPE_SIZE - (step - from)
    } else {
        from - step
    }
}

/// Adds `n` to a cell, wrapping past 255 to 0.
pub fn raise(cell: u8, n: u8) -> (value: u8)
    ensures
        value == raised(cell, n as int),
{
    cell.wrapping_add(n)
}

/// Subtracts `n` from a cell, wrapping below 0 to 255.
pub fn lower(cell: u8, n: u8) -> (value: u8)
    ensures
        value == lowered(cell, n as int),
{
    cell.wrapping_sub(n)
}

/// Joins two bytes into a 16-bit number, the high byte first.
pub fn join_bytes(high: u8, low: u8) -> (value: u16)
    ensures
        value == big_endian(high, low),
{
    let joined: u16 = ((high as u16) << 8) | (low as u16);
    assert(joined == high * 256 + low) by (bit_vector)
        requires
            joined == ((high as u16) << 8) | (low as u16),
    ;
    joined
}

} // verus!
