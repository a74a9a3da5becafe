//! The falling piece: seven tetromino shapes, four rotations each, a color,
//! a position and a life-cycle state. A piece's 4x4 occupancy matrix is
//! derived from the shape table and its rotation, never stored.

use vstd::prelude::*;

use crate::drawable::Drawable;

verus! {

/// Width of a piece's occupancy matrix.
pub const BLOCK_SIZE_X: usize = 4;

/// Height of a piece's occupancy matrix.
pub const BLOCK_SIZE_Y: usize = 4;

/// The seven tetromino shapes.
#[derive(Clone, Copy, PartialEq, Eq, Structural, Debug)]
pub enum BlockType {
    I,
    J,
    L,
    O,
    S,
    Z,
    T,
}

/// Life-cycle state of a piece: falling, or blocked downward and about to be
/// committed to the board.
#[derive(Clone, Copy, PartialEq, Eq, Structural, Debug)]
pub enum BlockState {
    STACKED,
    DROPPING,
}

/// The shape table, one 16-bit word per shape and rotation. Each binary
/// literal reads like the 4x4 occupancy matrix: the leftmost group of four
/// bits is the top row, and within a group the leftmost bit is the leftmost
/// column. Rotations outside 0..4 read as rotation 0.
pub open spec fn shape_bits(t: BlockType, r: int) -> u16 {
    match t {
        BlockType::I => if r == 1 || r == 3 {
            0b0000_0000_1111_0000
        } else {
            0b0010_0010_0010_0010
        },
        BlockType::J => if r == 1 {
            0b1000_1110_0000_0000
        } else if r == 2 {
            0b0110_0100_0100_0000
        } else if r == 3 {
            0b0000_1110_0010_0000
        } else {
            0b0100_0100_1100_0000
        },
        BlockType::L => if r == 1 {
            0b0000_1110_1000_0000
        } else if r == 2 {
            0b1100_0100_0100_0000
        } else if r == 3 {
            0b0010_1110_0000_0000
        } else {
            0b0100_0100_0110_0000
        },
        BlockType::O => 0b0110_0110_0000_0000,
        BlockType::S => if r == 1 || r == 3 {
            0b1000_1100_0100_0000
        } else {
            0b0000_0110_1100_0000
        },
        BlockType::Z => if r == 1 || r == 3 {
            0b0100_1100_1000_0000
        } else {
            0b0000_1100_0110_0000
        },
        BlockType::T => if r == 1 {
            0b0100_1100_0100_0000
        } else if r == 2 {
            0b0100_1110_0000_0000
        } else if r == 3 {
            0b0100_0110_0100_0000
        } else {
            0b0000_1110_0100_0000
        },
    }
}

/// Whether row `i`, column `j` of the occupancy matrix for shape `t` at
/// rotation `r` is occupied.
pub open spec fn occupied(t: BlockType, r: int, i: int, j: int) -> bool {
    0 <= i < 4 && 0 <= j < 4 && (shape_bits(t, r) >> (((3 - i) * 4 + (3 - j)) as u16)) & 1 == 1
}

/// The shape table, as executable code.
fn shape_bits_at(t: BlockType, r: u8) -> (bits: u16)
    requires
        r < 4,
    ensures
        bits == shape_bits(t, r as int),
{
    match t {
        BlockType::I => if r == 1 || r == 3 {
            0b0000_0000_1111_0000
        } else {
            0b0010_0010_0010_0010
        },
        BlockType::J => if r == 1 {
            0b1000_1110_0000_0000
        } else if r == 2 {
            0b0110_0100_0100_0000
        } else if r == 3 {
            0b0000_1110_0010_0000
        } else {
            0b0100_0100_1100_0000
        },
        BlockType::L => if r == 1 {
            0b0000_1110_1000_0000
        } else if r == 2 {
            0b1100_0100_0100_0000
        } else if r == 3 {
            0b0010_1110_0000_0000
        } else {
            0b0100_0100_0110_0000
        },
        BlockType::O => 0b0110_0110_0000_0000,
        BlockType::S => if r == 1 || r == 3 {
            0b1000_1100_0100_0000
        } else {
            0b0000_0110_1100_0000
        },
        BlockType::Z => if r == 1 || r == 3 {
            0b0100_1100_1000_0000
        } else {
            0b0000_1100_0110_0000
        },
        BlockType::T => if r == 1 {
            0b0100_1100_0100_0000
        } else if r == 2 {
            0b0100_1110_0000_0000
        } else if r == 3 {
            0b0100_0110_0100_0000
        } else {
            0b0000_1110_0100_0000
        },
    }
}

/// Test one cell of the occupancy matrix for shape `t` at rotation `r`.
pub fn is_occupied(t: BlockType, r: u8, i: usize, j: usize) -> (b: bool)
    requires
        r < 4,
        i < 4,
        j < 4,
    ensures
        b == occupied(t, r as int, i as int, j as int),
{
    let bits = shape_bits_at(t, r);
    let sh: u16 = ((3 - i) * 4 + (3 - j)) as u16;
    (bits >> sh) & 1 == 1
}

/// Every shape occupies at least one cell in every rotation.
pub proof fn lemma_shape_has_cell(t: BlockType, r: int)
    requires
        0 <= r < 4,
    ensures
        exists|i: int, j: int| occupied(t, r, i, j),
{
    match t {
        BlockType::I => {
            if r == 1 || r == 3 {
                assert((0b0000_0000_1111_0000u16 >> 5u16) & 1 == 1) by (bit_vector);
            } else {
                assert((0b0010_0010_0010_0010u16 >> 5u16) & 1 == 1) by (bit_vector);
            }
            assert(occupied(t, r, 2, 2));
        },
        BlockType::J => {
            if r == 1 {
                assert((0b1000_1110_0000_0000u16 >> 10u16) & 1 == 1) by (bit_vector);
            } else if r == 2 {
                assert((0b0110_0100_0100_0000u16 >> 10u16) & 1 == 1) by (bit_vector);
            } else if r == 3 {
                assert((0b0000_1110_0010_0000u16 >> 10u16) & 1 == 1) by (bit_vector);
            } else {
                assert((0b0100_0100_1100_0000u16 >> 10u16) & 1 == 1) by (bit_vector);
            }
            assert(occupied(t, r, 1, 1));
        },
        BlockType::L => {
            if r == 1 {
                assert((0b0000_1110_1000_0000u16 >> 10u16) & 1 == 1) by (bit_vector);
            } else if r == 2 {
                assert((0b1100_0100_0100_0000u16 >> 10u16) & 1 == 1) by (bit_vector);
            } else if r == 3 {
                assert((0b0010_1110_0000_0000u16 >> 10u16) & 1 == 1) by (bit_vector);
            } else {
                assert((0b0100_0100_0110_0000u16 >> 10u16) & 1 == 1) by (bit_vector);
            }
            assert(occupied(t, r, 1, 1));
        },
        BlockType::O => {
            assert((0b0110_0110_0000_0000u16 >> 10u16) & 1 == 1) by (bit_vector);
            assert(occupied(t, r, 1, 1));
        },
        BlockType::S => {
            if r == 1 || r == 3 {
                assert((0b1000_1100_0100_0000u16 >> 10u16) & 1 == 1) by (bit_vector);
            } else {
                assert((0b0000_0110_1100_0000u16 >> 10u16) & 1 == 1) by (bit_vector);
            }
            assert(occupied(t, r, 1, 1));
        },
        BlockType::Z => {
            if r == 1 || r == 3 {
                assert((0b0100_1100_1000_0000u16 >> 10u16) & 1 == 1) by (bit_vector);
            } else {
                assert((0b0000_1100_0110_0000u16 >> 10u16) & 1 == 1) by (bit_vector);
            }
            assert(occupied(t, r, 1, 1));
        },
        BlockType::T => {
            if r == 1 {
                assert((0b0100_1100_0100_0000u16 >> 10u16) & 1 == 1) by (bit_vector);
            } else if r == 2 {
                assert((0b0100_1110_0000_0000u16 >> 10u16) & 1 == 1) by (bit_vector);
            } else if r == 3 {
                assert((0b0100_0110_0100_0000u16 >> 10u16) & 1 == 1) by (bit_vector);
            } else {
                assert((0b0000_1110_0100_0000u16 >> 10u16) & 1 == 1) by (bit_vector);
            }
            assert(occupied(t, r, 1, 1));
        },
    }
}

/// Whether row `i` of the occupancy matrix is all empty.
pub open spec fn row_empty(t: BlockType, r: int, i: int) -> bool {
    forall|j: int| 0 <= j < 4 ==> !occupied(t, r, i, j)
}

/// The count of consecutive all-empty leading rows of the occupancy matrix.
pub open spec fn offset_spec(t: BlockType, r: int) -> int {
    if !row_empty(t, r, 0) {
        0
    } else if !row_empty(t, r, 1) {
        1
    } else if !row_empty(t, r, 2) {
        2
    } else if !row_empty(t, r, 3) {
        3
    } else {
        4
    }
}

/// The value of one matrix cell once the shape is recolored: `color` where
/// occupied, `0` elsewhere.
pub open spec fn cell_value(t: BlockType, r: int, i: int, j: int, color: u8) -> i8 {
    if occupied(t, r, i, j) {
        color as i8
    } else {
        0
    }
}

/// A piece as freshly spawned: at column 6, just above the visible rows, and
/// falling.
pub open spec fn spawn_block(t: BlockType, r: u8, color: u8) -> Block {
    Block {
        shape: t,
        rotation: r,
        x: 6,
        y: (-offset_spec(t, r as int) - 1) as i8,
        state: BlockState::DROPPING,
        color,
    }
}

/// Whether `b` is a value that spawning can produce: some shape, a valid
/// rotation and color, at the spawn position for that shape and rotation.
pub open spec fn is_spawn(b: Block) -> bool {
    b.rotation < 4 && 1 <= b.color <= 5 && b == spawn_block(b.shape, b.rotation, b.color)
}

/// A piece advanced by one rotation step; the occupancy matrix follows the
/// rotation, everything else is unchanged.
pub open spec fn spec_rotate(b: Block) -> Block {
    Block { rotation: ((b.rotation + 1) % 4) as u8, ..b }
}

/// A spawned, mutable piece instance. Its occupancy matrix is derived: cell
/// `(i, j)` holds `color` where `occupied(shape, rotation, i, j)`, else `0`.
#[derive(Clone, Copy, PartialEq, Eq, Structural, Debug)]
pub struct Block {
    pub shape: BlockType,
    pub rotation: u8,
    pub x: i8,
    pub y: i8,
    pub state: BlockState,
    pub color: u8,
}

/// Relies on rand's `rand::random`: draws one random byte from the thread's
/// generator. Nothing is assumed of the value drawn.
#[verifier::external_body]
fn random_u8() -> u8 {
    rand::random::<u8>()
}

impl Block {
    /// Spawn a piece with a random shape, rotation and color.
    pub fn new() -> (b: Block)
        ensures
            is_spawn(b),
    {
        let t_raw: u8 = random_u8();
        let r_raw: u8 = random_u8();
        let c_raw: u8 = random_u8();
        let t = match t_raw % 7 {
            0 => BlockType::I,
            1 => BlockType::J,
            2 => BlockType::L,
            3 => BlockType::O,
            4 => BlockType::S,
            5 => BlockType::Z,
            _ => BlockType::T,
        };
        Block::new_with(t, r_raw % 4, c_raw % 5 + 1)
    }

    /// Spawn a piece with the given shape, rotation and color.
    pub fn new_with(t: BlockType, rotation: u8, color: u8) -> (b: Block)
        requires
            rotation < 4,
            1 <= color <= 5,
        ensures
            b == spawn_block(t, rotation, color),
    {
        let off = Block::get_offset(t, rotation);
        Block {
            shape: t,
            rotation,
            x: 6,
            y: 0 - (off as i8) - 1,
            state: BlockState::DROPPING,
            color,
        }
    }

    /// The count of consecutive all-empty leading rows of the shape's matrix,
    /// used to place a fresh spawn just above the visible grid.
    pub fn get_offset(t: BlockType, r: u8) -> (off: usize)
        requires
            r < 4,
        ensures
            off == offset_spec(t, r as int),
            off <= 4,
    {
        let mut i: usize = 0;
        while i < 4
            invariant
                r < 4,
                i <= 4,
                forall|k: int| 0 <= k < i ==> row_empty(t, r as int, k),
            decreases 4 - i,
        {
            let mut j: usize = 0;
            let mut empty = true;
            while j < 4
                invariant
                    r < 4,
                    i < 4,
                    j <= 4,
                    empty == forall|jj: int| 0 <= jj < j ==> !occupied(t, r as int, i as int, jj),
                decreases 4 - j,
            {
                if is_occupied(t, r, i, j) {
                    empty = false;
                }
                j = j + 1;
            }
            if !empty {
                return i;
            }
            i = i + 1;
        }
        4
    }

    /// The shape's occupancy matrix at rotation `r`, with every occupied cell
    /// recolored to `color`.
    pub fn get_block_with_color(t: BlockType, r: u8, color: u8) -> (m: Vec<Vec<i8>>)
        requires
            r < 4,
            1 <= color <= 5,
        ensures
            m@.len() == 4,
            forall|i: int| 0 <= i < 4 ==> (#[trigger] m@[i])@.len() == 4,
            forall|i: int, j: int|
                0 <= i < 4 && 0 <= j < 4 ==> #[trigger] m@[i]@[j] == cell_value(
                    t,
                    r as int,
                    i,
                    j,
                    color,
                ),
    {
        let mut m: Vec<Vec<i8>> = Vec::new();
        let mut i: usize = 0;
        while i < 4
            invariant
                r < 4,
                1 <= color <= 5,
                i <= 4,
                m@.len() == i,
                forall|k: int| 0 <= k < i ==> (#[trigger] m@[k])@.len() == 4,
                forall|k: int, j: int|
                    0 <= k < i && 0 <= j < 4 ==> #[trigger] m@[k]@[j] == cell_value(
                        t,
                        r as int,
                        k,
                        j,
                        color,
                    ),
            decreases 4 - i,
        {
            let mut row: Vec<i8> = Vec::new();
            let mut j: usize = 0;
            while j < 4
                invariant
                    r < 4,
                    1 <= color <= 5,
                    i < 4,
                    j <= 4,
                    row@.len() == j,
                    forall|jj: int|
                        0 <= jj < j ==> #[trigger] row@[jj] == cell_value(
                            t,
                            r as int,
                            i as int,
                            jj,
                            color,
                        ),
                decreases 4 - j,
            {
                if is_occupied(t, r, i, j) {
                    row.push(color as i8);
                } else {
                    row.push(0);
                }
                j = j + 1;
            }
            m.push(row);
            i = i + 1;
        }
        m
    }

    /// Advance the rotation index, wrapping past 3 back to 0. The occupancy
    /// matrix follows; validation against the board is the caller's concern.
    pub fn rotate(&mut self)
        requires
            old(self).rotation < 4,
        ensures
            *final(self) == spec_rotate(*old(self)),
    {
        self.rotation = (self.rotation + 1) % 4;
    }
}

/// Law: four rotation steps in sequence return a piece to its original value,
/// occupancy matrix included.
pub proof fn lemma_rotation_cycle(b: Block)
    requires
        b.rotation < 4,
    ensures
        spec_rotate(spec_rotate(spec_rotate(spec_rotate(b)))) == b,
{
}

impl Drawable for Block {
    open spec fn spec_size(&self) -> (usize, usize) {
        (BLOCK_SIZE_X, BLOCK_SIZE_Y)
    }

    open spec fn valid_at(&self, x: int, y: int) -> bool {
        0 <= x < 4 && 0 <= y < 4 && self.rotation < 4
    }

    open spec fn spec_data(&self, x: int, y: int) -> i8 {
        cell_value(self.shape, self.rotation as int, x, y, self.color)
    }

    fn get_size(&self) -> (s: (usize, usize)) {
        (BLOCK_SIZE_X, BLOCK_SIZE_Y)
    }

    fn get_data(&self, x: usize, y: usize) -> (d: i8) {
        if is_occupied(self.shape, self.rotation, x, y) {
            #[verifier::truncate] (self.color as i8)
        } else {
            0
        }
    }
}

} // verus!
