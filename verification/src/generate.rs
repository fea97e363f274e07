//! Terrain generation: fills one chunk's voxel buffer column by column from
//! sampled noise, with a fixed priority per cell — deep stone first, then
//! mountains, then the plains surface — and air everywhere else. A chunk
//! position outside the configured world range short-circuits to an all-air
//! chunk before any noise is sampled.
//!
//! Noise itself is sampled in floating point by the caller, which reduces
//! each world column to a [`ColumnProfile`] of plain integers before the
//! fill runs; every decision made from those integers is verified here.

use vstd::arithmetic::div_mod::lemma_fundamental_div_mod_converse;
use vstd::prelude::*;

use crate::config::WorldConfig;
use crate::math::IVec3;
use crate::store::{Chunk, SIZE, SIZE_I32, SIZE_P3};

verus! {

/// What the noise layers say about one world column (fixed `world_x`,
/// `world_z`), reduced to integers.
///
/// `mask_on` records whether the mountain-mask sample cleared its fixed
/// threshold. `mountain_limit` is the greatest `world_y` on which the
/// sharp-peak threshold still selects mountain stone, derived from the
/// mountain-height sample; any value below `-2 * SIZE` means no cell
/// qualifies. `base_height` is the rounded plains surface height.
#[derive(Debug, Clone, Copy, PartialEq, Eq, Structural)]
pub struct ColumnProfile {
    pub mask_on: bool,
    pub mountain_limit: i32,
    pub base_height: i32,
}

/// The block ids the generator writes, as resolved from the registry.
#[derive(Debug, Clone, Copy, PartialEq, Eq, Structural)]
pub struct BlockIds {
    pub grass: u16,
    pub dirt: u16,
    pub stone: u16,
}

/// The block a generated cell holds, by the fixed priority order:
/// below the deep-stone threshold, stone unconditionally; then mountain
/// stone where the mask is on, the cell is within the mountain band and at
/// or under the peak limit; then, where the cell is still air, the plains
/// surface — grass exactly at the surface, dirt within two below, stone
/// underneath; otherwise air.
pub open spec fn cell_block(world_y: int, col: ColumnProfile, ids: BlockIds) -> u16 {
    if world_y < -(SIZE as int) {
        ids.stone
    } else {
        let m: u16 = if col.mask_on && world_y >= -2 * (SIZE as int) && world_y
            <= col.mountain_limit {
            ids.stone
        } else {
            0
        };
        if world_y <= col.base_height && m == 0 {
            if world_y == col.base_height {
                ids.grass
            } else if world_y >= col.base_height - 2 {
                ids.dirt
            } else {
                ids.stone
            }
        } else {
            m
        }
    }
}

/// Whether a chunk position lies within the configured world range.
pub open spec fn in_range_spec(pos: IVec3, cfg: WorldConfig) -> bool {
    !(pos.x > cfg.chunk_range || pos.x < -cfg.chunk_range || pos.y > cfg.chunk_height_range
        || pos.y < cfg.chunk_bottom_range || pos.z > cfg.chunk_range || pos.z
        < -cfg.chunk_range)
}

/// Whether a chunk position lies within the configured world range.
pub fn in_range(pos: IVec3, cfg: &WorldConfig) -> (r: bool)
    requires
        cfg.wf(),
    ensures
        r == in_range_spec(pos, *cfg),
{
    !(pos.x > cfg.chunk_range || pos.x < -cfg.chunk_range || pos.y > cfg.chunk_height_range
        || pos.y < cfg.chunk_bottom_range || pos.z > cfg.chunk_range || pos.z
        < -cfg.chunk_range)
}

/// The block one generated cell holds.
pub fn cell_value(world_y: i32, col: ColumnProfile, ids: BlockIds) -> (b: u16)
    ensures
        b == cell_block(world_y as int, col, ids),
{
    if world_y < -SIZE_I32 {
        return ids.stone;
    }
    let m: u16 = if col.mask_on && world_y >= -2 * SIZE_I32 && world_y <= col.mountain_limit {
        ids.stone
    } else {
        0
    };
    if world_y <= col.base_height && m == 0 {
        if world_y == col.base_height {
            ids.grass
        } else if world_y >= col.base_height - 2 {
            ids.dirt
        } else {
            ids.stone
        }
    } else {
        m
    }
}

/// Linear index of local cell (x, y, z), in XZY order.
pub open spec fn cell_index(x: int, y: int, z: int) -> int {
    x + z * (SIZE as int) + y * ((SIZE * SIZE) as int)
}

/// A cell index stays within the chunk buffer.
proof fn lemma_cell_index_bounds(x: int, y: int, z: int)
    by (nonlinear_arith)
    requires
        0 <= x < SIZE as int,
        0 <= y < SIZE as int,
        0 <= z < SIZE as int,
    ensures
        0 <= cell_index(x, y, z) < SIZE_P3 as int,
{
}

/// The base-SIZE digits of a cell index recover the coordinates.
proof fn lemma_cell_index_decompose(x: int, y: int, z: int)
    requires
        0 <= x < SIZE as int,
        0 <= y < SIZE as int,
        0 <= z < SIZE as int,
    ensures
        cell_index(x, y, z) % (SIZE as int) == x,
        (cell_index(x, y, z) / (SIZE as int)) % (SIZE as int) == z,
        cell_index(x, y, z) / ((SIZE * SIZE) as int) == y,
{
    let s = SIZE as int;
    assert(cell_index(x, y, z) == (z + y * s) * s + x) by (nonlinear_arith)
        requires
            s == SIZE as int,
            cell_index(x, y, z) == x + z * (SIZE as int) + y * ((SIZE * SIZE) as int),
    ;
    assert(cell_index(x, y, z) == y * (s * s) + (x + z * s)) by (nonlinear_arith)
        requires
            s == SIZE as int,
            cell_index(x, y, z) == x + z * (SIZE as int) + y * ((SIZE * SIZE) as int),
    ;
    lemma_fundamental_div_mod_converse(cell_index(x, y, z), s, z + y * s, x);
    lemma_fundamental_div_mod_converse(z + y * s, s, y, z);
    lemma_fundamental_div_mod_converse(cell_index(x, y, z), s * s, y, x + z * s);
}

/// Whether cell (a, c, b) is visited strictly before progress point
/// (x, z, y) of the fill loops: columns advance x-major then z, and y runs
/// innermost.
pub open spec fn lex_before(a: int, c: int, b: int, x: int, z: int, y: int) -> bool {
    a < x || (a == x && (c < z || (c == z && b < y)))
}

/// The fill's intermediate state: every cell before progress point
/// (x, z, y) holds its generated block, every other cell is still air.
pub open spec fn filled(
    blocks: Seq<u16>,
    pos_y: int,
    columns: Seq<ColumnProfile>,
    ids: BlockIds,
    x: int,
    z: int,
    y: int,
) -> bool {
    forall|a: int, c: int, b: int|
        0 <= a < SIZE as int && 0 <= c < SIZE as int && 0 <= b < SIZE as int ==> blocks[
            #[trigger] cell_index(a, b, c)] == (if lex_before(a, c, b, x, z, y) {
            cell_block(pos_y * (SIZE as int) + b, columns[a * (SIZE as int) + c], ids)
        } else {
            0u16
        })
}

/// Generate one chunk. Outside the configured range the chunk is all air
/// and the column profiles are never read; inside, every cell follows the
/// fixed priority rules over its column profile.
///
/// `columns` holds one profile per (x, z) column of the chunk, at index
/// `x * SIZE + z`, each describing world column
/// `(pos.x * SIZE + x, pos.z * SIZE + z)`.
pub fn generate_chunk(
    pos: IVec3,
    cfg: &WorldConfig,
    columns: &Vec<ColumnProfile>,
    ids: BlockIds,
) -> (c: Chunk)
    requires
        cfg.wf(),
        columns@.len() == SIZE * SIZE,
        -1000000 <= pos.x <= 1000000,
        -1000000 <= pos.y <= 1000000,
        -1000000 <= pos.z <= 1000000,
    ensures
        c.position == pos,
        c.wf(),
        !in_range_spec(pos, *cfg) ==> forall|j: int| 0 <= j < SIZE_P3 ==> c.blocks@[j] == 0,
        in_range_spec(pos, *cfg) ==> forall|x: int, y: int, z: int|
            0 <= x < SIZE as int && 0 <= y < SIZE as int && 0 <= z < SIZE as int
                ==> c.blocks@[#[trigger] cell_index(x, y, z)] == cell_block(
                pos.y * (SIZE as int) + y,
                columns@[x * (SIZE as int) + z],
                ids,
            ),
{
    let blocks = Chunk::empty();
    let mut chunk = Chunk::new(pos, blocks);
    if !in_range(pos, cfg) {
        return chunk;
    }
    proof {
        assert forall|a: int, c: int, b: int|
            0 <= a < SIZE as int && 0 <= c < SIZE as int && 0 <= b < SIZE as int implies chunk.blocks@[
            #[trigger] cell_index(a, b, c)] == 0u16 by {
            lemma_cell_index_bounds(a, b, c);
        }
    }
    let mut x: i32 = 0;
    while x < SIZE_I32
        invariant
            chunk.wf(),
            chunk.position == pos,
            columns@.len() == SIZE * SIZE,
            -1000000 <= pos.y <= 1000000,
            0 <= x <= SIZE_I32,
            filled(chunk.blocks@, pos.y as int, columns@, ids, x as int, 0, 0),
        decreases SIZE_I32 - x,
    {
        let mut z: i32 = 0;
        while z < SIZE_I32
            invariant
                chunk.wf(),
                chunk.position == pos,
                columns@.len() == SIZE * SIZE,
                -1000000 <= pos.y <= 1000000,
                0 <= x < SIZE_I32,
                0 <= z <= SIZE_I32,
                filled(chunk.blocks@, pos.y as int, columns@, ids, x as int, z as int, 0),
            decreases SIZE_I32 - z,
        {
            let col = columns[(x as usize) * SIZE + (z as usize)];
            let mut y: i32 = 0;
            while y < SIZE_I32
                invariant
                    chunk.wf(),
                    chunk.position == pos,
                    columns@.len() == SIZE * SIZE,
                    -1000000 <= pos.y <= 1000000,
                    0 <= x < SIZE_I32,
                    0 <= z < SIZE_I32,
                    0 <= y <= SIZE_I32,
                    col == columns@[x as int * (SIZE as int) + z as int],
                    filled(chunk.blocks@, pos.y as int, columns@, ids, x as int, z as int, y as int),
                decreases SIZE_I32 - y,
            {
                let world_y = pos.y * SIZE_I32 + y;
                let index = Chunk::block_index(IVec3::new(x, y, z));
                let value = cell_value(world_y, col, ids);
                let ghost pre = chunk.blocks@;
                chunk.set_block(index, value);
                proof {
                    lemma_fill_step(
                        pre,
                        chunk.blocks@,
                        pos.y as int,
                        columns@,
                        ids,
                        x as int,
                        z as int,
                        y as int,
                        value,
                    );
                }
                y = y + 1;
            }
            proof {
                lemma_fill_column_done(
                    chunk.blocks@,
                    pos.y as int,
                    columns@,
                    ids,
                    x as int,
                    z as int,
                );
            }
            z = z + 1;
        }
        proof {
            lemma_fill_row_done(chunk.blocks@, pos.y as int, columns@, ids, x as int);
        }
        x = x + 1;
    }
    proof {
        assert forall|a: int, c: int, b: int|
            0 <= a < SIZE as int && 0 <= c < SIZE as int && 0 <= b < SIZE as int implies chunk.blocks@[
            #[trigger] cell_index(a, b, c)] == cell_block(
            pos.y as int * (SIZE as int) + b,
            columns@[a * (SIZE as int) + c],
            ids,
        ) by {
            lemma_cell_index_bounds(a, b, c);
            assert(lex_before(a, c, b, SIZE as int, 0, 0));
        }
    }
    chunk
}

/// One write of the fill: setting the current cell advances the progress
/// point by one `y` step.
proof fn lemma_fill_step(
    pre: Seq<u16>,
    post: Seq<u16>,
    pos_y: int,
    columns: Seq<ColumnProfile>,
    ids: BlockIds,
    x: int,
    z: int,
    y: int,
    value: u16,
)
    requires
        0 <= x < SIZE as int,
        0 <= z < SIZE as int,
        0 <= y < SIZE as int,
        pre.len() == SIZE_P3,
        filled(pre, pos_y, columns, ids, x, z, y),
        value == cell_block(pos_y * (SIZE as int) + y, columns[x * (SIZE as int) + z], ids),
        post == pre.update(cell_index(x, y, z), value),
    ensures
        filled(post, pos_y, columns, ids, x, z, y + 1),
{
    assert forall|a: int, c: int, b: int|
        0 <= a < SIZE as int && 0 <= c < SIZE as int && 0 <= b < SIZE as int implies post[
        #[trigger] cell_index(a, b, c)] == (if lex_before(a, c, b, x, z, y + 1) {
        cell_block(pos_y * (SIZE as int) + b, columns[a * (SIZE as int) + c], ids)
    } else {
        0u16
    }) by {
        lemma_cell_index_decompose(a, b, c);
        lemma_cell_index_decompose(x, y, z);
        if a == x && c == z && b == y {
            assert(post[cell_index(a, b, c)] == value);
        } else {
            assert(cell_index(a, b, c) != cell_index(x, y, z));
            assert(post[cell_index(a, b, c)] == pre[cell_index(a, b, c)]);
        }
    }
}

/// Finishing a column advances the progress point to the next `z`.
proof fn lemma_fill_column_done(
    blocks: Seq<u16>,
    pos_y: int,
    columns: Seq<ColumnProfile>,
    ids: BlockIds,
    x: int,
    z: int,
)
    requires
        0 <= x < SIZE as int,
        0 <= z < SIZE as int,
        filled(blocks, pos_y, columns, ids, x, z, SIZE as int),
    ensures
        filled(blocks, pos_y, columns, ids, x, z + 1, 0),
{
    assert forall|a: int, c: int, b: int|
        0 <= a < SIZE as int && 0 <= c < SIZE as int && 0 <= b < SIZE as int implies blocks[
        #[trigger] cell_index(a, b, c)] == (if lex_before(a, c, b, x, z + 1, 0) {
        cell_block(pos_y * (SIZE as int) + b, columns[a * (SIZE as int) + c], ids)
    } else {
        0u16
    }) by {
        assert(lex_before(a, c, b, x, z + 1, 0) == lex_before(a, c, b, x, z, SIZE as int));
    }
}

/// Finishing a row of columns advances the progress point to the next `x`.
proof fn lemma_fill_row_done(
    blocks: Seq<u16>,
    pos_y: int,
    columns: Seq<ColumnProfile>,
    ids: BlockIds,
    x: int,
)
    requires
        0 <= x < SIZE as int,
        filled(blocks, pos_y, columns, ids, x, SIZE as int, 0),
    ensures
        filled(blocks, pos_y, columns, ids, x + 1, 0, 0),
{
    assert forall|a: int, c: int, b: int|
        0 <= a < SIZE as int && 0 <= c < SIZE as int && 0 <= b < SIZE as int implies blocks[
        #[trigger] cell_index(a, b, c)] == (if lex_before(a, c, b, x + 1, 0, 0) {
        cell_block(pos_y * (SIZE as int) + b, columns[a * (SIZE as int) + c], ids)
    } else {
        0u16
    }) by {
        assert(lex_before(a, c, b, x + 1, 0, 0) == lex_before(a, c, b, x, SIZE as int, 0));
    }
}

/// The `k`-th position of the cubic bootstrap walk over chunk coordinates
/// `[-range, range]^3`: x advances slowest, then y, then z.
pub open spec fn cube_pos(range: int, k: int) -> IVec3 {
    let n = 2 * range + 1;
    IVec3 {
        x: (k / (n * n) - range) as i32,
        y: ((k / n) % n - range) as i32,
        z: (k % n - range) as i32,
    }
}

/// Every chunk position of the cubic range `[-range, range]^3`, in the
/// order the world bootstrap generates and enqueues them.
pub fn world_positions(range: i32) -> (r: Vec<IVec3>)
    requires
        0 <= range <= 100,
    ensures
        r@.len() == (2 * range + 1) * (2 * range + 1) * (2 * range + 1),
        forall|k: int| 0 <= k < r@.len() ==> #[trigger] r@[k] == cube_pos(range as int, k),
{
    let n = 2 * range + 1;
    let mut r: Vec<IVec3> = Vec::new();
    let mut x: i32 = -range;
    while x <= range
        invariant
            n == 2 * range + 1,
            0 <= range <= 100,
            -range <= x <= range + 1,
            r@.len() == (x + range) * (n as int) * (n as int),
            forall|k: int| 0 <= k < r@.len() ==> #[trigger] r@[k] == cube_pos(range as int, k),
        decreases range + 1 - x,
    {
        let mut y: i32 = -range;
        while y <= range
            invariant
                n == 2 * range + 1,
                0 <= range <= 100,
                -range <= x <= range,
                -range <= y <= range + 1,
                r@.len() == ((x + range) * (n as int) + (y + range)) * (n as int),
                forall|k: int| 0 <= k < r@.len() ==> #[trigger] r@[k] == cube_pos(range as int, k),
            decreases range + 1 - y,
        {
            let mut z: i32 = -range;
            while z <= range
                invariant
                    n == 2 * range + 1,
                    0 <= range <= 100,
                    -range <= x <= range,
                    -range <= y <= range,
                    -range <= z <= range + 1,
                    r@.len() == ((x + range) * (n as int) + (y + range)) * (n as int) + (z
                        + range),
                    forall|k: int|
                        0 <= k < r@.len() ==> #[trigger] r@[k] == cube_pos(range as int, k),
                decreases range + 1 - z,
            {
                proof {
                    lemma_cube_index(range as int, x as int, y as int, z as int);
                }
                r.push(IVec3::new(x, y, z));
                z = z + 1;
            }
            proof {
                assert(((x as int + range) * (n as int) + (y as int + range)) * (n as int) + (
                n as int) == ((x as int + range) * (n as int) + (y as int + range + 1)) * (
                n as int)) by (nonlinear_arith);
            }
            y = y + 1;
        }
        proof {
            assert(((x as int + range) * (n as int) + (2 * range as int + 1)) * (n as int) == (x
                as int + range + 1) * (n as int) * (n as int)) by (nonlinear_arith)
                requires
                    n == 2 * range + 1,
            ;
        }
        x = x + 1;
    }
    proof {
        assert((2 * range as int + 1) * (n as int) * (n as int) == (2 * range as int + 1) * (2
            * range as int + 1) * (2 * range as int + 1)) by (nonlinear_arith)
            requires
                n == 2 * range + 1,
        ;
    }
    r
}

/// The digits of a bootstrap walk index recover the coordinates.
#[verifier::nonlinear]
#[verifier::rlimit(100)]
proof fn lemma_cube_index(range: int, x: int, y: int, z: int)
    by (nonlinear_arith)
    requires
        0 <= range <= 100,
        -range <= x <= range,
        -range <= y <= range,
        -range <= z <= range,
    ensures
        cube_pos(range, ((x + range) * (2 * range + 1) + (y + range)) * (2 * range + 1) + (z
            + range)) == (IVec3 { x: x as i32, y: y as i32, z: z as i32 }),
{
}

/// Law (deep stone): every cell strictly below `-SIZE` in world height is
/// stone, whatever the noise said of its column.
pub proof fn lemma_deep_stone(world_y: int, col: ColumnProfile, ids: BlockIds)
    requires
        world_y < -(SIZE as int),
    ensures
        cell_block(world_y, col, ids) == ids.stone,
{
}

} // verus!
