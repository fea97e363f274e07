//! Face-culling mesher. For each of the six axis-aligned directions the
//! chunk is swept slice by slice; a quad is emitted exactly where a meshable
//! block touches a non-meshable one, so shared interior faces never appear.
//! Each vertex is packed into one 32-bit word whose layout GPU consumers
//! decode.

use vstd::arithmetic::div_mod::lemma_fundamental_div_mod_converse;
use vstd::pervasive::VecAdditionalExecFns;
use vstd::prelude::*;

use crate::math::{IVec3, UVec2};
use crate::registry::{is_meshable, spec_meshable, Block, BlocksHandler};
use crate::store::{refs_block, valid_sample_pos, ChunksRefs, SIZE, SIZE_I32, SIZE_P3};

verus! {

/// A face direction; also the face normal.
#[derive(Debug, Clone, Copy, PartialEq, Eq, Structural)]
pub enum Direction {
    Left,
    Right,
    Down,
    Up,
    Back,
    Forward,
}

/// Block position sampled for a grid cell of the sweep: which local position
/// the (axis, row, column) cell of a direction's scan reads.
pub open spec fn sample_pos(d: Direction, axis: int, row: int, column: int) -> (int, int, int) {
    match d {
        Direction::Up => (row, axis - 1, column),
        Direction::Down => (row, axis, column),
        Direction::Left => (axis, column, row),
        Direction::Right => (axis - 1, column, row),
        Direction::Forward => (row, column, axis),
        Direction::Back => (row, column, axis - 1),
    }
}

/// Outward normal of a direction: the step towards the air sample.
pub open spec fn normal(d: Direction) -> (int, int, int) {
    match d {
        Direction::Up => (0, 1, 0),
        Direction::Down => (0, -1, 0),
        Direction::Left => (-1, 0, 0),
        Direction::Right => (1, 0, 0),
        Direction::Forward => (0, 0, -1),
        Direction::Back => (0, 0, 1),
    }
}

/// The direction looking back along `d`'s normal.
pub open spec fn opposite(d: Direction) -> Direction {
    match d {
        Direction::Up => Direction::Down,
        Direction::Down => Direction::Up,
        Direction::Left => Direction::Right,
        Direction::Right => Direction::Left,
        Direction::Forward => Direction::Back,
        Direction::Back => Direction::Forward,
    }
}

/// Directions whose quad corners are wound in reverse to keep a consistent
/// front face.
pub open spec fn spec_reverse_order(d: Direction) -> bool {
    match d {
        Direction::Up => true,
        Direction::Down => false,
        Direction::Left => false,
        Direction::Right => true,
        Direction::Forward => true,
        Direction::Back => false,
    }
}

/// Axis correction for directions measured from the far side of a cell.
pub open spec fn spec_negate_axis(d: Direction) -> int {
    match d {
        Direction::Up | Direction::Right | Direction::Back => 1,
        _ => 0,
    }
}

/// 3-bit face id carried in a packed vertex.
pub open spec fn dir_code(d: Direction) -> u32 {
    match d {
        Direction::Up => 0,
        Direction::Left => 1,
        Direction::Right => 2,
        Direction::Forward => 3,
        Direction::Back => 4,
        Direction::Down => 5,
    }
}

/// The direction scanned in the `k`-th of the six meshing passes.
pub open spec fn dir_at(k: int) -> Direction {
    if k == 0 {
        Direction::Left
    } else if k == 1 {
        Direction::Right
    } else if k == 2 {
        Direction::Down
    } else if k == 3 {
        Direction::Up
    } else if k == 4 {
        Direction::Back
    } else {
        Direction::Forward
    }
}

impl Direction {
    /// Get the block position a scan cell reads, from grid axis, row and
    /// column.
    pub fn world_sample(&self, axis: i32, row: i32, column: i32) -> (v: IVec3)
        requires
            i32::MIN < axis,
        ensures
            v.x == sample_pos(*self, axis as int, row as int, column as int).0,
            v.y == sample_pos(*self, axis as int, row as int, column as int).1,
            v.z == sample_pos(*self, axis as int, row as int, column as int).2,
    {
        match self {
            Self::Up => IVec3::new(row, axis - 1, column),
            Self::Down => IVec3::new(row, axis, column),
            Self::Left => IVec3::new(axis, column, row),
            Self::Right => IVec3::new(axis - 1, column, row),
            Self::Forward => IVec3::new(row, column, axis),
            Self::Back => IVec3::new(row, column, axis - 1),
        }
    }

    /// Relative position of the air sample: one step along the normal.
    pub fn air_sample(&self) -> (v: IVec3)
        ensures
            v.x == normal(*self).0,
            v.y == normal(*self).1,
            v.z == normal(*self).2,
    {
        match self {
            Self::Up => IVec3::new(0, 1, 0),
            Self::Down => IVec3::new(0, -1, 0),
            Self::Left => IVec3::new(-1, 0, 0),
            Self::Right => IVec3::new(1, 0, 0),
            Self::Forward => IVec3::new(0, 0, -1),
            Self::Back => IVec3::new(0, 0, 1),
        }
    }

    pub fn reverse_order(&self) -> (r: bool)
        ensures
            r == spec_reverse_order(*self),
    {
        match self {
            Self::Up => true,
            Self::Down => false,
            Self::Left => false,
            Self::Right => true,
            Self::Forward => true,
            Self::Back => false,
        }
    }

    pub fn negate_axis(&self) -> (r: i32)
        ensures
            r == spec_negate_axis(*self),
    {
        match self {
            Self::Up | Self::Right | Self::Back => 1,
            _ => 0,
        }
    }

    pub fn to_u32(&self) -> (r: u32)
        ensures
            r == dir_code(*self),
    {
        match self {
            Self::Up => 0,
            Self::Left => 1,
            Self::Right => 2,
            Self::Forward => 3,
            Self::Back => 4,
            Self::Down => 5,
        }
    }

    /// All six directions, in scan order.
    pub fn iter() -> (r: Vec<Direction>)
        ensures
            r@.len() == 6,
            forall|k: int| 0 <= k < 6 ==> #[trigger] r@[k] == dir_at(k),
    {
        let mut dirs: Vec<Direction> = Vec::new();
        dirs.push(Self::Left);
        dirs.push(Self::Right);
        dirs.push(Self::Down);
        dirs.push(Self::Up);
        dirs.push(Self::Back);
        dirs.push(Self::Forward);
        dirs
    }
}

/// One packed vertex word:
/// bits [0..6) local X, [6..12) local Y, [12..18) local Z,
/// [18..21) face id, [21..28) block id (doubling as a texture index),
/// [28..29) UV x, [29..30) UV y.
pub open spec fn vertex_word(x: u32, y: u32, z: u32, d: Direction, block: u32, ux: u32, uy: u32) -> u32 {
    x | (y << 6) | (z << 12) | (dir_code(d) << 18) | (block << 21) | (ux << 28) | (uy << 29)
}

/// Local X recovered from a packed vertex.
pub open spec fn vertex_x(w: u32) -> u32 {
    w & 0x3f
}

/// Local Y recovered from a packed vertex.
pub open spec fn vertex_y(w: u32) -> u32 {
    (w >> 6) & 0x3f
}

/// Local Z recovered from a packed vertex.
pub open spec fn vertex_z(w: u32) -> u32 {
    (w >> 12) & 0x3f
}

/// Face id recovered from a packed vertex.
pub open spec fn vertex_face(w: u32) -> u32 {
    (w >> 18) & 0x7
}

/// Block id recovered from a packed vertex.
pub open spec fn vertex_block(w: u32) -> u32 {
    (w >> 21) & 0x7f
}

/// UV x bit recovered from a packed vertex.
pub open spec fn vertex_uv_x(w: u32) -> u32 {
    (w >> 28) & 1
}

/// UV y bit recovered from a packed vertex.
pub open spec fn vertex_uv_y(w: u32) -> u32 {
    (w >> 29) & 1
}

/// Law: vertex packing round-trips. For every local position in [0, 64)^3,
/// direction, block id below 128 and UV corner, decoding the packed word
/// recovers every field exactly.
pub proof fn lemma_vertex_round_trip(
    x: u32,
    y: u32,
    z: u32,
    d: Direction,
    block: u32,
    ux: u32,
    uy: u32,
)
    requires
        x < 64,
        y < 64,
        z < 64,
        block < 128,
        ux < 2,
        uy < 2,
    ensures
        vertex_x(vertex_word(x, y, z, d, block, ux, uy)) == x,
        vertex_y(vertex_word(x, y, z, d, block, ux, uy)) == y,
        vertex_z(vertex_word(x, y, z, d, block, ux, uy)) == z,
        vertex_face(vertex_word(x, y, z, d, block, ux, uy)) == dir_code(d),
        vertex_block(vertex_word(x, y, z, d, block, ux, uy)) == block,
        vertex_uv_x(vertex_word(x, y, z, d, block, ux, uy)) == ux,
        vertex_uv_y(vertex_word(x, y, z, d, block, ux, uy)) == uy,
{
    let c = dir_code(d);
    assert(c < 6);
    let w = x | (y << 6) | (z << 12) | (c << 18) | (block << 21) | (ux << 28) | (uy << 29);
    assert((w & 0x3f) == x && ((w >> 6) & 0x3f) == y && ((w >> 12) & 0x3f) == z && ((w >> 18)
        & 0x7) == c && ((w >> 21) & 0x7f) == block && ((w >> 28) & 1) == ux && ((w >> 29) & 1)
        == uy) by (bit_vector)
        requires
            w == x | (y << 6) | (z << 12) | (c << 18) | (block << 21) | (ux << 28) | (uy << 29),
            x < 64,
            y < 64,
            z < 64,
            c < 6,
            block < 128,
            ux < 2,
            uy < 2,
    ;
}

/// A packed vertex builder.
#[derive(Debug, Clone, Copy)]
pub struct Vertex;

impl Vertex {
    /// Pack one vertex into its 32-bit word.
    pub fn new(local: IVec3, dir: Direction, block: u32, uv: &UVec2) -> (data: u32)
        requires
            0 <= local.x < 64,
            0 <= local.y < 64,
            0 <= local.z < 64,
            block < 128,
            uv.x < 2,
            uv.y < 2,
        ensures
            data == vertex_word(
                local.x as u32,
                local.y as u32,
                local.z as u32,
                dir,
                block,
                uv.x,
                uv.y,
            ),
    {
        let data = local.x as u32 | (local.y as u32) << 6 | (local.z as u32) << 12 | (dir.to_u32())
            << 18 | block << 21  // Block id is also the texture id in the binding array
         | uv.x << 28  // UV may be only 0 or 1
         | uv.y << 29;
        data
    }
}

/// One corner vertex of the quad for scan cell (row `x`, column `y`) of a
/// direction's slice at corrected axis `a`.
pub open spec fn quad_vertex(d: Direction, a: int, x: int, y: int, block: u16, ux: u32, uy: u32) -> u32 {
    let p = sample_pos(d, a, x, y);
    vertex_word(p.0 as u32, p.1 as u32, p.2 as u32, d, block as u32, ux, uy)
}

/// The four vertices of one face quad, with UV corners (1,1), (0,1), (0,0),
/// (1,0), wound in reverse for the flagged directions.
pub open spec fn quad_spec(d: Direction, axis: int, x: int, y: int, block: u16) -> Seq<u32> {
    let a = axis + spec_negate_axis(d);
    let v1 = quad_vertex(d, a, x, y, block, 1, 1);
    let v2 = quad_vertex(d, a, x + 1, y, block, 0, 1);
    let v3 = quad_vertex(d, a, x + 1, y + 1, block, 0, 0);
    let v4 = quad_vertex(d, a, x, y + 1, block, 1, 0);
    if spec_reverse_order(d) {
        seq![v1, v4, v3, v2]
    } else {
        seq![v1, v2, v3, v4]
    }
}

/// One face of the scan grid.
pub struct Face {
    pub x: i32,
    pub y: i32,
}

impl Face {
    pub fn new(x: i32, y: i32) -> (f: Self)
        ensures
            f.x == x,
            f.y == y,
    {
        Self { x, y }
    }

    /// The UV corners of a quad, in emission order.
    fn uvs(k: usize) -> (uv: UVec2)
        requires
            k < 4,
        ensures
            k == 0 ==> uv == (UVec2 { x: 1, y: 1 }),
            k == 1 ==> uv == (UVec2 { x: 0, y: 1 }),
            k == 2 ==> uv == (UVec2 { x: 0, y: 0 }),
            k == 3 ==> uv == (UVec2 { x: 1, y: 0 }),
    {
        if k == 0 {
            UVec2::new(1, 1)
        } else if k == 1 {
            UVec2::new(0, 1)
        } else if k == 2 {
            UVec2::new(0, 0)
        } else {
            UVec2::new(1, 0)
        }
    }

    /// Make the four packed vertices of this face's quad.
    pub fn vertices(self, dir: Direction, axis: i32, block: u16) -> (r: Vec<u32>)
        requires
            0 <= axis < SIZE_I32,
            0 <= self.x < SIZE_I32,
            0 <= self.y < SIZE_I32,
            block < 128,
        ensures
            r@ == quad_spec(dir, axis as int, self.x as int, self.y as int, block),
    {
        let axis = axis + dir.negate_axis();
        let v1 = Vertex::new(
            dir.world_sample(axis, self.x, self.y),
            dir,
            block as u32,
            &Self::uvs(0),
        );
        let v2 = Vertex::new(
            dir.world_sample(axis, self.x + 1, self.y),
            dir,
            block as u32,
            &Self::uvs(1),
        );
        let v3 = Vertex::new(
            dir.world_sample(axis, self.x + 1, self.y + 1),
            dir,
            block as u32,
            &Self::uvs(2),
        );
        let v4 = Vertex::new(
            dir.world_sample(axis, self.x, self.y + 1),
            dir,
            block as u32,
            &Self::uvs(3),
        );
        let mut quad: Vec<u32> = Vec::new();
        if dir.reverse_order() {
            quad.push(v1);
            quad.push(v4);
            quad.push(v3);
            quad.push(v2);
        } else {
            quad.push(v1);
            quad.push(v2);
            quad.push(v3);
            quad.push(v4);
        }
        proof {
            assert(quad@ =~= quad_spec(dir, axis as int - spec_negate_axis(dir), self.x as int, self.y as int, block));
        }
        quad
    }
}

/// Whether the mesh shows a face of the block at (x, y, z) towards `d`: the
/// block is meshable and its neighbour along the normal is not.
pub open spec fn block_face(
    v: Seq<Seq<u16>>,
    reg: Seq<Block>,
    d: Direction,
    x: int,
    y: int,
    z: int,
) -> bool {
    &&& spec_meshable(reg, refs_block(v, x, y, z))
    &&& !spec_meshable(reg, refs_block(v, x + normal(d).0, y + normal(d).1, z + normal(d).2))
}

/// Whether scan cell (axis, row, column) of direction `d` emits a face.
pub open spec fn face_emitted(
    v: Seq<Seq<u16>>,
    reg: Seq<Block>,
    d: Direction,
    axis: int,
    row: int,
    column: int,
) -> bool {
    let p = sample_pos(d, axis, row, column);
    block_face(v, reg, d, p.0, p.1, p.2)
}

/// The vertices one scan cell contributes: one quad, or nothing.
pub open spec fn face_quad(
    v: Seq<Seq<u16>>,
    reg: Seq<Block>,
    d: Direction,
    axis: int,
    row: int,
    column: int,
) -> Seq<u32> {
    let p = sample_pos(d, axis, row, column);
    if face_emitted(v, reg, d, axis, row, column) {
        quad_spec(d, axis, row, column, refs_block(v, p.0, p.1, p.2))
    } else {
        Seq::empty()
    }
}

/// Vertices emitted by the first `t` scan cells of direction `d`, in scan
/// order: axis major, then column, then row.
pub open spec fn dir_vertices_upto(
    v: Seq<Seq<u16>>,
    reg: Seq<Block>,
    d: Direction,
    t: int,
) -> Seq<u32>
    decreases t,
{
    if t <= 0 {
        Seq::empty()
    } else {
        let k = t - 1;
        let axis = k / ((SIZE * SIZE) as int);
        let i = k % ((SIZE * SIZE) as int);
        dir_vertices_upto(v, reg, d, k) + face_quad(
            v,
            reg,
            d,
            axis,
            i % (SIZE as int),
            i / (SIZE as int),
        )
    }
}

/// All vertices emitted by one direction's sweep.
pub open spec fn dir_vertices(v: Seq<Seq<u16>>, reg: Seq<Block>, d: Direction) -> Seq<u32> {
    dir_vertices_upto(v, reg, d, SIZE_P3 as int)
}

/// Vertices emitted by the first `k` of the six direction passes.
pub open spec fn mesh_vertices_upto(v: Seq<Seq<u16>>, reg: Seq<Block>, k: int) -> Seq<u32>
    decreases k,
{
    if k <= 0 {
        Seq::empty()
    } else {
        mesh_vertices_upto(v, reg, k - 1) + dir_vertices(v, reg, dir_at(k - 1))
    }
}

/// The whole vertex buffer of a meshed chunk.
pub open spec fn mesh_vertices(v: Seq<Seq<u16>>, reg: Seq<Block>) -> Seq<u32> {
    mesh_vertices_upto(v, reg, 6)
}

/// Number of faces emitted by the first `t` scan cells of direction `d`.
pub open spec fn emitted_upto(v: Seq<Seq<u16>>, reg: Seq<Block>, d: Direction, t: int) -> int
    decreases t,
{
    if t <= 0 {
        0
    } else {
        let k = t - 1;
        let axis = k / ((SIZE * SIZE) as int);
        let i = k % ((SIZE * SIZE) as int);
        emitted_upto(v, reg, d, k) + if face_emitted(
            v,
            reg,
            d,
            axis,
            i % (SIZE as int),
            i / (SIZE as int),
        ) {
            1int
        } else {
            0int
        }
    }
}

/// Every scanned cell and its air sample lie within the neighbour view: the
/// sampled coordinate leaves the core range along at most the scan axis, and
/// by at most one block.
pub proof fn lemma_scan_pos_valid(d: Direction, axis: int, row: int, column: int)
    requires
        0 <= axis < SIZE as int,
        0 <= row < SIZE as int,
        0 <= column < SIZE as int,
    ensures
        valid_sample_pos(
            sample_pos(d, axis, row, column).0,
            sample_pos(d, axis, row, column).1,
            sample_pos(d, axis, row, column).2,
        ),
        valid_sample_pos(
            sample_pos(d, axis, row, column).0 + normal(d).0,
            sample_pos(d, axis, row, column).1 + normal(d).1,
            sample_pos(d, axis, row, column).2 + normal(d).2,
        ),
{
}

/// Unfolding one scan step of a direction's sweep.
proof fn lemma_dir_vertices_step(v: Seq<Seq<u16>>, reg: Seq<Block>, d: Direction, axis: int, i: int)
    requires
        0 <= axis < SIZE as int,
        0 <= i < (SIZE * SIZE) as int,
    ensures
        dir_vertices_upto(v, reg, d, axis * ((SIZE * SIZE) as int) + i + 1) == dir_vertices_upto(
            v,
            reg,
            d,
            axis * ((SIZE * SIZE) as int) + i,
        ) + face_quad(v, reg, d, axis, i % (SIZE as int), i / (SIZE as int)),
{
    let s2 = (SIZE * SIZE) as int;
    let k = axis * s2 + i;
    lemma_fundamental_div_mod_converse(k, s2, axis, i);
}

/// Law: every face's quad holds exactly 4 vertices, so a direction's sweep
/// emits 4 vertices per emitted face.
pub proof fn lemma_dir_vertices_len(v: Seq<Seq<u16>>, reg: Seq<Block>, d: Direction, t: int)
    requires
        t >= 0,
    ensures
        dir_vertices_upto(v, reg, d, t).len() == 4 * emitted_upto(v, reg, d, t),
    decreases t,
{
    if t > 0 {
        lemma_dir_vertices_len(v, reg, d, t - 1);
    }
}

/// The normal of the opposite direction points back.
pub proof fn lemma_normal_opposite(d: Direction)
    ensures
        normal(opposite(d)).0 == -normal(d).0,
        normal(opposite(d)).1 == -normal(d).1,
        normal(opposite(d)).2 == -normal(d).2,
{
}

/// Law (watertight culling, solid beside solid): between two adjacent
/// meshable blocks no face is emitted, from either side.
pub proof fn lemma_watertight_solid_pair(
    v: Seq<Seq<u16>>,
    reg: Seq<Block>,
    d: Direction,
    x: int,
    y: int,
    z: int,
)
    requires
        spec_meshable(reg, refs_block(v, x, y, z)),
        spec_meshable(reg, refs_block(v, x + normal(d).0, y + normal(d).1, z + normal(d).2)),
    ensures
        !block_face(v, reg, d, x, y, z),
        !block_face(
            v,
            reg,
            opposite(d),
            x + normal(d).0,
            y + normal(d).1,
            z + normal(d).2,
        ),
{
    lemma_normal_opposite(d);
}

/// Law (watertight culling, solid beside empty): a meshable block beside a
/// non-meshable one shows exactly one face on that shared boundary — the one
/// from the solid side; the empty side shows none. Each such face is one
/// quad of 4 vertices and 6 indices (`lemma_quad_size`,
/// `lemma_dir_vertices_len`, `lemma_indices_len`).
pub proof fn lemma_boundary_face(
    v: Seq<Seq<u16>>,
    reg: Seq<Block>,
    d: Direction,
    x: int,
    y: int,
    z: int,
)
    requires
        spec_meshable(reg, refs_block(v, x, y, z)),
        !spec_meshable(reg, refs_block(v, x + normal(d).0, y + normal(d).1, z + normal(d).2)),
    ensures
        block_face(v, reg, d, x, y, z),
        !block_face(
            v,
            reg,
            opposite(d),
            x + normal(d).0,
            y + normal(d).1,
            z + normal(d).2,
        ),
{
    lemma_normal_opposite(d);
}

/// Law: the quad of any emitted face holds exactly 4 vertices.
pub proof fn lemma_quad_size(d: Direction, axis: int, x: int, y: int, block: u16)
    ensures
        quad_spec(d, axis, x, y, block).len() == 4,
{
}

/// No face is ever emitted in an all-air neighbourhood.
proof fn lemma_dir_vertices_empty(v: Seq<Seq<u16>>, reg: Seq<Block>, d: Direction, t: int)
    requires
        0 <= t <= SIZE_P3 as int,
        v.len() == 7,
        forall|n: int| 0 <= n < 7 ==> (#[trigger] v[n]).len() == SIZE_P3,
        forall|n: int, j: int| 0 <= n < 7 && 0 <= j < SIZE_P3 ==> #[trigger] v[n][j] == 0,
        !spec_meshable(reg, 0),
    ensures
        dir_vertices_upto(v, reg, d, t) == Seq::<u32>::empty(),
    decreases t,
{
    if t > 0 {
        let s2 = (SIZE * SIZE) as int;
        let k = t - 1;
        lemma_dir_vertices_empty(v, reg, d, k);
        vstd::arithmetic::div_mod::lemma_fundamental_div_mod(k, s2);
        vstd::arithmetic::div_mod::lemma_fundamental_div_mod(k % s2, SIZE as int);
        let axis = k / s2;
        let row = (k % s2) % (SIZE as int);
        let column = (k % s2) / (SIZE as int);
        lemma_scan_pos_valid(d, axis, row, column);
        let p = sample_pos(d, axis, row, column);
        crate::store::lemma_refs_block_range(p.0, p.1, p.2);
        assert(refs_block(v, p.0, p.1, p.2) == 0);
        assert(!face_emitted(v, reg, d, axis, row, column));
        assert(dir_vertices_upto(v, reg, d, t) =~= Seq::<u32>::empty());
    }
}

/// Law (scenario: all-air neighbourhood): when every block of the seven
/// gathered chunks is air and air is not meshable, meshing emits no vertices
/// at all.
pub proof fn lemma_all_air_mesh(v: Seq<Seq<u16>>, reg: Seq<Block>)
    requires
        v.len() == 7,
        forall|n: int| 0 <= n < 7 ==> (#[trigger] v[n]).len() == SIZE_P3,
        forall|n: int, j: int| 0 <= n < 7 && 0 <= j < SIZE_P3 ==> #[trigger] v[n][j] == 0,
        !spec_meshable(reg, 0),
    ensures
        mesh_vertices(v, reg) == Seq::<u32>::empty(),
{
    assert forall|k: int| 0 <= k < 6 implies dir_vertices(v, reg, dir_at(k))
        == Seq::<u32>::empty() by {
        lemma_dir_vertices_empty(v, reg, dir_at(k), SIZE_P3 as int);
    }
    assert(mesh_vertices_upto(v, reg, 0) =~= Seq::<u32>::empty());
    assert(mesh_vertices_upto(v, reg, 1) =~= Seq::<u32>::empty());
    assert(mesh_vertices_upto(v, reg, 2) =~= Seq::<u32>::empty());
    assert(mesh_vertices_upto(v, reg, 3) =~= Seq::<u32>::empty());
    assert(mesh_vertices_upto(v, reg, 4) =~= Seq::<u32>::empty());
    assert(mesh_vertices_upto(v, reg, 5) =~= Seq::<u32>::empty());
    assert(mesh_vertices(v, reg) =~= Seq::<u32>::empty());
}

/// The indices of the `q`-th quad: two triangles over its four corners.
pub open spec fn quad_indices(q: int) -> Seq<u32> {
    seq![
        (4 * q) as u32,
        (4 * q + 1) as u32,
        (4 * q + 2) as u32,
        (4 * q) as u32,
        (4 * q + 2) as u32,
        (4 * q + 3) as u32,
    ]
}

/// The index buffer for `n` quads.
pub open spec fn indices_spec(n: int) -> Seq<u32>
    decreases n,
{
    if n <= 0 {
        Seq::empty()
    } else {
        indices_spec(n - 1) + quad_indices(n - 1)
    }
}

/// Law: every quad of four vertices contributes exactly six indices.
pub proof fn lemma_indices_len(n: int)
    requires
        n >= 0,
    ensures
        indices_spec(n).len() == 6 * n,
    decreases n,
{
    if n > 0 {
        lemma_indices_len(n - 1);
    }
}

/// A built mesh: the chunk position with its packed vertex and index
/// buffers.
#[derive(Debug)]
pub struct Mesh {
    pub position: IVec3,
    pub vertices: Vec<u32>,
    pub indices: Vec<u32>,
}

impl Mesh {
    /// Two triangles per quad: 6 indices for every 4 vertices.
    pub open spec fn wf(&self) -> bool {
        self.indices@.len() == self.vertices@.len() / 4 * 6
    }

    /// Sweep one direction across the neighbour view, culling faces: a quad
    /// is emitted exactly where a meshable block touches a non-meshable one.
    fn make_vertices(dir: Direction, refs: &ChunksRefs<'_>, blocks: &BlocksHandler) -> (r: Vec<
        u32,
    >)
        requires
            refs.wf(),
            blocks.wf(),
            blocks@.len() <= 128,
        ensures
            r@ == dir_vertices(refs@, blocks@, dir),
    {
        let mut vertices: Vec<u32> = Vec::new();
        let size = SIZE_I32;
        let mut axis: i32 = 0;
        while axis < size
            invariant
                size == SIZE_I32,
                refs.wf(),
                blocks.wf(),
                blocks@.len() <= 128,
                0 <= axis <= SIZE_I32,
                vertices@ == dir_vertices_upto(
                    refs@,
                    blocks@,
                    dir,
                    (axis as int) * ((SIZE * SIZE) as int),
                ),
            decreases SIZE_I32 - axis,
        {
            Self::sweep_slice(dir, refs, blocks, axis, &mut vertices);
            axis = axis + 1;
        }
        vertices
    }

    /// Sweep one slice of the scan: every (row, column) cell of the
    /// cross-section at `axis`.
    #[verifier::rlimit(60)]
    fn sweep_slice(
        dir: Direction,
        refs: &ChunksRefs<'_>,
        blocks: &BlocksHandler,
        axis: i32,
        vertices: &mut Vec<u32>,
    )
        requires
            refs.wf(),
            blocks.wf(),
            blocks@.len() <= 128,
            0 <= axis < SIZE_I32,
            old(vertices)@ == dir_vertices_upto(
                refs@,
                blocks@,
                dir,
                (axis as int) * ((SIZE * SIZE) as int),
            ),
        ensures
            final(vertices)@ == dir_vertices_upto(
                refs@,
                blocks@,
                dir,
                (axis as int + 1) * ((SIZE * SIZE) as int),
            ),
    {
        let size = SIZE_I32;
        let mut i: i32 = 0;
        while i < size * size
            invariant
                size == SIZE_I32,
                refs.wf(),
                blocks.wf(),
                blocks@.len() <= 128,
                0 <= axis < SIZE_I32,
                0 <= i <= (SIZE * SIZE) as i32,
                vertices@ == dir_vertices_upto(
                    refs@,
                    blocks@,
                    dir,
                    (axis as int) * ((SIZE * SIZE) as int) + i as int,
                ),
            decreases (SIZE * SIZE) as i32 - i,
        {
            let row = i % size;
            let column = i / size;
            proof {
                lemma_scan_pos_valid(dir, axis as int, row as int, column as int);
            }
            let pos = dir.world_sample(axis, row, column);
            let current = refs.get_block(pos);
            let neg_z = refs.get_block(pos.plus(dir.air_sample()));
            if is_meshable(blocks, current) && !is_meshable(blocks, neg_z) {
                let face = Face::new(row, column);
                let mut quad = face.vertices(dir, axis, current);
                vertices.append(&mut quad);
            }
            proof {
                lemma_dir_vertices_step(refs@, blocks@, dir, axis as int, i as int);
            }
            i = i + 1;
        }
        proof {
            assert((axis as int + 1) * ((SIZE * SIZE) as int) == (axis as int) * ((
            SIZE * SIZE) as int) + ((SIZE * SIZE) as int)) by (nonlinear_arith);
        }
    }

    /// Build the whole vertex buffer: all six directions applied in order.
    pub fn build(refs: ChunksRefs<'_>, blocks: &BlocksHandler) -> (r: Vec<u32>)
        requires
            refs.wf(),
            blocks.wf(),
            blocks@.len() <= 128,
        ensures
            r@ == mesh_vertices(refs@, blocks@),
    {
        let mut vertices: Vec<u32> = Vec::new();
        let dirs = Direction::iter();
        let mut k: usize = 0;
        while k < dirs.len()
            invariant
                refs.wf(),
                blocks.wf(),
                blocks@.len() <= 128,
                dirs@.len() == 6,
                forall|j: int| 0 <= j < 6 ==> #[trigger] dirs@[j] == dir_at(j),
                0 <= k <= 6,
                vertices@ == mesh_vertices_upto(refs@, blocks@, k as int),
            decreases 6 - k,
        {
            let mut part = Self::make_vertices(dirs[k], &refs, blocks);
            vertices.append(&mut part);
            k = k + 1;
        }
        vertices
    }

    /// Generate the index buffer: each consecutive group of 4 vertices is one
    /// quad and yields the 6 indices of its two triangles.
    pub fn generate_indices(vertices: &Vec<u32>) -> (r: Vec<u32>)
        requires
            vertices@.len() <= 0xffff_ffff,
        ensures
            r@ == indices_spec(vertices@.len() as int / 4),
    {
        let indices_count = vertices.len() / 4;
        let mut indices: Vec<u32> = Vec::new();
        let mut vert_index: usize = 0;
        while vert_index < indices_count
            invariant
                indices_count == vertices@.len() / 4,
                vertices@.len() <= 0xffff_ffff,
                0 <= vert_index <= indices_count,
                indices@ == indices_spec(vert_index as int),
            decreases indices_count - vert_index,
        {
            let base = (vert_index as u32) * 4;
            indices.push(base);
            indices.push(base + 1);
            indices.push(base + 2);
            indices.push(base);
            indices.push(base + 2);
            indices.push(base + 3);
            proof {
                assert(indices@ =~= indices_spec(vert_index as int + 1));
            }
            vert_index = vert_index + 1;
        }
        indices
    }
}

/// Mesh one chunk: cull faces against the 7-chunk neighbourhood and emit the
/// packed vertex and index buffers under the chunk's position.
pub fn build_mesh(pos: IVec3, refs: ChunksRefs<'_>, blocks: &BlocksHandler) -> (m: Mesh)
    requires
        refs.wf(),
        blocks.wf(),
        blocks@.len() <= 128,
    ensures
        m.position == pos,
        m.vertices@ == mesh_vertices(refs@, blocks@),
        m.indices@ == indices_spec(mesh_vertices(refs@, blocks@).len() as int / 4),
        m.wf(),
    {
    let vertices = Mesh::build(refs, blocks);
    proof {
        lemma_mesh_vertices_bound(refs@, blocks@);
        lemma_indices_len(vertices@.len() as int / 4);
    }
    let indices = Mesh::generate_indices(&vertices);
    Mesh { position: pos, vertices, indices }
}

/// Whether some mesh of `s` is published under position `p`.
pub open spec fn table_contains(s: Seq<Mesh>, p: IVec3) -> bool {
    exists|i: int| 0 <= i < s.len() && (#[trigger] s[i]).position == p
}

/// The vertex and index buffers published under `p` (meaningful when the
/// positions of `s` are unique).
pub open spec fn table_buffers(s: Seq<Mesh>, p: IVec3) -> (Seq<u32>, Seq<u32>) {
    let i = choose|i: int| 0 <= i < s.len() && (#[trigger] s[i]).position == p;
    (s[i].vertices@, s[i].indices@)
}

/// The published meshes, keyed by chunk position. A regenerated mesh
/// overwrites the prior entry whole; entries are never partially updated.
#[derive(Debug)]
pub struct MeshTable {
    meshes: Vec<Mesh>,
}

impl MeshTable {
    /// The published entries, in publication order.
    pub closed spec fn entries(&self) -> Seq<Mesh> {
        self.meshes@
    }

    /// Positions are unique and every entry keeps the two-triangles-per-quad
    /// shape.
    pub open spec fn wf(&self) -> bool {
        &&& forall|i: int, j: int|
            0 <= i < j < self.entries().len() ==> (#[trigger] self.entries()[i]).position != (
            #[trigger] self.entries()[j]).position
        &&& forall|i: int| 0 <= i < self.entries().len() ==> (#[trigger] self.entries()[i]).wf()
    }

    /// Whether a mesh is published at `p`.
    pub open spec fn spec_contains(&self, p: IVec3) -> bool {
        table_contains(self.entries(), p)
    }

    /// The buffers published at `p`.
    pub open spec fn spec_buffers(&self, p: IVec3) -> (Seq<u32>, Seq<u32>) {
        table_buffers(self.entries(), p)
    }

    /// Fresh empty table.
    pub fn new() -> (t: Self)
        ensures
            t.wf(),
            t.entries().len() == 0,
            forall|p: IVec3| !t.spec_contains(p),
    {
        MeshTable { meshes: Vec::new() }
    }

    /// Publish a mesh under its position, replacing any previous entry there
    /// and leaving every other position untouched.
    pub fn insert(&mut self, mesh: Mesh)
        requires
            old(self).wf(),
            mesh.wf(),
        ensures
            final(self).wf(),
            final(self).spec_contains(mesh.position),
            final(self).spec_buffers(mesh.position) == (mesh.vertices@, mesh.indices@),
            forall|q: IVec3|
                q != mesh.position ==> (final(self).spec_contains(q) <==> old(self).spec_contains(
                    q,
                )),
            forall|q: IVec3|
                q != mesh.position && old(self).spec_contains(q) ==> final(self).spec_buffers(q)
                    == old(self).spec_buffers(q),
    {
        let ghost pre = self.meshes@;
        let position = mesh.position;
        let mut i: usize = 0;
        let mut found: bool = false;
        while i < self.meshes.len() && !found
            invariant
                0 <= i <= pre.len(),
                self.meshes@ == pre,
                pre == old(self).entries(),
                old(self).wf(),
                found ==> i < pre.len() && pre[i as int].position == position,
                !found ==> forall|k: int| 0 <= k < i ==> (#[trigger] pre[k]).position != position,
            decreases pre.len() - i + if found { 0int } else { 1int },
        {
            if self.meshes[i].position == position {
                found = true;
            } else {
                i = i + 1;
            }
        }
        if found {
            self.meshes.set(i, mesh);
            proof {
                lemma_table_replace(pre, self.meshes@, i as int, position);
            }
        } else {
            self.meshes.push(mesh);
            proof {
                lemma_table_push(pre, self.meshes@, position);
            }
        }
    }

    /// Look a position up; answers exactly when a mesh is published there.
    pub fn get(&self, position: IVec3) -> (r: Option<&Mesh>)
        requires
            self.wf(),
        ensures
            r is Some <==> self.spec_contains(position),
            r matches Some(m) ==> {
                &&& m.wf()
                &&& m.position == position
                &&& m.vertices@ == self.spec_buffers(position).0
                &&& m.indices@ == self.spec_buffers(position).1
            },
    {
        let mut i: usize = 0;
        while i < self.meshes.len()
            invariant
                self.wf(),
                0 <= i <= self.entries().len(),
                forall|k: int| 0 <= k < i ==> (#[trigger] self.entries()[k]).position != position,
            decreases self.entries().len() - i,
        {
            if self.meshes[i].position == position {
                proof {
                    lemma_table_at(self.entries(), i as int, position);
                }
                return Some(&self.meshes[i]);
            }
            i = i + 1;
        }
        None
    }

    /// Number of published meshes.
    pub fn len(&self) -> (n: usize)
        ensures
            n == self.entries().len(),
    {
        self.meshes.len()
    }
}

/// In a table with unique positions, the entry found at index `i` is the one
/// every position-keyed lookup sees.
proof fn lemma_table_at(s: Seq<Mesh>, i: int, p: IVec3)
    requires
        forall|a: int, b: int|
            0 <= a < b < s.len() ==> (#[trigger] s[a]).position != (#[trigger] s[b]).position,
        0 <= i < s.len(),
        s[i].position == p,
    ensures
        table_contains(s, p),
        table_buffers(s, p) == (s[i].vertices@, s[i].indices@),
{
    assert(table_contains(s, p));
    let j = choose|j: int| 0 <= j < s.len() && (#[trigger] s[j]).position == p;
    assert(j == i);
}

/// Replacing the entry that holds `p` keeps every other position intact.
proof fn lemma_table_replace(pre: Seq<Mesh>, post: Seq<Mesh>, i: int, p: IVec3)
    requires
        forall|a: int, b: int|
            0 <= a < b < pre.len() ==> (#[trigger] pre[a]).position != (#[trigger] pre[b]).position,
        forall|k: int| 0 <= k < pre.len() ==> (#[trigger] pre[k]).wf(),
        0 <= i < pre.len(),
        pre[i].position == p,
        post.len() == pre.len(),
        post[i].position == p,
        post[i].wf(),
        forall|k: int| 0 <= k < pre.len() && k != i ==> post[k] == pre[k],
    ensures
        forall|a: int, b: int|
            0 <= a < b < post.len() ==> (#[trigger] post[a]).position != (
            #[trigger] post[b]).position,
        forall|k: int| 0 <= k < post.len() ==> (#[trigger] post[k]).wf(),
        table_contains(post, p),
        table_buffers(post, p) == (post[i].vertices@, post[i].indices@),
        forall|q: IVec3| q != p ==> (table_contains(post, q) <==> table_contains(pre, q)),
        forall|q: IVec3|
            q != p && table_contains(pre, q) ==> table_buffers(post, q) == table_buffers(pre, q),
{
    assert forall|a: int, b: int| 0 <= a < b < post.len() implies (#[trigger] post[a]).position != (
    #[trigger] post[b]).position by {
        assert(post[a].position == pre[a].position);
        assert(post[b].position == pre[b].position);
    }
    lemma_table_at(post, i, p);
    assert forall|q: IVec3| q != p implies (table_contains(post, q) <==> table_contains(pre, q)) by {
        if table_contains(pre, q) {
            let k = choose|k: int| 0 <= k < pre.len() && (#[trigger] pre[k]).position == q;
            assert(post[k].position == q);
        }
        if table_contains(post, q) {
            let k = choose|k: int| 0 <= k < post.len() && (#[trigger] post[k]).position == q;
            assert(pre[k].position == q);
        }
    }
    assert forall|q: IVec3| q != p && table_contains(pre, q) implies table_buffers(post, q)
        == table_buffers(pre, q) by {
        let k = choose|k: int| 0 <= k < pre.len() && (#[trigger] pre[k]).position == q;
        lemma_table_at(pre, k, q);
        assert(post[k].position == q);
        lemma_table_at(post, k, q);
    }
}

/// Appending an entry at a fresh position keeps every other position intact.
proof fn lemma_table_push(pre: Seq<Mesh>, post: Seq<Mesh>, p: IVec3)
    requires
        forall|a: int, b: int|
            0 <= a < b < pre.len() ==> (#[trigger] pre[a]).position != (#[trigger] pre[b]).position,
        forall|k: int| 0 <= k < pre.len() ==> (#[trigger] pre[k]).wf(),
        forall|k: int| 0 <= k < pre.len() ==> (#[trigger] pre[k]).position != p,
        post.len() == pre.len() + 1,
        post[pre.len() as int].position == p,
        post[pre.len() as int].wf(),
        forall|k: int| 0 <= k < pre.len() ==> post[k] == pre[k],
    ensures
        forall|a: int, b: int|
            0 <= a < b < post.len() ==> (#[trigger] post[a]).position != (
            #[trigger] post[b]).position,
        forall|k: int| 0 <= k < post.len() ==> (#[trigger] post[k]).wf(),
        table_contains(post, p),
        table_buffers(post, p) == (post[pre.len() as int].vertices@, post[pre.len() as int].indices@),
        forall|q: IVec3| q != p ==> (table_contains(post, q) <==> table_contains(pre, q)),
        forall|q: IVec3|
            q != p && table_contains(pre, q) ==> table_buffers(post, q) == table_buffers(pre, q),
{
    let n = pre.len() as int;
    assert forall|a: int, b: int| 0 <= a < b < post.len() implies (#[trigger] post[a]).position != (
    #[trigger] post[b]).position by {
        if b < n {
            assert(post[a] == pre[a] && post[b] == pre[b]);
        } else {
            assert(post[a] == pre[a] && post[b].position == p);
        }
    }
    lemma_table_at(post, n, p);
    assert forall|q: IVec3| q != p implies (table_contains(post, q) <==> table_contains(pre, q)) by {
        if table_contains(pre, q) {
            let k = choose|k: int| 0 <= k < pre.len() && (#[trigger] pre[k]).position == q;
            assert(post[k].position == q);
        }
        if table_contains(post, q) {
            let k = choose|k: int| 0 <= k < post.len() && (#[trigger] post[k]).position == q;
            assert(k < n);
            assert(pre[k].position == q);
        }
    }
    assert forall|q: IVec3| q != p && table_contains(pre, q) implies table_buffers(post, q)
        == table_buffers(pre, q) by {
        let k = choose|k: int| 0 <= k < pre.len() && (#[trigger] pre[k]).position == q;
        lemma_table_at(pre, k, q);
        assert(post[k].position == q);
        lemma_table_at(post, k, q);
    }
}

/// The vertex buffer of one chunk is bounded: at most 4 vertices for each of
/// the 6 * SIZE^3 scan cells, and a whole number of quads.
pub proof fn lemma_mesh_vertices_bound(v: Seq<Seq<u16>>, reg: Seq<Block>)
    ensures
        mesh_vertices(v, reg).len() % 4 == 0,
        mesh_vertices(v, reg).len() <= 24 * SIZE_P3 as int,
{
    assert forall|k: int| 0 <= k <= 6 implies mesh_vertices_upto(v, reg, k).len() % 4 == 0
        && mesh_vertices_upto(v, reg, k).len() <= 4 * k * SIZE_P3 as int by {
        lemma_mesh_vertices_upto_bound(v, reg, k);
    }
}

/// Bound and divisibility for the first `k` direction passes.
proof fn lemma_mesh_vertices_upto_bound(v: Seq<Seq<u16>>, reg: Seq<Block>, k: int)
    requires
        0 <= k <= 6,
    ensures
        mesh_vertices_upto(v, reg, k).len() % 4 == 0,
        mesh_vertices_upto(v, reg, k).len() <= 4 * k * SIZE_P3 as int,
    decreases k,
{
    if k > 0 {
        lemma_mesh_vertices_upto_bound(v, reg, k - 1);
        lemma_dir_vertices_len(v, reg, dir_at(k - 1), SIZE_P3 as int);
        lemma_emitted_bound(v, reg, dir_at(k - 1), SIZE_P3 as int);
    }
}

/// At most one face per scan cell.
proof fn lemma_emitted_bound(v: Seq<Seq<u16>>, reg: Seq<Block>, d: Direction, t: int)
    requires
        t >= 0,
    ensures
        0 <= emitted_upto(v, reg, d, t) <= t,
    decreases t,
{
    if t > 0 {
        lemma_emitted_bound(v, reg, d, t - 1);
    }
}

} // verus!
