//! Chunk store: the addressable voxel grid. One entry per chunk position,
//! each holding a fixed-size buffer of 16-bit block ids, plus the 7-chunk
//! neighbor view the mesher reads across chunk boundaries.

use vstd::prelude::*;

use crate::math::IVec3;

verus! {

/// Chunk edge length, in blocks, of the stored representation.
pub const SIZE: usize = 32;
pub const SIZE_I32: i32 = 32;
pub const SIZE_P3: usize = SIZE * SIZE * SIZE;

/// A stored chunk: its grid position and one 16-bit id per block.
#[derive(Debug)]
pub struct Chunk {
    pub position: IVec3,
    pub blocks: Vec<u16>,
}

impl Chunk {
    /// The buffer holds exactly `SIZE_P3` block ids.
    pub open spec fn wf(&self) -> bool {
        self.blocks@.len() == SIZE_P3
    }

    /// A fresh all-air block buffer.
    pub fn empty() -> (b: Vec<u16>)
        ensures
            b@.len() == SIZE_P3,
            forall|j: int| 0 <= j < SIZE_P3 ==> b@[j] == 0,
    {
        let mut data: Vec<u16> = Vec::new();
        while data.len() < SIZE_P3
            invariant
                data@.len() <= SIZE_P3,
                forall|k: int| 0 <= k < data@.len() ==> data@[k] == 0,
            decreases SIZE_P3 - data@.len(),
        {
            data.push(0);
        }
        data
    }

    /// Wrap a block buffer under its position.
    pub fn new(position: IVec3, blocks: Vec<u16>) -> (c: Self)
        requires
            blocks@.len() == SIZE_P3,
        ensures
            c.wf(),
            c.position == position,
            c.blocks@ == blocks@,
    {
        Chunk { position, blocks }
    }

    /// Linear block index of a local position, in XZY order.
    pub fn block_index(pos: IVec3) -> (r: usize)
        requires
            0 <= pos.x < SIZE_I32,
            0 <= pos.y < SIZE_I32,
            0 <= pos.z < SIZE_I32,
        ensures
            r == pos.x + pos.z * SIZE_I32 + pos.y * (SIZE_I32 * SIZE_I32),
            r < SIZE_P3,
    {
        let x = pos.x % SIZE_I32;
        let z = pos.z * SIZE_I32;
        let y = pos.y * (SIZE_I32 * SIZE_I32);
        (x + y + z) as usize
    }

    /// Read the id at a linear index; the unpacked twin of the 12-bit codec.
    pub fn get_block(&self, index: usize) -> (r: u16)
        requires
            self.wf(),
            index < SIZE_P3,
        ensures
            r == self.blocks@[index as int],
    {
        self.blocks[index]
    }

    /// Store an id at a linear index, leaving every other index unchanged.
    pub fn set_block(&mut self, index: usize, value: u16)
        requires
            old(self).wf(),
            index < SIZE_P3,
        ensures
            final(self).wf(),
            final(self).position == old(self).position,
            final(self).blocks@ == old(self).blocks@.update(index as int, value),
    {
        self.blocks.set(index, value);
    }
}

/// Whether some entry of `s` sits at position `p`.
pub open spec fn area_contains(s: Seq<Chunk>, p: IVec3) -> bool {
    exists|i: int| 0 <= i < s.len() && (#[trigger] s[i]).position == p
}

/// The block buffer of the entry at position `p` (meaningful when unique).
pub open spec fn area_blocks(s: Seq<Chunk>, p: IVec3) -> Seq<u16> {
    let i = choose|i: int| 0 <= i < s.len() && (#[trigger] s[i]).position == p;
    s[i].blocks@
}

/// The world data held in memory: chunks addressed by grid position.
#[derive(Debug)]
pub struct LoadArea {
    chunks: Vec<Chunk>,
}

impl LoadArea {
    /// The stored entries, in insertion order.
    pub closed spec fn entries(&self) -> Seq<Chunk> {
        self.chunks@
    }

    /// Positions are unique and every chunk buffer is full-size.
    pub open spec fn wf(&self) -> bool {
        &&& forall|i: int, j: int|
            0 <= i < j < self.entries().len() ==> (#[trigger] self.entries()[i]).position != (
            #[trigger] self.entries()[j]).position
        &&& forall|i: int|
            0 <= i < self.entries().len() ==> (#[trigger] self.entries()[i]).wf()
    }

    /// Whether a chunk is stored at `p`.
    pub open spec fn spec_contains(&self, p: IVec3) -> bool {
        area_contains(self.entries(), p)
    }

    /// The blocks stored at `p`.
    pub open spec fn spec_blocks(&self, p: IVec3) -> Seq<u16> {
        area_blocks(self.entries(), p)
    }

    /// Fresh empty store.
    pub fn new() -> (a: Self)
        ensures
            a.wf(),
            a.entries().len() == 0,
            forall|p: IVec3| !a.spec_contains(p),
    {
        LoadArea { chunks: Vec::new() }
    }

    /// Store `chunk` under `position`, replacing any previous entry there and
    /// leaving every other position untouched.
    pub fn insert(&mut self, position: IVec3, chunk: Chunk)
        requires
            old(self).wf(),
            chunk.wf(),
            chunk.position == position,
        ensures
            final(self).wf(),
            final(self).spec_contains(position),
            final(self).spec_blocks(position) == chunk.blocks@,
            forall|q: IVec3|
                q != position ==> (final(self).spec_contains(q) <==> old(self).spec_contains(q)),
            forall|q: IVec3|
                q != position && old(self).spec_contains(q) ==> final(self).spec_blocks(q) == old(
                    self,
                ).spec_blocks(q),
    {
        let ghost pre = self.chunks@;
        let mut i: usize = 0;
        let mut found: bool = false;
        while i < self.chunks.len() && !found
            invariant
                0 <= i <= pre.len(),
                self.chunks@ == pre,
                pre == old(self).entries(),
                old(self).wf(),
                found ==> i < pre.len() && pre[i as int].position == position,
                !found ==> forall|k: int| 0 <= k < i ==> (#[trigger] pre[k]).position != position,
            decreases pre.len() - i + if found { 0int } else { 1int },
        {
            if self.chunks[i].position == position {
                found = true;
            } else {
                i = i + 1;
            }
        }
        if found {
            self.chunks.set(i, chunk);
            proof {
                lemma_area_replace(pre, self.chunks@, i as int, position);
            }
        } else {
            self.chunks.push(chunk);
            proof {
                lemma_area_push(pre, self.chunks@, position);
            }
        }
    }

    /// Look a position up; answers exactly when a chunk is stored there.
    pub fn get(&self, position: IVec3) -> (r: Option<&Chunk>)
        requires
            self.wf(),
        ensures
            r is Some <==> self.spec_contains(position),
            r matches Some(c) ==> {
                &&& c.wf()
                &&& c.position == position
                &&& c.blocks@ == self.spec_blocks(position)
            },
    {
        let mut i: usize = 0;
        while i < self.chunks.len()
            invariant
                self.wf(),
                0 <= i <= self.entries().len(),
                forall|k: int| 0 <= k < i ==> (#[trigger] self.entries()[k]).position != position,
            decreases self.entries().len() - i,
        {
            if self.chunks[i].position == position {
                proof {
                    lemma_area_at(self.entries(), i as int, position);
                }
                return Some(&self.chunks[i]);
            }
            i = i + 1;
        }
        None
    }

    /// Drop the entry at `position`, if any.
    pub fn remove(&mut self, position: IVec3)
        requires
            old(self).wf(),
        ensures
            final(self).wf(),
            !final(self).spec_contains(position),
            forall|q: IVec3|
                q != position ==> (final(self).spec_contains(q) <==> old(self).spec_contains(q)),
            forall|q: IVec3|
                q != position && old(self).spec_contains(q) ==> final(self).spec_blocks(q) == old(
                    self,
                ).spec_blocks(q),
    {
        let ghost pre = self.chunks@;
        let mut i: usize = 0;
        while i < self.chunks.len()
            invariant
                self.chunks@ == pre,
                pre == old(self).entries(),
                old(self).wf(),
                0 <= i <= pre.len(),
                forall|k: int| 0 <= k < i ==> (#[trigger] pre[k]).position != position,
            decreases pre.len() - i,
        {
            if self.chunks[i].position == position {
                self.chunks.remove(i);
                proof {
                    lemma_area_remove(pre, self.chunks@, i as int, position);
                }
                return ;
            }
            i = i + 1;
        }
    }
}

/// The seven neighbour offsets gathered for meshing: the chunk itself, then
/// down, up, left, right, forward, back.
pub open spec fn offset(n: int) -> (int, int, int) {
    if n == 0 {
        (0, 0, 0)
    } else if n == 1 {
        (0, -1, 0)
    } else if n == 2 {
        (0, 1, 0)
    } else if n == 3 {
        (-1, 0, 0)
    } else if n == 4 {
        (1, 0, 0)
    } else if n == 5 {
        (0, 0, -1)
    } else {
        (0, 0, 1)
    }
}

/// Position of the `n`-th neighbour of `p`.
pub open spec fn offset_pos(p: IVec3, n: int) -> IVec3 {
    IVec3 {
        x: (p.x + offset(n).0) as i32,
        y: (p.y + offset(n).1) as i32,
        z: (p.z + offset(n).2) as i32,
    }
}

/// Index of a chunk-grid offset among the seven gathered neighbours, or -1.
pub open spec fn offset_index_of(cx: int, cy: int, cz: int) -> int {
    if cx == 0 && cy == 0 && cz == 0 {
        0
    } else if cx == 0 && cy == -1 && cz == 0 {
        1
    } else if cx == 0 && cy == 1 && cz == 0 {
        2
    } else if cx == -1 && cy == 0 && cz == 0 {
        3
    } else if cx == 1 && cy == 0 && cz == 0 {
        4
    } else if cx == 0 && cy == 0 && cz == -1 {
        5
    } else if cx == 0 && cy == 0 && cz == 1 {
        6
    } else {
        -1
    }
}

/// A local coordinate that falls inside the center chunk.
pub open spec fn in_core(c: int) -> bool {
    0 <= c < SIZE as int
}

/// Positions the neighbour view can resolve: within one chunk width of the
/// center chunk, and off the center along at most one axis, so that the owner
/// is one of the seven gathered chunks.
pub open spec fn valid_sample_pos(x: int, y: int, z: int) -> bool {
    &&& -(SIZE as int) <= x < 2 * (SIZE as int)
    &&& -(SIZE as int) <= y < 2 * (SIZE as int)
    &&& -(SIZE as int) <= z < 2 * (SIZE as int)
    &&& {
        ||| in_core(x) && in_core(y)
        ||| in_core(y) && in_core(z)
        ||| in_core(x) && in_core(z)
    }
}

/// The block a neighbour view holds at a center-relative position: the owning
/// chunk is resolved by dividing against `SIZE`, the block within it by the
/// XZY linear index of the remainder.
pub open spec fn refs_block(v: Seq<Seq<u16>>, x: int, y: int, z: int) -> u16 {
    let s = SIZE as int;
    let sx = x + s;
    let sy = y + s;
    let sz = z + s;
    let ci = offset_index_of(sx / s - 1, sy / s - 1, sz / s - 1);
    let bi = sx % s + (sz % s) * s + (sy % s) * (s * s);
    v[ci][bi]
}

/// At a valid sample position the resolved chunk and block indices are in
/// range.
pub proof fn lemma_refs_block_range(x: int, y: int, z: int)
    requires
        valid_sample_pos(x, y, z),
    ensures
        0 <= offset_index_of((x + SIZE as int) / (SIZE as int) - 1, (y + SIZE as int) / (
        SIZE as int) - 1, (z + SIZE as int) / (SIZE as int) - 1) < 7,
        0 <= (x + SIZE as int) % (SIZE as int) + ((z + SIZE as int) % (SIZE as int)) * (SIZE as int)
            + ((y + SIZE as int) % (SIZE as int)) * ((SIZE as int) * (SIZE as int)) < SIZE_P3 as int,
{
    let s = SIZE as int;
    lemma_cell_coord(x);
    lemma_cell_coord(y);
    lemma_cell_coord(z);
}

/// Division facts for one sample coordinate: the owning cell is -1, 0 or 1,
/// it is 0 exactly on the core range, and the remainder is a local coordinate.
proof fn lemma_cell_coord(c: int)
    requires
        -(SIZE as int) <= c < 2 * (SIZE as int),
    ensures
        in_core(c) ==> (c + SIZE as int) / (SIZE as int) - 1 == 0,
        -(SIZE as int) <= c < 0 ==> (c + SIZE as int) / (SIZE as int) - 1 == -1,
        SIZE as int <= c ==> (c + SIZE as int) / (SIZE as int) - 1 == 1,
        0 <= (c + SIZE as int) % (SIZE as int) < SIZE as int,
{
    let s = SIZE as int;
    if c < 0 {
        vstd::arithmetic::div_mod::lemma_fundamental_div_mod_converse(c + s, s, 0, c + s);
    } else if c < s {
        vstd::arithmetic::div_mod::lemma_fundamental_div_mod_converse(c + s, s, 1, c);
    } else {
        vstd::arithmetic::div_mod::lemma_fundamental_div_mod_converse(c + s, s, 2, c - s);
    }
}

/// The seven chunks around a center position, gathered so meshing can sample
/// one block past every face of the center chunk. Current; Down; Up; Left;
/// Right; Forward; Back.
pub struct ChunksRefs<'a> {
    chunks: Vec<&'a Chunk>,
}

impl<'a> View for ChunksRefs<'a> {
    type V = Seq<Seq<u16>>;

    closed spec fn view(&self) -> Seq<Seq<u16>> {
        Seq::new(self.chunks@.len() as nat, |i: int| self.chunks@[i].blocks@)
    }
}

impl<'a> ChunksRefs<'a> {
    /// Seven gathered chunks, each buffer full-size.
    pub open spec fn wf(&self) -> bool {
        &&& self@.len() == 7
        &&& forall|n: int| 0 <= n < 7 ==> (#[trigger] self@[n]).len() == SIZE_P3
    }

    /// Gather the chunk at `pos` and its six face neighbours from the store.
    /// Succeeds exactly when all seven positions are present; one absent
    /// neighbour fails the whole assembly.
    pub fn new(area: &'a LoadArea, pos: IVec3) -> (r: Option<ChunksRefs<'a>>)
        requires
            area.wf(),
            i32::MIN < pos.x < i32::MAX,
            i32::MIN < pos.y < i32::MAX,
            i32::MIN < pos.z < i32::MAX,
        ensures
            r is Some <==> (forall|n: int|
                0 <= n < 7 ==> area.spec_contains(#[trigger] offset_pos(pos, n))),
            r matches Some(refs) ==> {
                &&& refs.wf()
                &&& forall|n: int|
                    0 <= n < 7 ==> #[trigger] refs@[n] == area.spec_blocks(offset_pos(pos, n))
            },
    {
        let mut chunks: Vec<&'a Chunk> = Vec::new();
        let mut n: usize = 0;
        while n < 7
            invariant
                area.wf(),
                i32::MIN < pos.x < i32::MAX,
                i32::MIN < pos.y < i32::MAX,
                i32::MIN < pos.z < i32::MAX,
                n <= 7,
                chunks@.len() == n,
                forall|k: int| 0 <= k < n ==> area.spec_contains(#[trigger] offset_pos(pos, k)),
                forall|k: int|
                    0 <= k < n ==> (#[trigger] chunks@[k]).blocks@ == area.spec_blocks(
                        offset_pos(pos, k),
                    ) && chunks@[k].wf(),
            decreases 7 - n,
        {
            let off = Self::offset_at(n);
            let p = pos.plus(off);
            proof {
                assert(p == offset_pos(pos, n as int));
            }
            match area.get(p) {
                Some(c) => {
                    chunks.push(c);
                },
                None => {
                    return None;
                },
            }
            n = n + 1;
        }
        let refs = ChunksRefs { chunks };
        proof {
            assert forall|k: int| 0 <= k < 7 implies #[trigger] refs@[k] == area.spec_blocks(
                offset_pos(pos, k),
            ) && refs@[k].len() == SIZE_P3 by {
                assert(refs@[k] == refs.chunks@[k].blocks@);
            }
        }
        Some(refs)
    }

    /// The `n`-th neighbour offset.
    fn offset_at(n: usize) -> (v: IVec3)
        requires
            n < 7,
        ensures
            v.x == offset(n as int).0,
            v.y == offset(n as int).1,
            v.z == offset(n as int).2,
    {
        if n == 0 {
            IVec3::new(0, 0, 0)
        } else if n == 1 {
            IVec3::new(0, -1, 0)
        } else if n == 2 {
            IVec3::new(0, 1, 0)
        } else if n == 3 {
            IVec3::new(-1, 0, 0)
        } else if n == 4 {
            IVec3::new(1, 0, 0)
        } else if n == 5 {
            IVec3::new(0, 0, -1)
        } else {
            IVec3::new(0, 0, 1)
        }
    }

    /// Index of a chunk-grid offset among the gathered seven.
    fn offset_index(v: IVec3) -> (r: usize)
        requires
            offset_index_of(v.x as int, v.y as int, v.z as int) >= 0,
        ensures
            r == offset_index_of(v.x as int, v.y as int, v.z as int),
    {
        if v.x == 0 && v.y == 0 && v.z == 0 {
            0
        } else if v.x == 0 && v.y == -1 && v.z == 0 {
            1
        } else if v.x == 0 && v.y == 1 && v.z == 0 {
            2
        } else if v.x == -1 && v.y == 0 && v.z == 0 {
            3
        } else if v.x == 1 && v.y == 0 && v.z == 0 {
            4
        } else if v.x == 0 && v.y == 0 && v.z == -1 {
            5
        } else {
            6
        }
    }

    /// Which of the seven chunks owns the shifted coordinates.
    fn chunk_index(x: usize, y: usize, z: usize) -> (r: usize)
        requires
            valid_sample_pos(x - SIZE as int, y - SIZE as int, z - SIZE as int),
        ensures
            r == offset_index_of(
                (x as int) / (SIZE as int) - 1,
                (y as int) / (SIZE as int) - 1,
                (z as int) / (SIZE as int) - 1,
            ),
            0 <= r < 7,
    {
        proof {
            lemma_cell_coord(x - SIZE as int);
            lemma_cell_coord(y - SIZE as int);
            lemma_cell_coord(z - SIZE as int);
        }
        let cx = (x / SIZE) as i32;
        let cy = (y / SIZE) as i32;
        let cz = (z / SIZE) as i32;
        Self::offset_index(IVec3::new(cx - 1, cy - 1, cz - 1))
    }

    /// Linear block index of the shifted coordinates within their chunk.
    fn block_index(x: usize, y: usize, z: usize) -> (r: usize)
        requires
            x < 3 * SIZE,
            y < 3 * SIZE,
            z < 3 * SIZE,
        ensures
            r == (x as int) % (SIZE as int) + ((z as int) % (SIZE as int)) * (SIZE as int) + ((
            y as int) % (SIZE as int)) * ((SIZE as int) * (SIZE as int)),
            r < SIZE_P3,
    {
        let bx = (x % SIZE) as i32;
        let by = (y % SIZE) as i32;
        let bz = (z % SIZE) as i32;
        Chunk::block_index(IVec3::new(bx, by, bz))
    }

    /// Read a block at a center-relative position, resolving which of the
    /// seven chunks owns it and the index within that chunk.
    pub fn get_block(&self, pos: IVec3) -> (r: u16)
        requires
            self.wf(),
            valid_sample_pos(pos.x as int, pos.y as int, pos.z as int),
        ensures
            r == refs_block(self@, pos.x as int, pos.y as int, pos.z as int),
    {
        proof {
            lemma_refs_block_range(pos.x as int, pos.y as int, pos.z as int);
        }
        let x = (pos.x + SIZE_I32) as usize;
        let y = (pos.y + SIZE_I32) as usize;
        let z = (pos.z + SIZE_I32) as usize;
        let chunk = Self::chunk_index(x, y, z);
        let block = Self::block_index(x, y, z);
        proof {
            assert(self.chunks@.len() == self@.len());
            assert(self@[chunk as int] == self.chunks@[chunk as int].blocks@);
        }
        self.chunks[chunk].blocks[block]
    }
}

/// In a store with unique positions, the entry found at index `i` is the one
/// every position-keyed lookup sees.
proof fn lemma_area_at(s: Seq<Chunk>, i: int, p: IVec3)
    requires
        forall|a: int, b: int|
            0 <= a < b < s.len() ==> (#[trigger] s[a]).position != (#[trigger] s[b]).position,
        0 <= i < s.len(),
        s[i].position == p,
    ensures
        area_contains(s, p),
        area_blocks(s, p) == s[i].blocks@,
{
    assert(area_contains(s, p));
    let j = choose|j: int| 0 <= j < s.len() && (#[trigger] s[j]).position == p;
    assert(j == i);
}

/// Replacing the entry that holds `p` keeps every other position intact.
proof fn lemma_area_replace(pre: Seq<Chunk>, post: Seq<Chunk>, i: int, p: IVec3)
    requires
        forall|a: int, b: int|
            0 <= a < b < pre.len() ==> (#[trigger] pre[a]).position != (#[trigger] pre[b]).position,
        forall|k: int| 0 <= k < pre.len() ==> (#[trigger] pre[k]).wf(),
        0 <= i < pre.len(),
        pre[i].position == p,
        post.len() == pre.len(),
        post[i].position == p,
        post[i].wf(),
        forall|k: int| 0 <= k < pre.len() && k != i ==> post[k] == pre[k],
    ensures
        forall|a: int, b: int|
            0 <= a < b < post.len() ==> (#[trigger] post[a]).position != (
            #[trigger] post[b]).position,
        forall|k: int| 0 <= k < post.len() ==> (#[trigger] post[k]).wf(),
        area_contains(post, p),
        area_blocks(post, p) == post[i].blocks@,
        forall|q: IVec3| q != p ==> (area_contains(post, q) <==> area_contains(pre, q)),
        forall|q: IVec3|
            q != p && area_contains(pre, q) ==> area_blocks(post, q) == area_blocks(pre, q),
{
    assert forall|a: int, b: int| 0 <= a < b < post.len() implies (#[trigger] post[a]).position != (
    #[trigger] post[b]).position by {
        assert(post[a].position == pre[a].position);
        assert(post[b].position == pre[b].position);
    }
    lemma_area_at(post, i, p);
    assert forall|q: IVec3| q != p implies (area_contains(post, q) <==> area_contains(pre, q)) by {
        if area_contains(pre, q) {
            let k = choose|k: int| 0 <= k < pre.len() && (#[trigger] pre[k]).position == q;
            assert(post[k].position == q);
        }
        if area_contains(post, q) {
            let k = choose|k: int| 0 <= k < post.len() && (#[trigger] post[k]).position == q;
            assert(pre[k].position == q);
        }
    }
    assert forall|q: IVec3| q != p && area_contains(pre, q) implies area_blocks(post, q)
        == area_blocks(pre, q) by {
        let k = choose|k: int| 0 <= k < pre.len() && (#[trigger] pre[k]).position == q;
        lemma_area_at(pre, k, q);
        assert(post[k].position == q);
        lemma_area_at(post, k, q);
    }
}

/// Appending an entry at a fresh position keeps every other position intact.
proof fn lemma_area_push(pre: Seq<Chunk>, post: Seq<Chunk>, p: IVec3)
    requires
        forall|a: int, b: int|
            0 <= a < b < pre.len() ==> (#[trigger] pre[a]).position != (#[trigger] pre[b]).position,
        forall|k: int| 0 <= k < pre.len() ==> (#[trigger] pre[k]).wf(),
        forall|k: int| 0 <= k < pre.len() ==> (#[trigger] pre[k]).position != p,
        post.len() == pre.len() + 1,
        post[pre.len() as int].position == p,
        post[pre.len() as int].wf(),
        forall|k: int| 0 <= k < pre.len() ==> post[k] == pre[k],
    ensures
        forall|a: int, b: int|
            0 <= a < b < post.len() ==> (#[trigger] post[a]).position != (
            #[trigger] post[b]).position,
        forall|k: int| 0 <= k < post.len() ==> (#[trigger] post[k]).wf(),
        area_contains(post, p),
        area_blocks(post, p) == post[pre.len() as int].blocks@,
        forall|q: IVec3| q != p ==> (area_contains(post, q) <==> area_contains(pre, q)),
        forall|q: IVec3|
            q != p && area_contains(pre, q) ==> area_blocks(post, q) == area_blocks(pre, q),
{
    let n = pre.len() as int;
    assert forall|a: int, b: int| 0 <= a < b < post.len() implies (#[trigger] post[a]).position != (
    #[trigger] post[b]).position by {
        if b < n {
            assert(post[a] == pre[a] && post[b] == pre[b]);
        } else {
            assert(post[a] == pre[a] && post[b].position == p);
        }
    }
    lemma_area_at(post, n, p);
    assert forall|q: IVec3| q != p implies (area_contains(post, q) <==> area_contains(pre, q)) by {
        if area_contains(pre, q) {
            let k = choose|k: int| 0 <= k < pre.len() && (#[trigger] pre[k]).position == q;
            assert(post[k].position == q);
        }
        if area_contains(post, q) {
            let k = choose|k: int| 0 <= k < post.len() && (#[trigger] post[k]).position == q;
            assert(k < n);
            assert(pre[k].position == q);
        }
    }
    assert forall|q: IVec3| q != p && area_contains(pre, q) implies area_blocks(post, q)
        == area_blocks(pre, q) by {
        let k = choose|k: int| 0 <= k < pre.len() && (#[trigger] pre[k]).position == q;
        lemma_area_at(pre, k, q);
        assert(post[k].position == q);
        lemma_area_at(post, k, q);
    }
}

/// Removing the entry that holds `p` keeps every other position intact.
proof fn lemma_area_remove(pre: Seq<Chunk>, post: Seq<Chunk>, i: int, p: IVec3)
    requires
        forall|a: int, b: int|
            0 <= a < b < pre.len() ==> (#[trigger] pre[a]).position != (#[trigger] pre[b]).position,
        forall|k: int| 0 <= k < pre.len() ==> (#[trigger] pre[k]).wf(),
        0 <= i < pre.len(),
        pre[i].position == p,
        post == pre.remove(i),
    ensures
        forall|a: int, b: int|
            0 <= a < b < post.len() ==> (#[trigger] post[a]).position != (
            #[trigger] post[b]).position,
        forall|k: int| 0 <= k < post.len() ==> (#[trigger] post[k]).wf(),
        !area_contains(post, p),
        forall|q: IVec3| q != p ==> (area_contains(post, q) <==> area_contains(pre, q)),
        forall|q: IVec3|
            q != p && area_contains(pre, q) ==> area_blocks(post, q) == area_blocks(pre, q),
{
    assert forall|k: int| 0 <= k < post.len() implies (#[trigger] post[k]).position != p && post[k].wf() by {
        if k < i {
            assert(post[k] == pre[k]);
        } else {
            assert(post[k] == pre[k + 1]);
        }
    }
    assert forall|q: IVec3| q != p implies (area_contains(post, q) <==> area_contains(pre, q)) by {
        if area_contains(pre, q) {
            let k = choose|k: int| 0 <= k < pre.len() && (#[trigger] pre[k]).position == q;
            if k < i {
                assert(post[k].position == q);
            } else {
                assert(post[k - 1].position == q);
            }
        }
        if area_contains(post, q) {
            let k = choose|k: int| 0 <= k < post.len() && (#[trigger] post[k]).position == q;
            if k < i {
                assert(pre[k].position == q);
            } else {
                assert(pre[k + 1].position == q);
            }
        }
    }
    assert forall|q: IVec3| q != p && area_contains(pre, q) implies area_blocks(post, q)
        == area_blocks(pre, q) by {
        let k = choose|k: int| 0 <= k < pre.len() && (#[trigger] pre[k]).position == q;
        lemma_area_at(pre, k, q);
        if k < i {
            assert(post[k].position == q);
            lemma_area_at(post, k, q);
        } else {
            assert(k > i);
            assert(post[k - 1] == pre[k]);
            lemma_area_at(post, k - 1, q);
        }
    }
}

} // verus!
