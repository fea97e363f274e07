//! Densely bit-packed voxel buffer: 12 bits per block id, 1.5 bytes each.
//! An even block index occupies a whole byte plus the top nibble of the next
//! byte; an odd index occupies the bottom nibble of its first byte plus the
//! whole next byte. The packing is bit-exact, so buffers stay compatible on
//! disk and on the wire.

use vstd::arithmetic::div_mod::lemma_fundamental_div_mod_converse;
use vstd::pervasive::VecAdditionalExecFns;
use vstd::prelude::*;

use crate::math::IVec3;

verus! {

/// Chunk edge length, in blocks, of the packed representation.
pub const SIZE: usize = 16;
pub const SIZE_I32: i32 = 16;
pub const SIZE_P3: usize = SIZE * SIZE * SIZE;

/// Block size in bits, and byte conversions.
pub const BLOCK_SIZE: usize = 12;
pub const BYTE: usize = 8;

/// Bytes held by one packed chunk buffer.
pub const BUF_SIZE: usize = SIZE_P3 * BLOCK_SIZE / BYTE;

/// The 12-bit block id stored at `index` in a packed byte buffer, as the
/// `get_block` extraction computes it.
pub open spec fn stored_block(bytes: Seq<u8>, index: int) -> u16 {
    if index % 2 == 0 {
        let i = 3 * (index / 2);
        ((bytes[i] as u16) << 4) | ((bytes[i + 1] >> 4) as u16)
    } else {
        let i = 3 * (index / 2) + 1;
        (((bytes[i] << 4) as u16) << 4) | (bytes[i + 1] as u16)
    }
}

/// The bytes of a packed buffer after writing the 12-bit id `value` at
/// `index`, as the `set_block` insertion computes them: the entry's own bits
/// are replaced and the neighbouring nibble that shares a byte with it is
/// preserved.
pub open spec fn packed_update(bytes: Seq<u8>, index: int, value: u16) -> Seq<u8> {
    if index % 2 == 0 {
        let i = 3 * (index / 2);
        bytes.update(i, (value >> 4) as u8).update(
            i + 1,
            (bytes[i + 1] & 0b0000_1111) | (((value & 0b1111) as u8) << 4),
        )
    } else {
        let i = 3 * (index / 2) + 1;
        bytes.update(i, (bytes[i] & 0b1111_0000) | ((value >> 8) as u8)).update(
            i + 1,
            (value & 0b1111_1111) as u8,
        )
    }
}

/// Law (packing round-trip): for every block id below 2^12 and every valid
/// index, writing the id into a packed buffer and reading that index back
/// returns the id, and the write never perturbs any other index.
pub proof fn lemma_pack_round_trip(bytes: Seq<u8>, index: int, value: u16)
    requires
        bytes.len() == BUF_SIZE,
        0 <= index < SIZE_P3,
        value < 4096,
    ensures
        stored_block(packed_update(bytes, index, value), index) == value,
        forall|j: int|
            0 <= j < SIZE_P3 && j != index ==> stored_block(packed_update(bytes, index, value), j)
                == stored_block(bytes, j),
{
    if index % 2 == 0 {
        lemma_set_even(bytes, packed_update(bytes, index, value), index, value, bytes[3 * (index
            / 2) + 1]);
    } else {
        lemma_set_odd(bytes, packed_update(bytes, index, value), index, value, bytes[3 * (index
            / 2) + 1]);
    }
}

/// A chunk's voxel data, packed 12 bits per block.
#[derive(Debug, Clone)]
pub struct RawChunk(Vec<u8>);

impl RawChunk {
    /// The raw bytes of the buffer.
    pub closed spec fn bytes(&self) -> Seq<u8> {
        self.0@
    }

    /// The buffer holds exactly `SIZE_P3` packed 12-bit entries.
    pub open spec fn wf(&self) -> bool {
        self.bytes().len() == BUF_SIZE
    }

    /// The block id stored at a linear block index.
    pub open spec fn block_at(&self, index: int) -> u16 {
        stored_block(self.bytes(), index)
    }

    /// New all-air chunk: every packed entry is 0.
    pub fn empty() -> (c: Self)
        ensures
            c.wf(),
            forall|j: int| 0 <= j < SIZE_P3 ==> c.block_at(j) == 0,
    {
        let mut data: Vec<u8> = Vec::new();
        while data.len() < BUF_SIZE
            invariant
                data@.len() <= BUF_SIZE,
                forall|k: int| 0 <= k < data@.len() ==> data@[k] == 0,
            decreases BUF_SIZE - data@.len(),
        {
            data.push(0);
        }
        let c = RawChunk(data);
        proof {
            assert forall|j: int| 0 <= j < SIZE_P3 implies c.block_at(j) == 0 by {
                lemma_index_byte_offset(j);
                if j % 2 == 0 {
                    assert(((0u8 as u16) << 4) | ((0u8 >> 4) as u16) == 0) by (bit_vector);
                } else {
                    assert((((0u8 << 4) as u16) << 4) | (0u8 as u16) == 0) by (bit_vector);
                }
            }
        }
        c
    }

    /// Extract the 12-bit id at `index`, straddling byte boundaries according
    /// to the parity of the index.
    pub fn get_block(&self, index: usize) -> (r: u16)
        requires
            self.wf(),
            index < SIZE_P3,
        ensures
            r == self.block_at(index as int),
    {
        let i = index * BLOCK_SIZE / BYTE;
        proof {
            lemma_block_byte_offset(index);
        }
        let (a, b) = if index % 2 == 0 {
            // First byte whole, then the top nibble of the second:
            // 0110_0001 1001_0010 1110_1000 => 0110_0001 and 1001
            (self.0[i] as u16, (self.0[i + 1] >> 4) as u16)
        } else {
            // Bottom nibble of the first byte, then the second byte whole:
            // 0110_0001 1001_0010 1110_1000 => 0010 and 1110_1000
            ((self.0[i] << 4) as u16, self.0[i + 1] as u16)
        };
        a << 4 | b
    }

    /// Insert a 12-bit id at `index`, leaving every other packed entry as it
    /// was; the neighbouring nibble that shares a byte with the entry is
    /// preserved.
    pub fn set_block(&mut self, index: usize, value: u16)
        requires
            old(self).wf(),
            index < SIZE_P3,
            value < 4096,
        ensures
            final(self).wf(),
            final(self).bytes() == packed_update(old(self).bytes(), index as int, value),
            final(self).block_at(index as int) == value,
            forall|j: int|
                0 <= j < SIZE_P3 && j != index ==> final(self).block_at(j) == old(self).block_at(
                    j,
                ),
    {
        let i = index * BLOCK_SIZE / BYTE;
        proof {
            lemma_block_byte_offset(index);
        }
        if index % 2 == 0 {
            // 0000_0101_1100_0011 => 0101_1100 and 0011
            let (a, b) = ((value >> 4) as u8, (value & 0b1111) as u8);
            let prev = self.0[i + 1];
            self.0.set(i, a);
            self.0.set(i + 1, (prev & 0b0000_1111) | (b << 4));
            proof {
                lemma_set_even(old(self).bytes(), self.bytes(), index as int, value, prev);
            }
        } else {
            // 0000_0101_1100_0011 => 0101 and 1100_0011
            let (a, b) = ((value >> 8) as u8, (value & 0b1111_1111) as u8);
            let prev = self.0[i];
            self.0.set(i, (prev & 0b1111_0000) | a);
            self.0.set(i + 1, b);
            proof {
                lemma_set_odd(old(self).bytes(), self.bytes(), index as int, value, prev);
            }
        }
    }

    /// Linear block index of a local position, in XZY order.
    pub fn block_index(pos: IVec3) -> (r: usize)
        requires
            0 <= pos.x < SIZE_I32,
            0 <= pos.y < SIZE_I32,
            0 <= pos.z < SIZE_I32,
        ensures
            r == pos.x + pos.z * SIZE_I32 + pos.y * (SIZE_I32 * SIZE_I32),
            r < SIZE_P3,
    {
        let x = pos.x % SIZE_I32;
        let z = pos.z * SIZE_I32;
        let y = pos.y * (SIZE_I32 * SIZE_I32);
        (x + y + z) as usize
    }
}

/// Byte offset of the packed entry `index`: three bytes for every two
/// entries, plus one when the index is odd.
proof fn lemma_block_byte_offset(index: usize)
    requires
        index < SIZE_P3,
    ensures
        (index as int) * (BLOCK_SIZE as int) / (BYTE as int) == 3 * ((index as int) / 2) + (
        index as int) % 2,
{
    lemma_index_byte_offset(index as int);
    assert((index as int) * (BLOCK_SIZE as int) == 12 * (index as int));
}

/// The same byte-offset fact at the spec level.
proof fn lemma_index_byte_offset(index: int)
    requires
        0 <= index,
    ensures
        (12 * index) / 8 == 3 * (index / 2) + index % 2,
{
    let q = index / 2;
    let r = index % 2;
    vstd::arithmetic::div_mod::lemma_fundamental_div_mod(index, 2);
    if r == 0 {
        lemma_fundamental_div_mod_converse(12 * index, 8, 3 * q, 0);
    } else {
        lemma_fundamental_div_mod_converse(12 * index, 8, 3 * q + 1, 4);
    }
}

/// Writing an even entry changes only its own 12 bits: the written entry
/// reads back, and every other entry is untouched.
proof fn lemma_set_even(ob: Seq<u8>, nb: Seq<u8>, index: int, value: u16, prev: u8)
    requires
        0 <= index < SIZE_P3,
        index % 2 == 0,
        value < 4096,
        ob.len() == BUF_SIZE,
        prev == ob[3 * (index / 2) + 1],
        nb == ob.update(3 * (index / 2), (value >> 4) as u8).update(
            3 * (index / 2) + 1,
            (prev & 0b0000_1111) | (((value & 0b1111) as u8) << 4),
        ),
    ensures
        nb.len() == BUF_SIZE,
        stored_block(nb, index) == value,
        forall|j: int| 0 <= j < SIZE_P3 && j != index ==> stored_block(nb, j) == stored_block(
            ob,
            j,
        ),
{
    let m = index / 2;
    let b0 = nb[3 * m];
    let b1 = nb[3 * m + 1];
    assert((((b0 as u16) << 4) | ((b1 >> 4) as u16)) == value) by (bit_vector)
        requires
            b0 == (value >> 4) as u8,
            b1 == (prev & 0b0000_1111) | (((value & 0b1111) as u8) << 4),
            value < 4096,
    ;
    assert forall|j: int| 0 <= j < SIZE_P3 && j != index implies stored_block(nb, j)
        == stored_block(ob, j) by {
        let k = j / 2;
        vstd::arithmetic::div_mod::lemma_fundamental_div_mod(j, 2);
        vstd::arithmetic::div_mod::lemma_fundamental_div_mod(index, 2);
        if j % 2 == 0 {
            // entry j lives at bytes 3k and 3k + 1, both untouched
            assert(k != m);
            assert(nb[3 * k] == ob[3 * k] && nb[3 * k + 1] == ob[3 * k + 1]);
        } else if k == m {
            // the odd neighbour shares byte 3m + 1; its bottom nibble is kept
            let n1 = nb[3 * m + 1];
            assert((n1 << 4) == (prev << 4)) by (bit_vector)
                requires
                    n1 == (prev & 0b0000_1111) | (((value & 0b1111) as u8) << 4),
            ;
            assert(nb[3 * k + 2] == ob[3 * k + 2]);
        } else {
            assert(nb[3 * k + 1] == ob[3 * k + 1] && nb[3 * k + 2] == ob[3 * k + 2]);
        }
    }
}

/// Writing an odd entry changes only its own 12 bits: the written entry reads
/// back, and every other entry is untouched.
proof fn lemma_set_odd(ob: Seq<u8>, nb: Seq<u8>, index: int, value: u16, prev: u8)
    requires
        0 <= index < SIZE_P3,
        index % 2 == 1,
        value < 4096,
        ob.len() == BUF_SIZE,
        prev == ob[3 * (index / 2) + 1],
        nb == ob.update(3 * (index / 2) + 1, (prev & 0b1111_0000) | ((value >> 8) as u8)).update(
            3 * (index / 2) + 2,
            (value & 0b1111_1111) as u8,
        ),
    ensures
        nb.len() == BUF_SIZE,
        stored_block(nb, index) == value,
        forall|j: int| 0 <= j < SIZE_P3 && j != index ==> stored_block(nb, j) == stored_block(
            ob,
            j,
        ),
{
    let m = index / 2;
    let b1 = nb[3 * m + 1];
    let b2 = nb[3 * m + 2];
    assert(((((b1 << 4) as u16) << 4) | (b2 as u16)) == value) by (bit_vector)
        requires
            b1 == (prev & 0b1111_0000) | ((value >> 8) as u8),
            b2 == (value & 0b1111_1111) as u8,
            value < 4096,
    ;
    assert forall|j: int| 0 <= j < SIZE_P3 && j != index implies stored_block(nb, j)
        == stored_block(ob, j) by {
        let k = j / 2;
        vstd::arithmetic::div_mod::lemma_fundamental_div_mod(j, 2);
        vstd::arithmetic::div_mod::lemma_fundamental_div_mod(index, 2);
        if j % 2 == 1 {
            // entry j lives at bytes 3k + 1 and 3k + 2, both untouched
            assert(k != m);
            assert(nb[3 * k + 1] == ob[3 * k + 1] && nb[3 * k + 2] == ob[3 * k + 2]);
        } else if k == m {
            // the even neighbour shares byte 3m + 1; its top nibble is kept
            let n1 = nb[3 * m + 1];
            assert((n1 >> 4) == (prev >> 4)) by (bit_vector)
                requires
                    n1 == (prev & 0b1111_0000) | ((value >> 8) as u8),
                    value < 4096,
            ;
            assert(nb[3 * k] == ob[3 * k]);
        } else {
            assert(nb[3 * k] == ob[3 * k] && nb[3 * k + 1] == ob[3 * k + 1]);
        }
    }
}

} // verus!
