//! The 12-bit packed codec and the packed-vertex layout.

use morph::codec::{RawChunk, BUF_SIZE, SIZE_P3};
use morph::math::{IVec3, UVec2};
use morph::mesher::{Direction, Vertex};

#[test]
fn empty_chunk_is_all_air() {
    let chunk = RawChunk::empty();
    for index in 0..SIZE_P3 {
        assert_eq!(chunk.get_block(index), 0);
    }
}

#[test]
fn buffer_size_is_twelve_bits_per_block() {
    assert_eq!(BUF_SIZE, SIZE_P3 * 12 / 8);
}

#[test]
fn set_then_get_round_trips_even_and_odd() {
    let mut chunk = RawChunk::empty();
    chunk.set_block(0, 0xABC);
    chunk.set_block(1, 0xDEF);
    assert_eq!(chunk.get_block(0), 0xABC);
    assert_eq!(chunk.get_block(1), 0xDEF);
}

#[test]
fn round_trip_every_index() {
    let mut chunk = RawChunk::empty();
    for index in 0..SIZE_P3 {
        chunk.set_block(index, (index * 7 % 4096) as u16);
    }
    for index in 0..SIZE_P3 {
        assert_eq!(chunk.get_block(index), (index * 7 % 4096) as u16);
    }
}

#[test]
fn round_trip_extreme_values() {
    let mut chunk = RawChunk::empty();
    chunk.set_block(2, 0xFFF);
    chunk.set_block(3, 0);
    chunk.set_block(4, 1);
    assert_eq!(chunk.get_block(2), 0xFFF);
    assert_eq!(chunk.get_block(3), 0);
    assert_eq!(chunk.get_block(4), 1);
}

#[test]
fn set_never_perturbs_other_indices() {
    let mut chunk = RawChunk::empty();
    for index in 0..64 {
        chunk.set_block(index, (index as u16) + 100);
    }
    chunk.set_block(31, 0x555);
    for index in 0..64 {
        if index != 31 {
            assert_eq!(chunk.get_block(index), (index as u16) + 100);
        }
    }
    assert_eq!(chunk.get_block(31), 0x555);
}

#[test]
fn block_index_is_xzy_order() {
    assert_eq!(RawChunk::block_index(IVec3::new(0, 0, 0)), 0);
    assert_eq!(RawChunk::block_index(IVec3::new(5, 0, 0)), 5);
    assert_eq!(RawChunk::block_index(IVec3::new(0, 0, 3)), 3 * 16);
    assert_eq!(RawChunk::block_index(IVec3::new(0, 2, 0)), 2 * 256);
    assert_eq!(RawChunk::block_index(IVec3::new(1, 2, 3)), 1 + 3 * 16 + 2 * 256);
}

fn decode(word: u32) -> (u32, u32, u32, u32, u32, u32, u32) {
    (
        word & 0x3f,
        (word >> 6) & 0x3f,
        (word >> 12) & 0x3f,
        (word >> 18) & 0x7,
        (word >> 21) & 0x7f,
        (word >> 28) & 1,
        (word >> 29) & 1,
    )
}

#[test]
fn vertex_packing_round_trips() {
    for &(x, y, z) in &[(0, 0, 0), (1, 2, 3), (63, 63, 63), (32, 0, 17)] {
        for &(dir, code) in &[
            (Direction::Up, 0u32),
            (Direction::Left, 1),
            (Direction::Right, 2),
            (Direction::Forward, 3),
            (Direction::Back, 4),
            (Direction::Down, 5),
        ] {
            for &block in &[0u32, 1, 42, 127] {
                for &(ux, uy) in &[(0u32, 0u32), (0, 1), (1, 0), (1, 1)] {
                    let word = Vertex::new(
                        IVec3::new(x, y, z),
                        dir,
                        block,
                        &UVec2::new(ux, uy),
                    );
                    let fields = decode(word);
                    assert_eq!(fields, (x as u32, y as u32, z as u32, code, block, ux, uy));
                }
            }
        }
    }
}

#[test]
fn vertex_packing_exact_word() {
    // 1 | 2 << 6 | 3 << 12 | Up (0) << 18 | 5 << 21 | 1 << 28 | 0 << 29
    let word = Vertex::new(IVec3::new(1, 2, 3), Direction::Up, 5, &UVec2::new(1, 0));
    assert_eq!(word, 278933633);
}

#[test]
fn direction_codes_match_shader_layout() {
    assert_eq!(Direction::Up.to_u32(), 0);
    assert_eq!(Direction::Left.to_u32(), 1);
    assert_eq!(Direction::Right.to_u32(), 2);
    assert_eq!(Direction::Forward.to_u32(), 3);
    assert_eq!(Direction::Back.to_u32(), 4);
    assert_eq!(Direction::Down.to_u32(), 5);
}
