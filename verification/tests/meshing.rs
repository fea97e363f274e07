//! Face culling against the 7-chunk neighbourhood, and the block registry.

use morph::math::IVec3;
use morph::mesher::{build_mesh, Direction, Face, Mesh, MeshTable};
use morph::registry::{is_meshable, BlocksHandler, ModelType};
use morph::store::{Chunk, ChunksRefs, LoadArea};

fn registry() -> BlocksHandler {
    BlocksHandler::new(vec![
        (String::from("air"), ModelType::Empty),
        (String::from("stone"), ModelType::Cube(String::from("stone.png"))),
        (String::from("stair"), ModelType::Stair(String::from("stair.png"))),
    ])
}

fn air_world(center: Vec<u16>) -> LoadArea {
    let mut area = LoadArea::new();
    let offsets = [
        (0, 0, 0),
        (0, -1, 0),
        (0, 1, 0),
        (-1, 0, 0),
        (1, 0, 0),
        (0, 0, -1),
        (0, 0, 1),
    ];
    for &(x, y, z) in &offsets {
        let pos = IVec3::new(x, y, z);
        let blocks = if (x, y, z) == (0, 0, 0) {
            center.clone()
        } else {
            Chunk::empty()
        };
        area.insert(pos, Chunk::new(pos, blocks));
    }
    area
}

#[test]
fn meshable_only_for_cubes() {
    let reg = registry();
    assert!(!is_meshable(&reg, 0)); // air / Empty
    assert!(is_meshable(&reg, 1)); // Cube
    assert!(!is_meshable(&reg, 2)); // Stair is accepted but not meshed yet
    assert!(!is_meshable(&reg, 3)); // unregistered id falls back to not meshable
}

#[test]
fn model_type_meshable_variants() {
    assert!(ModelType::Cube(String::from("t.png")).is_meshable());
    assert!(!ModelType::Stair(String::from("t.png")).is_meshable());
    assert!(!ModelType::Slab(String::from("t.png")).is_meshable());
    assert!(!ModelType::Custom(String::from("t.png")).is_meshable());
    assert!(!ModelType::Empty.is_meshable());
}

#[test]
fn registry_assigns_sequential_ids_and_finds_names() {
    let reg = registry();
    assert_eq!(reg.len(), 3);
    assert_eq!(reg.find_block(&String::from("stone")), 1);
    assert_eq!(reg.find_block(&String::from("stair")), 2);
    // a missing name falls back to id 0
    assert_eq!(reg.find_block(&String::from("missing")), 0);
    assert!(reg.get(0).is_some());
    assert!(reg.get(3).is_none());
}

#[test]
fn neighbor_view_needs_all_seven_chunks() {
    let mut area = LoadArea::new();
    let center = IVec3::new(0, 0, 0);
    area.insert(center, Chunk::new(center, Chunk::empty()));
    // only the center: assembly fails softly
    assert!(ChunksRefs::new(&area, center).is_none());
    // five of six neighbours: still fails
    for &(x, y, z) in &[(0, -1, 0), (0, 1, 0), (-1, 0, 0), (1, 0, 0), (0, 0, -1)] {
        let pos = IVec3::new(x, y, z);
        area.insert(pos, Chunk::new(pos, Chunk::empty()));
        assert!(ChunksRefs::new(&area, center).is_none());
    }
    // the seventh completes the view
    let last = IVec3::new(0, 0, 1);
    area.insert(last, Chunk::new(last, Chunk::empty()));
    assert!(ChunksRefs::new(&area, center).is_some());
}

#[test]
fn neighbor_view_reads_across_chunk_borders() {
    let mut center = Chunk::empty();
    center[Chunk::block_index(IVec3::new(0, 0, 0))] = 7;
    let mut area = air_world(center);
    // put a marker into the left neighbour's far column
    let left = IVec3::new(-1, 0, 0);
    let mut blocks = Chunk::empty();
    blocks[Chunk::block_index(IVec3::new(31, 0, 0))] = 9;
    area.insert(left, Chunk::new(left, blocks));
    let refs = ChunksRefs::new(&area, IVec3::new(0, 0, 0)).unwrap();
    assert_eq!(refs.get_block(IVec3::new(0, 0, 0)), 7);
    assert_eq!(refs.get_block(IVec3::new(-1, 0, 0)), 9);
    assert_eq!(refs.get_block(IVec3::new(1, 0, 0)), 0);
}

#[test]
fn all_air_chunk_meshes_to_nothing() {
    let reg = registry();
    let area = air_world(Chunk::empty());
    let refs = ChunksRefs::new(&area, IVec3::new(0, 0, 0)).unwrap();
    let mesh = build_mesh(IVec3::new(0, 0, 0), refs, &reg);
    assert_eq!(mesh.vertices.len(), 0);
    assert_eq!(mesh.indices.len(), 0);
}

#[test]
fn single_block_meshes_to_six_quads() {
    let reg = registry();
    let mut center = Chunk::empty();
    center[Chunk::block_index(IVec3::new(0, 0, 0))] = 1;
    let area = air_world(center);
    let refs = ChunksRefs::new(&area, IVec3::new(0, 0, 0)).unwrap();
    let mesh = build_mesh(IVec3::new(0, 0, 0), refs, &reg);
    assert_eq!(mesh.vertices.len(), 24);
    assert_eq!(mesh.indices.len(), 36);
}

#[test]
fn adjacent_blocks_share_no_face() {
    let reg = registry();
    let mut center = Chunk::empty();
    center[Chunk::block_index(IVec3::new(5, 5, 5))] = 1;
    center[Chunk::block_index(IVec3::new(6, 5, 5))] = 1;
    let area = air_world(center);
    let refs = ChunksRefs::new(&area, IVec3::new(0, 0, 0)).unwrap();
    let mesh = build_mesh(IVec3::new(0, 0, 0), refs, &reg);
    // two cubes, minus the two culled faces of the shared boundary
    assert_eq!(mesh.vertices.len(), 4 * 10);
    assert_eq!(mesh.indices.len(), 6 * 10);
}

#[test]
fn solid_slab_emits_only_outer_faces() {
    let reg = registry();
    let mut center = Chunk::empty();
    // a full horizontal layer at y == 10
    for x in 0..32 {
        for z in 0..32 {
            center[Chunk::block_index(IVec3::new(x, 10, z))] = 1;
        }
    }
    let area = air_world(center);
    let refs = ChunksRefs::new(&area, IVec3::new(0, 0, 0)).unwrap();
    let mesh = build_mesh(IVec3::new(0, 0, 0), refs, &reg);
    // every interior face is culled: top and bottom of the slab remain, plus
    // the rim columns on the low-x and low-z borders. The rim faces on the
    // high-x and high-z boundary planes belong to the neighbouring chunks'
    // meshes, which scan them as their own low boundary.
    let expected_faces = 32 * 32 * 2 + 32 * 2;
    assert_eq!(mesh.vertices.len(), expected_faces * 4);
    assert_eq!(mesh.indices.len(), expected_faces * 6);
}

#[test]
fn generate_indices_is_two_triangles_per_quad() {
    let vertices = vec![0u32; 8];
    let indices = Mesh::generate_indices(&vertices);
    assert_eq!(indices, vec![0, 1, 2, 0, 2, 3, 4, 5, 6, 4, 6, 7]);
}

#[test]
fn face_vertices_winding_depends_on_direction() {
    // Down keeps emission order, Up reverses the last three corners
    let down = Face::new(0, 0).vertices(Direction::Down, 0, 1);
    let up = Face::new(0, 0).vertices(Direction::Up, 0, 1);
    assert_eq!(down.len(), 4);
    assert_eq!(up.len(), 4);
    assert!(Direction::Up.reverse_order());
    assert!(!Direction::Down.reverse_order());
    // the first corner is shared, the rest are reversed
    assert_eq!(down[0] & 0x3ffff, up[0] & 0x3ffff);
}

#[test]
fn direction_iter_lists_all_six() {
    let dirs = Direction::iter();
    assert_eq!(
        dirs,
        vec![
            Direction::Left,
            Direction::Right,
            Direction::Down,
            Direction::Up,
            Direction::Back,
            Direction::Forward,
        ]
    );
}

#[test]
fn mesh_table_overwrites_by_position() {
    let reg = registry();
    let mut center = Chunk::empty();
    center[Chunk::block_index(IVec3::new(0, 0, 0))] = 1;
    let area = air_world(center);
    let pos = IVec3::new(0, 0, 0);
    let refs = ChunksRefs::new(&area, pos).unwrap();
    let mesh = build_mesh(pos, refs, &reg);

    let mut table = MeshTable::new();
    assert!(table.get(pos).is_none());
    table.insert(mesh);
    assert_eq!(table.len(), 1);
    assert_eq!(table.get(pos).unwrap().vertices.len(), 24);

    // regenerating the chunk after its block was removed replaces the whole
    // entry under the same position
    let empty_area = air_world(Chunk::empty());
    let refs = ChunksRefs::new(&empty_area, pos).unwrap();
    let remeshed = build_mesh(pos, refs, &reg);
    table.insert(remeshed);
    assert_eq!(table.len(), 1);
    assert_eq!(table.get(pos).unwrap().vertices.len(), 0);
}
