//! Terrain generation, the chunk store, the scheduler and the noise core.

use morph::config::WorldConfig;
use morph::fastnoise::{permutation_table, XorShift64Star};
use morph::generate::{
    cell_value, generate_chunk, in_range, world_positions, BlockIds, ColumnProfile,
};
use morph::math::IVec3;
use morph::scheduler::{init_mesher, Mesher, ScheduleTable, TickError, Ticker, MAX_TASKS};
use morph::store::{Chunk, LoadArea, SIZE_P3};

fn ids() -> BlockIds {
    BlockIds { grass: 2, dirt: 1, stone: 3 }
}

fn flat_columns(base_height: i32) -> Vec<ColumnProfile> {
    vec![ColumnProfile { mask_on: false, mountain_limit: i32::MIN, base_height }; 32 * 32]
}

#[test]
fn config_defaults_are_fixed() {
    let cfg = WorldConfig::default();
    assert_eq!(cfg.chunk_range, 4);
    assert_eq!(cfg.chunk_height_range, 4);
    assert_eq!(cfg.chunk_bottom_range, -2);
    assert_eq!(cfg.world_height_render, 5);
    assert_eq!(cfg.world_bottom_render, -3);
    assert_eq!(cfg.range_render, 6);
}

#[test]
fn range_check_matches_configured_world() {
    let cfg = WorldConfig::default();
    assert!(in_range(IVec3::new(0, 0, 0), &cfg));
    assert!(in_range(IVec3::new(4, 4, -4), &cfg));
    assert!(in_range(IVec3::new(0, -2, 0), &cfg));
    assert!(!in_range(IVec3::new(5, 0, 0), &cfg));
    assert!(!in_range(IVec3::new(0, 5, 0), &cfg));
    assert!(!in_range(IVec3::new(0, -3, 0), &cfg));
    assert!(!in_range(IVec3::new(0, 0, -5), &cfg));
}

#[test]
fn out_of_range_chunk_is_all_air() {
    // generation outside `chunk_range` yields an all-air chunk; the column
    // profiles are never consulted, so even mountain-heavy ones change nothing
    let cfg = WorldConfig::default();
    let columns = vec![
        ColumnProfile { mask_on: true, mountain_limit: 1000, base_height: 1000 };
        32 * 32
    ];
    let chunk = generate_chunk(IVec3::new(5, 0, 0), &cfg, &columns, ids());
    assert_eq!(chunk.blocks.len(), SIZE_P3);
    assert!(chunk.blocks.iter().all(|&b| b == 0));
}

#[test]
fn deep_chunks_are_solid_stone() {
    // every cell below world height -SIZE is stone, whatever the columns say
    let cfg = WorldConfig::default();
    let chunk = generate_chunk(IVec3::new(0, -2, 0), &cfg, &flat_columns(1000), ids());
    assert_eq!(chunk.blocks.len(), SIZE_P3);
    assert!(chunk.blocks.iter().all(|&b| b == 3));
}

#[test]
fn surface_column_layers_grass_dirt_stone() {
    let cfg = WorldConfig::default();
    let chunk = generate_chunk(IVec3::new(0, 0, 0), &cfg, &flat_columns(5), ids());
    let column = |y: i32| chunk.blocks[Chunk::block_index(IVec3::new(3, y, 4))];
    assert_eq!(column(7), 0); // air above the surface
    assert_eq!(column(6), 0);
    assert_eq!(column(5), 2); // grass exactly at the surface
    assert_eq!(column(4), 1); // dirt within two below
    assert_eq!(column(3), 1);
    assert_eq!(column(2), 3); // stone underneath
    assert_eq!(column(0), 3);
}

#[test]
fn mountain_band_fills_stone_up_to_its_limit() {
    let cfg = WorldConfig::default();
    let columns = vec![
        ColumnProfile { mask_on: true, mountain_limit: 10, base_height: -100 };
        32 * 32
    ];
    let chunk = generate_chunk(IVec3::new(0, 0, 0), &cfg, &columns, ids());
    let column = |y: i32| chunk.blocks[Chunk::block_index(IVec3::new(0, y, 0))];
    for y in 0..=10 {
        assert_eq!(column(y), 3);
    }
    for y in 11..32 {
        assert_eq!(column(y), 0);
    }
}

#[test]
fn masked_off_mountains_leave_air() {
    let cfg = WorldConfig::default();
    let columns = vec![
        ColumnProfile { mask_on: false, mountain_limit: 10, base_height: -100 };
        32 * 32
    ];
    let chunk = generate_chunk(IVec3::new(0, 0, 0), &cfg, &columns, ids());
    assert!(chunk.blocks.iter().all(|&b| b == 0));
}

#[test]
fn cell_rules_follow_fixed_priority() {
    let col = ColumnProfile { mask_on: true, mountain_limit: 20, base_height: 5 };
    // deep stone wins over everything
    assert_eq!(cell_value(-33, col, ids()), 3);
    // mountains carve through the band
    assert_eq!(cell_value(15, col, ids()), 3);
    // the plains surface fills underneath
    assert_eq!(cell_value(5, col, ids()), 3); // mountain stone took this cell first
    let plains = ColumnProfile { mask_on: false, mountain_limit: 0, base_height: 5 };
    assert_eq!(cell_value(5, plains, ids()), 2);
    assert_eq!(cell_value(4, plains, ids()), 1);
    assert_eq!(cell_value(-30, plains, ids()), 3);
    assert_eq!(cell_value(6, plains, ids()), 0);
}

#[test]
fn world_positions_walk_the_cube() {
    let positions = world_positions(1);
    assert_eq!(positions.len(), 27);
    assert_eq!(positions[0], IVec3::new(-1, -1, -1));
    assert_eq!(positions[13], IVec3::new(0, 0, 0));
    assert_eq!(positions[26], IVec3::new(1, 1, 1));
    let larger = world_positions(4);
    assert_eq!(larger.len(), 9 * 9 * 9);
}

#[test]
fn load_area_keys_chunks_by_position() {
    let mut area = LoadArea::new();
    let p1 = IVec3::new(1, 2, 3);
    let p2 = IVec3::new(-1, 0, 0);
    area.insert(p1, Chunk::new(p1, Chunk::empty()));
    let mut marked = Chunk::empty();
    marked[0] = 42;
    area.insert(p2, Chunk::new(p2, marked));
    assert!(area.get(p1).is_some());
    assert_eq!(area.get(p2).unwrap().blocks[0], 42);
    assert!(area.get(IVec3::new(9, 9, 9)).is_none());
    // inserting again at the same position overwrites the entry whole
    let mut replaced = Chunk::empty();
    replaced[0] = 7;
    area.insert(p2, Chunk::new(p2, replaced));
    assert_eq!(area.get(p2).unwrap().blocks[0], 7);
    area.remove(p2);
    assert!(area.get(p2).is_none());
    assert!(area.get(p1).is_some());
}

#[test]
fn chunk_set_get_round_trips_unpacked() {
    let mut chunk = Chunk::new(IVec3::new(0, 0, 0), Chunk::empty());
    chunk.set_block(100, 65535);
    chunk.set_block(101, 1);
    assert_eq!(chunk.get_block(100), 65535);
    assert_eq!(chunk.get_block(101), 1);
    assert_eq!(chunk.get_block(102), 0);
}

#[test]
fn scheduler_drains_up_to_capacity() {
    let mut mesher = init_mesher();
    for i in 0..20 {
        mesher.enqueue(IVec3::new(i, 0, 0));
    }
    let batch = mesher.drain_batch();
    assert_eq!(batch.len(), MAX_TASKS);
    assert_eq!(batch[0], IVec3::new(0, 0, 0));
    for &pos in &batch {
        mesher.task_started(pos);
    }
    // no spare capacity: nothing drains even though work is queued
    assert_eq!(mesher.drain_batch().len(), 0);
    mesher.task_finished(IVec3::new(3, 0, 0));
    let refill = mesher.drain_batch();
    assert_eq!(refill, vec![IVec3::new(16, 0, 0)]);
}

#[test]
fn scheduler_requeues_missing_dependencies() {
    let mut mesher = Mesher::new();
    mesher.enqueue(IVec3::new(0, 0, 0));
    mesher.enqueue(IVec3::new(1, 0, 0));
    let batch = mesher.drain_batch();
    assert_eq!(batch.len(), 2);
    // the first position's neighbourhood is missing: push it back
    mesher.requeue(batch[0]);
    mesher.task_started(batch[1]);
    let retry = mesher.drain_batch();
    assert_eq!(retry, vec![IVec3::new(0, 0, 0)]);
}

#[test]
fn finishing_untracked_position_changes_nothing() {
    let mut mesher = Mesher::new();
    mesher.task_started(IVec3::new(1, 1, 1));
    mesher.task_finished(IVec3::new(2, 2, 2));
    assert_eq!(mesher.tasks_len(), 1);
    mesher.task_finished(IVec3::new(1, 1, 1));
    assert_eq!(mesher.tasks_len(), 0);
}

#[test]
fn permutation_table_is_deterministic() {
    let a = permutation_table(12345);
    let b = permutation_table(12345);
    assert_eq!(a, b);
    let c = permutation_table(12346);
    assert_ne!(a, c);
}

#[test]
fn permutation_table_shuffles_all_bytes() {
    let p = permutation_table(2025);
    assert_eq!(p.len(), 512);
    // the first half is a permutation of 0..=255
    let mut seen = [false; 256];
    for &v in &p[..256] {
        assert!(!seen[v as usize]);
        seen[v as usize] = true;
    }
    assert!(seen.iter().all(|&s| s));
    // the second half duplicates the first for wrap-free lookup
    for i in 0..256 {
        assert_eq!(p[i], p[i + 256]);
    }
    // and the shuffle actually moved something
    assert!((0..256).any(|i| p[i] != i as u8));
}

#[test]
fn xorshift_streams_are_reproducible() {
    let mut a = XorShift64Star::new(99);
    let mut b = XorShift64Star::new(99);
    for _ in 0..32 {
        assert_eq!(a.next_u64(), b.next_u64());
    }
    let mut c = XorShift64Star::new(100);
    let firsts: Vec<u64> = (0..4).map(|_| c.next_u64()).collect();
    assert!(firsts.iter().any(|&v| v != a.next_u64()));
}

#[test]
fn schedule_table_keeps_one_entry_per_position() {
    let mut table = ScheduleTable::new();
    let pos = IVec3::new(1, 0, 0);
    table.insert(pos, 100);
    table.insert(IVec3::new(2, 0, 0), 50);
    assert_eq!(table.len(), 2);
    // re-inserting a position replaces its entry with the new due time
    table.insert(pos, 200);
    assert_eq!(table.len(), 2);
    // at time 150 only the other position is due; the refreshed one waits
    let due = table.take_due(150);
    assert_eq!(due.len(), 1);
    assert_eq!(due[0].position, IVec3::new(2, 0, 0));
    assert_eq!(table.len(), 1);
    // each entry is consumed exactly once
    let due = table.take_due(300);
    assert_eq!(due.len(), 1);
    assert_eq!(due[0].position, pos);
    assert_eq!(due[0].due_at, 200);
    assert_eq!(table.len(), 0);
    assert_eq!(table.take_due(1000).len(), 0);
}

#[test]
fn tick_driver_rejects_external_callers() {
    let mut ticker = Ticker::new();
    assert_eq!(ticker.tick(true), Ok(1));
    assert_eq!(ticker.tick(true), Ok(2));
    // a tick from anything but the system's scheduler is rejected and the
    // counter does not advance
    assert_eq!(ticker.tick(false), Err(TickError::Unauthorized));
    assert_eq!(ticker.ticks, 2);
    assert_eq!(ticker.tick(true), Ok(3));
}
