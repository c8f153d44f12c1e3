use mc_blackhole::world::chunk::Chunk;
use mc_blackhole::world::level::{apply_patches, BlockPatch, Level};
use mc_blackhole::world::palette::PaletteBlockKind;

fn level_with_chunk(x: i32, z: i32) -> Level {
    let mut level = Level::new(16);
    level.maps.insert_chunk((x, z), Chunk::new(x, z));
    level
}

#[test]
fn new_level_settings() {
    let level = Level::new(16);
    assert_eq!(level.seed, 69420);
    assert_eq!(level.view_distance, 16);
    assert_eq!(level.patch_counter, 0);
    assert_eq!(level.tick_counter, 0);
    assert!(!level.is_chunk_loaded((0, 0)));
}

#[test]
fn world_to_chunk_floors() {
    assert_eq!(Level::world_to_chunk(0, 0), (0, 0));
    assert_eq!(Level::world_to_chunk(15, 16), (0, 1));
    assert_eq!(Level::world_to_chunk(-1, -16), (-1, -1));
    assert_eq!(Level::world_to_chunk(-17, 33), (-2, 2));
    assert_eq!(Level::world_to_chunk_local(-1, 17), (15, 1));
    assert_eq!(Level::world_to_chunk_and_local(-17, 33), (-2, 2, 15, 1));
}

#[test]
fn set_block_perma_records_patch() {
    let mut level = level_with_chunk(0, 0);
    let idx = level.set_block_perma(3, 10, 4, PaletteBlockKind::Grass);
    assert_eq!(idx, 1);
    assert_eq!(level.patch_counter, 1);
    assert_eq!(level.maps.get_block_in((0, 0), 3, 10, 4), PaletteBlockKind::Grass);
    let patches = level.maps.patches_for((0, 0));
    assert_eq!(patches.len(), 1);
    assert_eq!((patches[0].idx, patches[0].x, patches[0].y, patches[0].z), (1, 3, 10, 4));
    assert_eq!(patches[0].kind, PaletteBlockKind::Grass);
    assert_eq!(patches[0].original, PaletteBlockKind::Air);
    let idx = level.set_block_perma(3, 10, 4, PaletteBlockKind::Stone);
    assert_eq!(idx, 2);
    let found = level.maps.find_patch((0, 0), 2).unwrap();
    assert_eq!(found.original, PaletteBlockKind::Grass);
    assert!(level.maps.find_patch((0, 0), 3).is_none());
    assert!(level.maps.find_patch((5, 5), 1).is_none());
}

#[test]
fn set_block_in_negative_chunk() {
    let mut level = level_with_chunk(-1, -1);
    let cpos = level.set_block(-1, 0, -16, PaletteBlockKind::Dirt);
    assert_eq!(cpos, (-1, -1));
    assert_eq!(level.maps.get_block_in((-1, -1), 15, 0, 0), PaletteBlockKind::Dirt);
    assert!(level.maps.patches_for((-1, -1)).is_empty());
}

#[test]
fn get_block_reads_the_chunk_named_by_local_coordinates() {
    // The level reads from the chunk at (wx mod 16, wz mod 16).
    let mut level = level_with_chunk(1, 2);
    level.maps.set_block_in((1, 2), 1, 5, 2, PaletteBlockKind::Granite);
    assert_eq!(level.get_block(17, 5, 34), PaletteBlockKind::Granite);
    assert_eq!(level.get_block(1, 5, 2), PaletteBlockKind::Granite);
}

#[test]
fn patches_apply_and_unapply() {
    let mut c = Chunk::new(0, 0);
    c.set_block_local(1, 1, 1, PaletteBlockKind::Stone);
    let p = BlockPatch::new2(1, 1, 1, 1, PaletteBlockKind::GoldBlock, PaletteBlockKind::Stone);
    p.apply(&mut c);
    assert_eq!(c.get_block_local(1, 1, 1), PaletteBlockKind::GoldBlock);
    p.unapply(&mut c);
    assert_eq!(c.get_block_local(1, 1, 1), PaletteBlockKind::Stone);
    let q = BlockPatch::new(2, (2, 3, 4), PaletteBlockKind::Dirt, PaletteBlockKind::Air);
    assert_eq!((q.x, q.y, q.z), (2, 3, 4));
}

#[test]
fn later_patches_win() {
    let mut c = Chunk::new(0, 0);
    let patches = vec![
        BlockPatch::new2(1, 0, 0, 0, PaletteBlockKind::Stone, PaletteBlockKind::Air),
        BlockPatch::new2(2, 0, 0, 0, PaletteBlockKind::Dirt, PaletteBlockKind::Stone),
        BlockPatch::new2(3, 1, 0, 0, PaletteBlockKind::Grass, PaletteBlockKind::Air),
    ];
    apply_patches(&mut c, &patches);
    assert_eq!(c.get_block_local(0, 0, 0), PaletteBlockKind::Dirt);
    assert_eq!(c.get_block_local(1, 0, 0), PaletteBlockKind::Grass);
}

#[test]
fn remove_far_chunks() {
    let mut level = Level::new(2);
    for (x, z) in [(0, 0), (1, 1), (3, 0), (-2, 0)] {
        level.maps.insert_chunk((x, z), Chunk::new(x, z));
    }
    let mut removed = level.maps.remove_chunks_outside((0, 0), 2);
    removed.sort();
    assert_eq!(removed, vec![(3, 0)]);
    assert!(level.is_chunk_loaded((-2, 0)));
    assert!(!level.is_chunk_loaded((3, 0)));
}

#[test]
fn ticks_count() {
    let mut level = Level::new(4);
    level.advance_tick();
    level.advance_tick();
    assert_eq!(level.tick_counter, 2);
}

#[test]
fn block_update_packets() {
    let p = mc_blackhole::world::level::block_update(1, 2, 3, PaletteBlockKind::Bedrock);
    assert_eq!(p.location.decoded(), (1, 2, 3));
    assert_eq!(p.global_block_id, 85);
}
