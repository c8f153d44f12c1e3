use mc_blackhole::world::chunk::Chunk;
use mc_blackhole::world::chunk_gen::{
    carve_cave, carve_caves, carve_sphere, dig_step, dig_walk, digger_count, digger_start, dungeon_site,
    fill_column, fill_terrain, place_dungeon, terrain_block_kind, CaveScan, Decoration,
};
use mc_blackhole::world::palette::PaletteBlockKind;

#[test]
fn sphere_points_in_scan_order() {
    let pts = carve_sphere(0, 0, 0, 3);
    assert_eq!(pts.len(), 123);
    assert_eq!(pts[0], (-3, 0, 0));
    assert_eq!(pts[pts.len() - 1], (3, 0, 0));
    for w in pts.windows(2) {
        assert!(w[0] < w[1]);
    }
    let small = carve_sphere(10, -5, 7, 1);
    assert_eq!(
        small,
        vec![(9, -5, 7), (10, -6, 7), (10, -5, 6), (10, -5, 7), (10, -5, 8), (10, -4, 7), (11, -5, 7)]
    );
    assert_eq!(carve_sphere(4, 4, 4, 0), vec![(4, 4, 4)]);
    assert!(carve_sphere(4, 4, 4, -1).is_empty());
}

#[test]
fn terrain_rock_bands() {
    assert_eq!(terrain_block_kind(-64, Decoration::Low, false), PaletteBlockKind::Bedrock);
    assert_eq!(terrain_block_kind(-61, Decoration::Andesite, true), PaletteBlockKind::Bedrock);
    assert_eq!(terrain_block_kind(-60, Decoration::Low, false), PaletteBlockKind::Deepslate);
    assert_eq!(terrain_block_kind(14, Decoration::Andesite, false), PaletteBlockKind::Deepslate);
    assert_eq!(terrain_block_kind(15, Decoration::Low, false), PaletteBlockKind::Stone);
    assert_eq!(terrain_block_kind(15, Decoration::Low, true), PaletteBlockKind::Cobblestone);
    assert_eq!(terrain_block_kind(35, Decoration::Low, true), PaletteBlockKind::Granite);
    assert_eq!(terrain_block_kind(50, Decoration::Diorite, false), PaletteBlockKind::Diorite);
    assert_eq!(terrain_block_kind(50, Decoration::Andesite, false), PaletteBlockKind::Andesite);
}

#[test]
fn columns_fill_up_to_their_height() {
    let mut c = Chunk::new(0, 0);
    fill_column(&mut c, 2, 3, 20, Decoration::Low, false);
    assert_eq!(c.get_block_local(2, -64, 3), PaletteBlockKind::Bedrock);
    assert_eq!(c.get_block_local(2, 0, 3), PaletteBlockKind::Deepslate);
    assert_eq!(c.get_block_local(2, 19, 3), PaletteBlockKind::Stone);
    assert_eq!(c.get_block_local(2, 20, 3), PaletteBlockKind::Air);
    assert_eq!(c.get_block_local(3, 0, 3), PaletteBlockKind::Air);
    fill_column(&mut c, 0, 0, -100, Decoration::Low, false);
    assert_eq!(c.get_block_local(0, -64, 0), PaletteBlockKind::Air);
}

#[test]
fn terrain_pass_returns_heights() {
    let mut c = Chunk::new(0, 0);
    let mut cols = Vec::new();
    for k in 0..256 {
        cols.push((if k == 17 { 40 } else { 10 }, Decoration::Low, false));
    }
    let heights = fill_terrain(&mut c, &cols);
    assert_eq!(heights.len(), 256);
    assert_eq!(heights[17], 40);
    assert_eq!(heights[0], 10);
    assert_eq!(c.get_block_local(1, 39, 1), PaletteBlockKind::Granite);
    assert_eq!(c.get_block_local(1, 40, 1), PaletteBlockKind::Air);
    assert_eq!(c.get_block_local(0, 9, 0), PaletteBlockKind::Deepslate);
    assert_eq!(c.get_block_local(0, 10, 0), PaletteBlockKind::Air);
}

#[test]
fn caves_clear_spheres_below_300() {
    let mut c = Chunk::new(0, 0);
    for y in -64..320 {
        c.set_block_local(0, y, 0, PaletteBlockKind::Stone);
    }
    carve_cave(&mut c, 0, 10, 0);
    assert_eq!(c.get_block_local(0, 10, 0), PaletteBlockKind::Air);
    assert_eq!(c.get_block_local(0, 13, 0), PaletteBlockKind::Air);
    assert_eq!(c.get_block_local(0, 14, 0), PaletteBlockKind::Stone);
    carve_cave(&mut c, 0, 299, 0);
    assert_eq!(c.get_block_local(0, 299, 0), PaletteBlockKind::Air);
    assert_eq!(c.get_block_local(0, 300, 0), PaletteBlockKind::Stone);
}

#[test]
fn cave_scan_keeps_the_first_middle_cave() {
    let mut c = Chunk::new(0, 0);
    let mut centers = vec![None; 256];
    centers[7 * 16 + 8] = Some(20);
    let scan = carve_caves(&mut c, &centers);
    assert_eq!(scan.cave, Some((7, 20, 8)));
    assert!(scan.is_single_cave);
    centers[15 * 16] = Some(5);
    let scan = carve_caves(&mut c, &centers);
    assert_eq!(scan.cave, Some((7, 20, 8)));
    assert!(!scan.is_single_cave);
    let mut edge = vec![None; 256];
    edge[0] = Some(0);
    let scan = carve_caves(&mut c, &edge);
    assert_eq!(scan.cave, None);
    assert!(!scan.is_single_cave);
    let mut s = CaveScan::new();
    s.record(6, 1, 6);
    s.record(7, 2, 7);
    assert_eq!(s.cave, Some((6, 1, 6)));
    assert!(!s.is_single_cave);
}

#[test]
fn diggers_start_on_the_surface_and_stay_inside() {
    let mut c = Chunk::new(0, 0);
    let mut heights = vec![0; 256];
    for y in -64..5 {
        c.set_block_local(3, y, 4, PaletteBlockKind::Stone);
    }
    heights[3 * 16 + 4] = 5;
    assert_eq!(digger_count(7), 1);
    let start = digger_start(&c, &heights, 16 + 3, 32 + 4);
    assert_eq!(start, (3, 4, 4));
    let next = dig_step(&mut c, start, 0, false);
    assert_eq!(c.get_block_local(3, 4, 4), PaletteBlockKind::Dirt);
    assert_eq!(next, (4, 4, 4));
    assert_eq!(dig_step(&mut c, (0, 0, 0), 1, true), (0, 0, 0));
    assert_eq!(dig_step(&mut c, (15, 300, 15), 2, false), (15, 300, 15));
    assert_eq!(dig_step(&mut c, (5, 5, 5), 4, false), (5, 6, 5));
    assert_eq!(dig_step(&mut c, (5, 5, 5), 5, true), (5, 5, 4));
}

#[test]
fn dungeon_layout() {
    let mut c = Chunk::new(0, 0);
    place_dungeon(&mut c, 8, 20, 8);
    assert_eq!(c.get_block_local(8, 20, 8), PaletteBlockKind::GoldBlock);
    for (x, y, z) in [(5, 20, 8), (11, 20, 8), (8, 17, 8), (8, 23, 8), (8, 20, 5), (8, 20, 11)] {
        assert_eq!(c.get_block_local(x, y, z), PaletteBlockKind::Cobblestone);
    }
    assert_eq!(c.get_block_local(6, 20, 8), PaletteBlockKind::CobblestoneWallXF);
    assert_eq!(c.get_block_local(10, 20, 8), PaletteBlockKind::CobblestoneWallXF);
    assert_eq!(c.get_block_local(8, 18, 8), PaletteBlockKind::CobblestoneWall);
    assert_eq!(c.get_block_local(8, 22, 8), PaletteBlockKind::CobblestoneWall);
    assert_eq!(c.get_block_local(8, 20, 9), PaletteBlockKind::CobblestoneWallZF);
    assert_eq!(c.get_block_local(9, 21, 8), PaletteBlockKind::Air);
}

#[test]
fn dungeon_only_for_an_isolated_single_cave() {
    let single = CaveScan { cave: Some((7, 10, 7)), is_single_cave: true };
    assert_eq!(dungeon_site(&single, &[false; 4]), Some((7, 10, 7)));
    assert_eq!(dungeon_site(&single, &[false, false, true, false]), None);
    let many = CaveScan { cave: Some((7, 10, 7)), is_single_cave: false };
    assert_eq!(dungeon_site(&many, &[false; 4]), None);
}

#[test]
fn digger_walks_its_drawn_steps() {
    let mut c = Chunk::new(0, 0);
    // up along y, then +x, then -z (clamped at 0), then +z
    let steps = vec![(1, false), (0, false), (2, true), (2, false)];
    let end = dig_walk(&mut c, (4, 10, 0), &steps);
    assert_eq!(end, (5, 11, 1));
    for (x, y, z) in [(4, 10, 0), (4, 11, 0), (5, 11, 0)] {
        assert_eq!(c.get_block_local(x, y, z), PaletteBlockKind::Dirt);
    }
    assert_eq!(c.get_block_local(5, 11, 1), PaletteBlockKind::Air);
    // no steps: nothing is dug
    let mut d = Chunk::new(0, 0);
    assert_eq!(dig_walk(&mut d, (1, 2, 3), &vec![]), (1, 2, 3));
    assert_eq!(d.get_block_local(1, 2, 3), PaletteBlockKind::Air);
}
