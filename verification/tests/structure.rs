use mc_blackhole::world::chunk::Chunk;
use mc_blackhole::world::entity::structure::StructureEntity;
use mc_blackhole::world::entity::EntityBase;
use mc_blackhole::world::level::Level;
use mc_blackhole::world::palette::PaletteBlockKind;

fn world() -> Level {
    let mut level = Level::new(4);
    level.maps.insert_chunk((0, 0), Chunk::new(0, 0));
    level
}

#[test]
fn structure_rests_every_fourth_tick() {
    let mut level = world();
    let mut s = StructureEntity::new((2, 64, 3));
    assert!(s.tick(&mut level).is_none());
    assert_eq!(s.counter(), 0);
    assert_eq!(level.patch_counter, 0);
}

#[test]
fn structure_grows_a_column() {
    let mut level = world();
    let mut s = StructureEntity::new((2, 64, 3));
    level.advance_tick();
    let t = s.tick(&mut level).unwrap();
    assert!(t.restored.is_empty());
    assert!(t.placed.is_empty());
    assert_eq!(s.counter(), 1);
    level.advance_tick();
    let t = s.tick(&mut level).unwrap();
    assert!(t.restored.is_empty());
    assert_eq!(
        t.placed,
        vec![(2, 63, 3, PaletteBlockKind::OakLog), (2, 64, 3, PaletteBlockKind::Bedrock)]
    );
    assert_eq!(level.maps.get_block_in((0, 0), 2, 64, 3), PaletteBlockKind::Bedrock);
    assert_eq!(level.maps.get_block_in((0, 0), 2, 63, 3), PaletteBlockKind::OakLog);
    assert_eq!(level.patch_counter, 2);
    assert_eq!(s.counter(), 2);
    level.advance_tick();
    let t = s.tick(&mut level).unwrap();
    assert_eq!(t.restored.len(), 2);
    assert_eq!(t.restored[0].1.original, PaletteBlockKind::Air);
    assert_eq!(t.placed.len(), 4);
    assert_eq!(t.placed[0], (2, 62, 3, PaletteBlockKind::OakLog));
    assert_eq!(t.placed[3], (2, 65, 3, PaletteBlockKind::OakLog));
    assert_eq!(level.maps.get_block_in((0, 0), 2, 65, 3), PaletteBlockKind::OakLog);
    assert_eq!(level.patch_counter, 6);
    assert_eq!(s.counter(), 3);
    assert_eq!(s.position(), (2, 64, 3));
}

#[test]
fn structure_turns_at_ten() {
    let mut level = world();
    let mut s = StructureEntity::new((0, 100, 0));
    let mut seen = vec![];
    for _ in 0..40 {
        level.advance_tick();
        if s.tick(&mut level).is_some() {
            seen.push(s.counter());
        }
    }
    assert!(seen.iter().all(|c| (0..=10).contains(c)));
    assert!(seen.contains(&10));
    let at_top = seen.iter().position(|c| *c == 10).unwrap();
    assert_eq!(seen[at_top + 1], 9);
}

#[test]
fn taken_back_blocks_return_to_what_they_were() {
    let mut level = world();
    level.maps.set_block_in((0, 0), 2, 64, 3, PaletteBlockKind::Granite);
    let mut s = StructureEntity::new((2, 64, 3));
    level.advance_tick();
    s.tick(&mut level);
    level.advance_tick();
    s.tick(&mut level);
    assert_eq!(level.maps.get_block_in((0, 0), 2, 64, 3), PaletteBlockKind::Bedrock);
    // Grow to 3, then shrink back down to 0.
    let mut last = None;
    for _ in 0..60 {
        level.advance_tick();
        if let Some(t) = s.tick(&mut level) {
            if s.counter() == 1 && t.placed.is_empty() {
                last = Some(t);
                break;
            }
        }
    }
    assert!(last.is_some());
    assert_eq!(level.maps.get_block_in((0, 0), 2, 64, 3), PaletteBlockKind::Granite);
}

fn is_random_uuid_bits(u: u128) -> bool {
    (u >> 76) & 0xf == 4 && (u >> 62) & 0x3 == 2
}

#[test]
fn entity_uuids_are_random_version_four() {
    let a = EntityBase::new();
    let b = EntityBase::default();
    assert!(is_random_uuid_bits(a.uuid));
    assert!(is_random_uuid_bits(b.uuid));
    assert_ne!(a.uuid, b.uuid);
}

#[test]
fn structure_half_height_stays_in_range() {
    let mut level = world();
    let mut s = StructureEntity::new((2, 64, 3));
    let mut seen_top = false;
    for _ in 0..200 {
        let before = s.counter();
        let t = s.tick(&mut level);
        assert!((0..=10).contains(&s.counter()));
        if let Some(t) = t {
            assert_eq!(t.placed.len() as i32, 2 * before);
        }
        seen_top |= s.counter() == 10;
        level.advance_tick();
    }
    assert!(seen_top);
}

#[test]
fn structure_patches_are_kept_by_the_level() {
    let mut level = world();
    let mut s = StructureEntity::new((2, 64, 3));
    for _ in 0..6 {
        level.advance_tick();
        s.tick(&mut level);
    }
    // after the last tick the column of half-height 4 was placed: patches
    // 13..=20 (2 + 4 + 6 earlier)
    assert_eq!(level.patch_counter, 2 + 4 + 6 + 8);
    for idx in 13..=20u64 {
        let p = level.maps.find_patch((0, 0), idx).unwrap();
        assert_eq!((p.x, p.z), (2, 3));
    }
}
