use mc_blackhole::world::chunk::Chunk;
use mc_blackhole::world::entity::player::{unload_far_chunks, ChunkTracker};
use mc_blackhole::world::level::{is_within_radius, Level};
use mc_blackhole::world::palette::PaletteBlockKind;

#[test]
fn sends_nearest_chunks_first() {
    let mut t = ChunkTracker::new();
    assert!(!t.has_seen_chunk((0, 0)));
    let sent = t.plan_sends((0, 0), 1);
    assert_eq!(sent, vec![(0, 0), (-1, 0), (0, -1), (0, 1)]);
    assert!(t.has_seen_chunk((0, 0)));
    assert!(!t.has_seen_chunk((1, 0)));
    let sent = t.plan_sends((0, 0), 1);
    assert_eq!(sent, vec![(1, 0)]);
    let sent = t.plan_sends((0, 0), 1);
    assert!(sent.is_empty());
}

#[test]
fn at_most_five_chunks_per_tick() {
    let mut t = ChunkTracker::new();
    let sent = t.plan_sends((10, -10), 3);
    assert_eq!(sent.len(), 5);
    assert_eq!(sent[0], (10, -10));
    let none = ChunkTracker::new().plan_sends((0, 0), 0);
    assert!(none.is_empty());
}

#[test]
fn radius_checks() {
    assert!(is_within_radius((3, 4), (0, 0), 5));
    assert!(!is_within_radius((3, 5), (0, 0), 5));
    assert!(is_within_radius((-2, -2), (-1, -1), 2));
}

#[test]
fn far_chunks_are_unloaded_and_forgotten() {
    let mut level = Level::new(1);
    let mut t = ChunkTracker::new();
    let sent = t.plan_sends((0, 0), 1);
    for p in &sent {
        level.maps.insert_chunk(*p, Chunk::new(p.0, p.1));
    }
    level.maps.insert_chunk((5, 5), Chunk::new(5, 5));
    let forget = unload_far_chunks(&mut level, &mut t, (3, 0), 1);
    assert!(forget.is_empty() || forget.iter().all(|p| !is_within_radius(*p, (3, 0), 1)));
    assert!(!level.is_chunk_loaded((0, 0)));
    assert!(!level.is_chunk_loaded((5, 5)));
    assert!(!t.has_seen_chunk((0, 0)));
    let mut forget = forget;
    forget.sort();
    assert_eq!(forget, vec![(-1, 0), (0, -1), (0, 0), (0, 1)]);
}

#[test]
fn block_updates_go_to_players_who_saw_the_chunk() {
    let mut t = ChunkTracker::new();
    let sent = t.plan_sends((0, 0), 1);
    assert!(sent.contains(&(-1, 0)));
    // world (-5, 70, 9) lies in chunk (-1, 0), which was sent
    let u = t.block_update_for(-5, 70, 9, PaletteBlockKind::Bedrock).unwrap();
    assert_eq!(u.location.decoded(), (-5, 70, 9));
    assert_eq!(u.global_block_id, 85);
    // chunk (2, 0) was not sent
    assert!(t.block_update_for(40, 70, 9, PaletteBlockKind::Bedrock).is_none());
}

#[test]
fn distance_fit_checks() {
    let mut level = Level::new(2);
    level.maps.insert_chunk((3, -4), Chunk::new(3, -4));
    assert!(level.maps.chunks_fit_i32((0, 0)));
    level.maps.insert_chunk((i32::MAX, 0), Chunk::new(i32::MAX, 0));
    assert!(!level.maps.chunks_fit_i32((0, 0)));
    let mut t = ChunkTracker::new();
    assert!(t.sent_fit_i32((i32::MIN, i32::MIN)));
    t.plan_sends((0, 0), 1);
    assert!(t.sent_fit_i32((100, 100)));
    assert!(!t.sent_fit_i32((i32::MIN, 0)));
}
