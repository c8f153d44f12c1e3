use mc_blackhole::world::chunk::{determine_chunk_seed, Chunk, Section};
use mc_blackhole::world::palette::PaletteBlockKind;

#[test]
fn section_packs_sixteen_slots_per_word() {
    let mut s = Section::new();
    assert_eq!(Section::entries_per_long(), 16);
    assert_eq!(Section::mask(), 15);
    assert_eq!(Section::entry_index(1, 2, 3), 1 + 3 * 16 + 2 * 256);
    s.set_block(1, 2, 3, 9);
    assert_eq!(s.get_block(1, 2, 3), 9);
    assert_eq!(s.get_at_index(Section::entry_index(1, 2, 3)), 9);
    assert_eq!(s.get_block(0, 2, 3), 0);
    s.set_at_index(4095, 15);
    assert_eq!(s.get_block(15, 15, 15), 15);
    s.set_block(1, 2, 3, 0x13);
    assert_eq!(s.get_block(1, 2, 3), 3);
}

#[test]
fn chunk_get_after_set() {
    let mut c = Chunk::new(3, -4);
    assert_eq!(Chunk::get_height_difference(), 64);
    assert_eq!(c.get_block_local(0, -64, 0), PaletteBlockKind::Air);
    c.set_block_local(5, 100, 7, PaletteBlockKind::GoldBlock);
    c.set_block_local(0, -64, 15, PaletteBlockKind::Bedrock);
    c.set_block_local(15, 319, 0, PaletteBlockKind::Dirt);
    assert_eq!(c.get_block_local(5, 100, 7), PaletteBlockKind::GoldBlock);
    assert_eq!(c.get_block_local(0, -64, 15), PaletteBlockKind::Bedrock);
    assert_eq!(c.get_block_local(15, 319, 0), PaletteBlockKind::Dirt);
    assert_eq!(c.get_block_local(5, 101, 7), PaletteBlockKind::Air);
    c.set_block_local(5, 100, 7, PaletteBlockKind::Air);
    assert_eq!(c.get_block_local(5, 100, 7), PaletteBlockKind::Air);
}

#[test]
fn chunk_encoding_layout() {
    let c = Chunk::new(1, 2);
    let body = c.encode().unwrap().to_vec();
    // chunk x and z, big-endian, then no heightmaps
    assert_eq!(&body[..9], &[0, 0, 0, 1, 0, 0, 0, 2, 0]);
    // each section: block count, bits, palette of 16 ids, 256 words, biome
    let palette_len: usize = PaletteBlockKind::entries()
        .iter()
        .map(|e| {
            let mut b = mc_blackhole::proto::packet_bytes::PacketBytes::new();
            b.put_var_int(e.0).unwrap();
            b.len()
        })
        .sum();
    let section = 2 + 1 + 1 + palette_len + 256 * 8 + 1 + 1;
    let data = 24 * section;
    // the data length as a VarInt
    let mut len = mc_blackhole::proto::packet_bytes::PacketBytes::new();
    len.put_var_int(data as i32).unwrap();
    let light = 1 + 8 + 1 + 1 + 1 + 1 + 26 * (2 + 2048) + 1;
    assert_eq!(body.len(), 9 + len.len() + data + 1 + light);
    // the first section starts with 4096 blocks at 4 bits each
    assert_eq!(&body[9 + len.len()..9 + len.len() + 4], &[0x10, 0x00, 4, 16]);
}

#[test]
fn chunk_encoding_reflects_blocks() {
    let mut c = Chunk::new(0, 0);
    let before = c.encode().unwrap().to_vec();
    c.set_block_local(0, -64, 0, PaletteBlockKind::Stone);
    let after = c.encode().unwrap().to_vec();
    assert_eq!(before.len(), after.len());
    assert_ne!(before, after);
}

#[test]
fn chunk_seed_is_deterministic() {
    let a = determine_chunk_seed(69420, 1, 2);
    assert_eq!(a, determine_chunk_seed(69420, 1, 2));
    assert_ne!(a, determine_chunk_seed(69420, 2, 1));
    assert_ne!(a, determine_chunk_seed(69421, 1, 2));
}

#[test]
fn palette_ids_and_slots() {
    assert_eq!(PaletteBlockKind::Air.as_minecraft_id(), 0);
    assert_eq!(PaletteBlockKind::Stone.as_minecraft_id(), 1);
    assert_eq!(PaletteBlockKind::Bedrock.as_minecraft_id(), 85);
    assert_eq!(PaletteBlockKind::Air.as_palette_index(), 0);
    for i in 0..16u64 {
        assert_eq!(PaletteBlockKind::from_palette_index(i).as_palette_index(), i);
    }
    assert_eq!(PaletteBlockKind::entries().len(), 16);
}

#[test]
fn section_reads_stay_below_sixteen() {
    let mut s = Section::new();
    s.set_block(15, 15, 15, 0xFF);
    assert_eq!(s.get_block(15, 15, 15), 15);
    s.set_block(0, 0, 0, 0x1A);
    assert_eq!(s.get_block(0, 0, 0), 0xA);
    assert_eq!(s.get_block(15, 15, 15), 15);
    for y in 0..16 {
        assert!(s.get_block(3, y, 7) < 16);
    }
}
