use mc_protocol::common::chunk::{Chunk, Strategy};
use mc_protocol::common::play::{ceil_log_2, BlockPos, BlockUpdate, MapColorPatch, SectionPos};
use mc_protocol::protocol::bit_storage::BitStorage;
use mc_protocol::protocol::play::{GameType, PlayerAbilitiesBitMap, RelativeArgument};

#[test]
fn ceil_log_2_values() {
    assert_eq!(ceil_log_2(1), 0);
    assert_eq!(ceil_log_2(2), 1);
    assert_eq!(ceil_log_2(3), 2);
    assert_eq!(ceil_log_2(16), 4);
    assert_eq!(ceil_log_2(17), 5);
    assert_eq!(ceil_log_2(30000000), 25);
    assert_eq!(mc_protocol::protocol::play::ceil_log_2(64), 6);
}

#[test]
fn block_pos_packing() {
    let p = BlockPos { x: -1, y: 64, z: 5 };
    let v = p.as_long();
    assert_eq!(BlockPos::from_long(v), p);
    assert_eq!(BlockPos { x: 1, y: 0, z: 0 }.as_long(), 1i64 << 38);
    assert_eq!(BlockPos { x: 0, y: 0, z: 1 }.as_long(), 1i64 << 12);
    assert_eq!(BlockPos { x: 0, y: -1, z: 0 }.as_long(), 0xFFF);
    let mut out = Vec::new();
    p.encode(&mut out);
    assert_eq!(out.len(), 8);
    assert_eq!(BlockPos::decode(&out, 0).unwrap(), (p, 8));
    assert_eq!(p.size(), 8);
}

#[test]
fn section_pos_roundtrip() {
    let p = SectionPos { x: 100, y: 3, z: 7 };
    let mut out = Vec::new();
    p.encode(&mut out);
    assert_eq!(SectionPos::decode(&out, 0).unwrap(), (p, 8));
}

#[test]
fn block_update_keeps_low_bits() {
    let u = BlockUpdate { block_id: 9, block_pos: BlockPos { x: 3, y: 15, z: 2 } };
    let mut out = Vec::new();
    u.encode(&mut out);
    assert_eq!(out.len(), u.size());
    let (back, end) = BlockUpdate::decode(&out, 0).unwrap();
    assert_eq!(end, out.len());
    assert_eq!(back.block_id, 9);
    assert_eq!(back.block_pos, BlockPos { x: 3, y: 15, z: 2 });
}

#[test]
fn map_color_patch_roundtrip() {
    let patch = MapColorPatch::Present { width: 2, height: 1, start_x: 0, start_y: 4, map_colors: vec![7, 8] };
    let mut out = Vec::new();
    patch.encode(&mut out);
    assert_eq!(out, vec![2, 1, 0, 4, 2, 7, 8]);
    assert_eq!(patch.size(), out.len());
    match MapColorPatch::decode(&out, 0).unwrap() {
        (MapColorPatch::Present { width, map_colors, .. }, 7) => {
            assert_eq!(width, 2);
            assert_eq!(map_colors, vec![7, 8]);
        }
        _ => panic!("expected a patch"),
    }
    let mut absent = Vec::new();
    MapColorPatch::Absent.encode(&mut absent);
    assert_eq!(absent, vec![0]);
    assert!(matches!(MapColorPatch::decode(&absent, 0).unwrap(), (MapColorPatch::Absent, 1)));
}

#[test]
fn game_type_and_abilities() {
    let mut out = Vec::new();
    GameType::Unset.encode(&mut out);
    GameType::Creative.encode(&mut out);
    assert_eq!(out, vec![255, 1]);
    assert_eq!(GameType::decode(&out, 0).unwrap(), (GameType::Unset, 1));
    assert!(GameType::decode(&[9], 0).is_err());
    let abilities = PlayerAbilitiesBitMap { invulnerable: true, flying: false, can_fly: true, instant_build: false };
    let mut out = Vec::new();
    abilities.encode(&mut out);
    assert_eq!(out, vec![0b101]);
    assert_eq!(PlayerAbilitiesBitMap::decode(&out, 0).unwrap(), (abilities, 1));
}

#[test]
fn relative_argument_bits() {
    let mut r = RelativeArgument::from_mask(RelativeArgument::X);
    r.set(RelativeArgument::Z | RelativeArgument::Y_ROT);
    assert_eq!(r.current_mask, 13);
    assert!(r.is_set(RelativeArgument::X | RelativeArgument::Z));
    assert!(!r.is_set(RelativeArgument::Y));
}

#[test]
fn bit_storage_packs_entries() {
    let mut s = BitStorage::new(10, 5);
    let range = s.get(10).unwrap_err();
    assert_eq!(range.0, "i32 base 10 is not between 0 and 9.");
    assert_eq!(s.size(), 10);
    assert_eq!(BitStorage::expected_size(10, 5), 1);
    s.set(3, 17).unwrap();
    assert_eq!(s.get(3).unwrap(), 17);
    assert_eq!(s.get(4).unwrap(), 0);
    assert_eq!(s.get_and_set(3, 2).unwrap(), 17);
    assert_eq!(s.get_raw(), vec![2i64 << 15]);
    // The range check leaves the last index out, as it always has.
    assert!(s.get(9).is_err());
    assert!(s.set(0, 32).is_err());
}

#[test]
fn zero_storage_refuses_writes() {
    let mut s = BitStorage::new(0, 0);
    assert!(s.set(0, 0).is_err());
    assert_eq!(s.size(), 0);
}

#[test]
fn chunk_reads_air_and_refuses_outside() {
    let chunk = Chunk::new(2, 3);
    assert_eq!(chunk.get_block_id(0, 0, 0).unwrap(), 0);
    assert_eq!(chunk.get_block_id(0, 10000, 0).unwrap(), 0);
    assert_eq!(Chunk::section_coord_from(-1), -1);
    assert_eq!(Chunk::position_coord_from(-1), -16);
    assert_eq!(Strategy::Section.size(), 4096);
}

#[test]
fn chunk_new_block_needs_resize_which_fails() {
    // Setting a block other than air on a fresh chunk resizes its single-value palette, and the
    // resize's copy trips the storage range check on the last entry.
    let mut chunk = Chunk::new(0, 0);
    assert!(chunk.set_block_id(0, 0, 0, 1).is_err());
    // Air is in the palette already, but a fresh section's storage holds no entries and
    // refuses the write.
    assert!(chunk.set_block_id(0, 0, 0, 0).is_err());
    // Outside the sections the write is refused too.
    assert_eq!(chunk.set_block_id(0, 10000, 0, 1).unwrap_err().0, "Out of range.");
}

#[test]
fn bit_storage_error_messages() {
    let seeded = BitStorage::with_seeded_raw(10, 5, vec![]).unwrap_err();
    assert_eq!(seeded.0, "Invalid bitset seeded raw length of 0, expected 1.");
    let counted = BitStorage::from_reader(&[2], 0, 5, 10).unwrap_err();
    assert_eq!(counted.message(), "Incorrect value length given 1 expected 2.");
    let zero = BitStorage::from_reader(&[1], 0, 0, 10).unwrap_err();
    assert_eq!(zero.message(), "Invalid zero bit storage size.");
    let mut s = BitStorage::new(10, 5);
    assert_eq!(s.get(-7).unwrap_err().0, "i32 base -7 is not between 0 and 9.");
    assert_eq!(s.set(0, 32).unwrap_err().0, "i64 base 32 is not between 0 and 31.");
}
