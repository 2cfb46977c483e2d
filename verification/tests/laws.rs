use mc_protocol::clientbound::play::{GameProfile, PlayerInfoAction, PlayerInfoEntry};
use mc_protocol::common::bit_set::BitSet;
use mc_protocol::common::chunk::Chunk;
use mc_protocol::common::command::{ArgumentTypeInfo, CommandEntry, CommandNode, IntegerArgumentInfo};
use mc_protocol::protocol::bit_storage::BitStorage;

#[test]
fn byte_arrays_roundtrip_through_a_bit_set_without_trailing_zeros() {
    let bytes = vec![1u8, 0, 0, 0, 0, 0, 0, 0, 0x80, 7, 0, 0];
    let set = BitSet::from_bytes(&bytes).unwrap();
    assert_eq!(set.to_byte_array().unwrap(), vec![1u8, 0, 0, 0, 0, 0, 0, 0, 0x80, 7]);
    assert_eq!(set.to_long_array(), vec![1u64, 0x0780]);
    let again = BitSet::value_of(set.to_long_array()).unwrap();
    assert_eq!(again.to_long_array(), set.to_long_array());
}

#[test]
fn a_write_changes_only_its_own_field() {
    let mut s = BitStorage::new(14, 5);
    assert_eq!(s.get_and_set(12, 7).unwrap(), 0);
    assert_eq!(s.get_and_set(11, 1).unwrap(), 0);
    assert_eq!(s.get_raw(), vec![36028797018963968, 7]);
    assert_eq!(s.get(12).unwrap(), 7);
    assert_eq!(s.get_and_set(12, 3).unwrap(), 7);
    assert_eq!(s.get_raw(), vec![36028797018963968, 3]);
}

#[test]
fn fresh_chunks_have_zeroed_height_maps() {
    let c = Chunk::new(3, -4);
    let ws = c.height_maps.world_surface.get_raw();
    let mb = c.height_maps.motion_blocking.get_raw();
    assert_eq!(ws.len(), 37);
    assert_eq!(mb.len(), 37);
    assert!(ws.iter().chain(mb.iter()).all(|w| *w == 0));
}

#[test]
fn player_info_sizes_count_long_names_in_full() {
    let mut set = BitSet::value_of(vec![]).unwrap();
    set.set(0).unwrap();
    let mut e = PlayerInfoEntry::new(1);
    let name = "n".repeat(200_000);
    e.profile = Some(GameProfile { id: 1, name, properties: vec![] });
    let size = PlayerInfoAction::size(&set, &e).unwrap();
    assert_eq!(size, 16 + 3 + 200_000 + 1);
    assert!(PlayerInfoAction::encode(&set, &e, &mut Vec::new()).is_err());
}

#[test]
fn command_nodes_read_back_as_written() {
    let node = CommandNode::Argument {
        entry: CommandEntry { flags: 2 | 8 | 16, redirect: 5, children: vec![1, 300] },
        argument_id: "count".to_string(),
        argument_type_info: ArgumentTypeInfo::Integer {
            argument_type: IntegerArgumentInfo::MinMax { min: -3, max: 64 },
        },
        resource_location: Some("minecraft:ask_server".to_string()),
    };
    let mut out = Vec::new();
    node.encode(&mut out).unwrap();
    let (back, end) = CommandNode::decode(&out, 0).unwrap();
    assert_eq!(end, out.len());
    match back {
        CommandNode::Argument { entry, argument_id, argument_type_info, resource_location } => {
            assert_eq!((entry.flags, entry.redirect, entry.children), (2 | 8 | 16, 5, vec![1, 300]));
            assert_eq!(argument_id, "count");
            assert!(matches!(
                argument_type_info,
                ArgumentTypeInfo::Integer { argument_type: IntegerArgumentInfo::MinMax { min: -3, max: 64 } }
            ));
            assert_eq!(resource_location.as_deref(), Some("minecraft:ask_server"));
        }
        _ => panic!("expected an argument node"),
    }
}
