use mc_protocol::codec::TransportError;
use mc_protocol::common::play::BlockPos;
use mc_protocol::protocol::play::cb;
use mc_protocol::protocol::play::sb::{
    ChangeDifficulty, ContainerButtonClick, ContainerClose, GroundPlayer, KeepAlive,
    LockDifficulty, PaddleBoat, PlaceRecipe, PluginMessage, ProgramJigsawBlock, RenameItem,
    SetHeldItem, SetSeenRecipe, UpdateSign,
};
use mc_protocol::protocol::play::Identifier;

fn id(s: &str) -> Identifier {
    Identifier { data: s.to_string() }
}

#[test]
fn byte_packets_encode_and_decode() {
    let mut out = Vec::new();
    ChangeDifficulty { difficulty: 2 }.encode(&mut out);
    ContainerButtonClick { window_id: 1, button_id: 5 }.encode(&mut out);
    ContainerClose { window_id: 9 }.encode(&mut out);
    assert_eq!(out, vec![2, 1, 5, 9]);
    assert_eq!(ChangeDifficulty::decode(&out, 0), Ok((ChangeDifficulty { difficulty: 2 }, 1)));
    assert_eq!(
        ContainerButtonClick::decode(&out, 1),
        Ok((ContainerButtonClick { window_id: 1, button_id: 5 }, 3))
    );
    assert_eq!(ContainerClose::decode(&out, 3), Ok((ContainerClose { window_id: 9 }, 4)));
    assert_eq!(ContainerClose::decode(&out, 4), Err(TransportError::EndOfInput));
    assert_eq!(ContainerButtonClick::decode(&[7], 0), Err(TransportError::EndOfInput));
}

#[test]
fn boolean_packets_read_any_nonzero_byte_as_true() {
    let mut out = Vec::new();
    LockDifficulty { locked: true }.encode(&mut out);
    GroundPlayer { on_ground: false }.encode(&mut out);
    PaddleBoat { left: false, right: true }.encode(&mut out);
    assert_eq!(out, vec![1, 0, 0, 1]);
    assert_eq!(LockDifficulty::decode(&[7], 0), Ok((LockDifficulty { locked: true }, 1)));
    assert_eq!(GroundPlayer::decode(&[0], 0), Ok((GroundPlayer { on_ground: false }, 1)));
    assert_eq!(PaddleBoat::decode(&[2, 0], 0), Ok((PaddleBoat { left: true, right: false }, 2)));
    assert_eq!(PaddleBoat::decode(&[1], 0), Err(TransportError::EndOfInput));
}

#[test]
fn integer_packets_are_big_endian() {
    let mut out = Vec::new();
    KeepAlive { id: -2 }.encode(&mut out);
    assert_eq!(out, vec![0xff, 0xff, 0xff, 0xff, 0xff, 0xff, 0xff, 0xfe]);
    assert_eq!(KeepAlive::decode(&out, 0), Ok((KeepAlive { id: -2 }, 8)));
    let mut out = Vec::new();
    SetHeldItem { slot: 258 }.encode(&mut out);
    SetHeldItem { slot: -1 }.encode(&mut out);
    assert_eq!(out, vec![1, 2, 0xff, 0xff]);
    assert_eq!(SetHeldItem::decode(&out, 2), Ok((SetHeldItem { slot: -1 }, 4)));
    let mut out = Vec::new();
    cb::KeepAlive { id: 0x0102_0304_0506_0708 }.encode(&mut out);
    assert_eq!(out, vec![1, 2, 3, 4, 5, 6, 7, 8]);
    assert_eq!(cb::KeepAlive::decode(&out, 0), Ok((cb::KeepAlive { id: 0x0102_0304_0506_0708 }, 8)));
    let times = cb::SetTitleAnimationTimes { fade_in: 10, stay: 70, fade_out: -20 };
    let mut out = Vec::new();
    times.encode(&mut out);
    assert_eq!(out, vec![0, 0, 0, 10, 0, 0, 0, 70, 0xff, 0xff, 0xff, 0xec]);
    assert_eq!(cb::SetTitleAnimationTimes::decode(&out, 0), Ok((times, 12)));
    assert_eq!(cb::SetTitleAnimationTimes::decode(&out[..11], 0), Err(TransportError::EndOfInput));
}

#[test]
fn plugin_messages_carry_the_rest_as_data() {
    let m = PluginMessage { channel: id("minecraft:brand"), data: vec![1, 2, 3] };
    let mut out = Vec::new();
    m.encode(&mut out).unwrap();
    let mut expected = vec![15];
    expected.extend_from_slice(b"minecraft:brand");
    expected.extend_from_slice(&[1, 2, 3]);
    assert_eq!(out, expected);
    let back = PluginMessage::decode(&out, 0).unwrap();
    assert_eq!(back.channel.data, "minecraft:brand");
    assert_eq!(back.data, vec![1, 2, 3]);

    let m = cb::PluginMessage { identifier: "x:y".to_string(), data: vec![] };
    let mut out = Vec::new();
    m.encode(&mut out).unwrap();
    assert_eq!(out, vec![3, b'x', b':', b'y']);
    let back = cb::PluginMessage::decode(&out, 0).unwrap();
    assert_eq!(back.identifier, "x:y");
    assert!(back.data.is_empty());
}

#[test]
fn recipe_packets() {
    let p = PlaceRecipe { id: 3, recipe: id("a:b"), shift_down: true };
    let mut out = Vec::new();
    p.encode(&mut out).unwrap();
    assert_eq!(out, vec![3, 3, b'a', b':', b'b', 1]);
    let (back, q) = PlaceRecipe::decode(&out, 0).unwrap();
    assert_eq!((back.id, back.recipe.data.as_str(), back.shift_down, q), (3, "a:b", true, 6));
    assert_eq!(PlaceRecipe::decode(&out[..5], 0).unwrap_err(), TransportError::EndOfInput);

    let mut out = Vec::new();
    SetSeenRecipe { recipe_id: id("c:d") }.encode(&mut out).unwrap();
    let (back, q) = SetSeenRecipe::decode(&out, 0).unwrap();
    assert_eq!((back.recipe_id.data.as_str(), q), ("c:d", 4));
}

#[test]
fn rename_item_limits_the_name() {
    let mut out = vec![9];
    let long = RenameItem { name: "a".repeat(32768) };
    assert_eq!(long.encode(&mut out), Err(TransportError::LimitExceeded(32767, 32768)));
    assert_eq!(out, vec![9]);
    RenameItem { name: "Sword".to_string() }.encode(&mut out).unwrap();
    let (back, q) = RenameItem::decode(&out, 1).unwrap();
    assert_eq!((back.name.as_str(), q), ("Sword", 7));
}

#[test]
fn sign_updates_roundtrip_and_limit_lines() {
    let sign = UpdateSign {
        location: BlockPos { x: -5, y: 64, z: 12 },
        line1: "one".to_string(),
        line2: String::new(),
        line3: "three".to_string(),
        line4: "four".to_string(),
    };
    let mut out = Vec::new();
    sign.encode(&mut out).unwrap();
    assert_eq!(out.len(), 8 + 4 + 1 + 6 + 5);
    let (back, q) = UpdateSign::decode(&out, 0).unwrap();
    assert_eq!(back.location, sign.location);
    assert_eq!(
        (back.line1.as_str(), back.line2.as_str(), back.line3.as_str(), back.line4.as_str()),
        ("one", "", "three", "four")
    );
    assert_eq!(q, out.len());

    let too_long = UpdateSign { line2: "x".repeat(385), ..sign };
    let mut out = Vec::new();
    assert_eq!(too_long.encode(&mut out), Err(TransportError::LimitExceeded(384, 385)));
    assert!(out.is_empty());
}

#[test]
fn jigsaw_blocks_roundtrip() {
    let block = ProgramJigsawBlock {
        location: BlockPos { x: 1, y: -2, z: 3 },
        name: id("minecraft:bottom"),
        target: id("minecraft:top"),
        pool: id("minecraft:empty"),
        final_state: "minecraft:stone".to_string(),
        joint_type: "rollable".to_string(),
    };
    let mut out = Vec::new();
    block.encode(&mut out).unwrap();
    let (back, q) = ProgramJigsawBlock::decode(&out, 0).unwrap();
    assert_eq!(back.location, block.location);
    assert_eq!(back.name.data, "minecraft:bottom");
    assert_eq!(back.target.data, "minecraft:top");
    assert_eq!(back.pool.data, "minecraft:empty");
    assert_eq!(back.final_state, "minecraft:stone");
    assert_eq!(back.joint_type, "rollable");
    assert_eq!(q, out.len());
    assert!(ProgramJigsawBlock::decode(&out[..out.len() - 1], 0).is_err());
}
