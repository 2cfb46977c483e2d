use mc_protocol::clientbound::play::{
    DisplayInfoFlags, EquipmentSlot, RecipeBookSetting, RecipeBookSettings, RecipeBookType,
};
use mc_protocol::common::bit_set::{BitSet, FixedBitSet};
use mc_protocol::common::chat::{Chat, ClickEvent, Style};
use mc_protocol::common::registry::{GlobalRegistry, Registry, RegistryItem, RegistryKey};
use mc_protocol::encoding::{frame_packet, ProtocolVersion};
use mc_protocol::protocol::play::Identifier;

fn item(key: &str, idx: i32) -> RegistryItem {
    RegistryItem { key: key.to_string(), idx }
}

#[test]
fn registry_lookups_both_ways() {
    let mut r = Registry::new();
    r.register("minecraft:stone".to_string(), 1);
    r.register("minecraft:dirt".to_string(), 3);
    assert_eq!(r.get_id("minecraft:stone"), Some(1));
    assert_eq!(r.get_key(3).as_deref(), Some("minecraft:dirt"));
    assert_eq!(r.get_id("minecraft:air"), None);
    r.register("minecraft:stone".to_string(), 5);
    assert_eq!(r.get_id("minecraft:stone"), Some(5));
    assert_eq!(r.get::<String>("minecraft:dirt".to_string()), Some(3));
    assert_eq!(r.get::<i32>(3).as_deref(), Some("minecraft:dirt"));
}

#[test]
fn global_registry_by_key() {
    let g = GlobalRegistry::create(vec![item("a", 0)], vec![item("b", 1)], vec![item("c", 2)]);
    assert_eq!(g.get_id(RegistryKey::Items, "c"), Some(2));
    assert_eq!(g.get_key(RegistryKey::BlockStates, 1).as_deref(), Some("b"));
    assert_eq!(g.get_id(RegistryKey::Blocks, "c"), None);
    assert_eq!(RegistryKey::Blocks.global(&g, "a".to_string()), Some(0));
}

#[test]
fn bit_set_set_get_clear() {
    let mut set = BitSet::value_of(vec![]).unwrap();
    set.set(40).unwrap();
    set.set(3).unwrap();
    assert!(set.get(40).unwrap());
    assert!(!set.get(4).unwrap());
    assert_eq!(set.to_long_array(), vec![(1 << 40) | (1 << 3)]);
    set.clear(40).unwrap();
    assert_eq!(set.to_long_array(), vec![1 << 3]);
    // Clearing the last set bit leaves the words in use as they were, which the
    // consistency check then refuses.
    assert!(set.clear(3).is_err());
    let set = BitSet::value_of(vec![0x0102]).unwrap();
    assert_eq!(set.to_byte_array().unwrap(), vec![0x02, 0x01]);
    let back = BitSet::from_bytes(&[0x02, 0x01]).unwrap();
    assert_eq!(back.to_long_array(), vec![0x0102]);
}

#[test]
fn fixed_bit_set_bytes() {
    let set = BitSet::value_of(vec![0b101]).unwrap();
    let mut out = Vec::new();
    FixedBitSet::<6>::encode(&set, &mut out).unwrap();
    assert_eq!(out, vec![0b101]);
    let (back, end) = FixedBitSet::<6>::decode(&out, 0).unwrap();
    assert_eq!(end, 1);
    assert!(back.get(2).unwrap());
    assert_eq!(FixedBitSet::<6>::size(&set), 1);
}

#[test]
fn chat_builders() {
    let mut c = Chat::text("hello".to_string());
    c.push_extra(Chat::literal("world".to_string()));
    c.click_event(ClickEvent::run_command("/help".to_string()));
    match &c {
        Chat::Text { base, .. } => {
            assert_eq!(base.extra.as_ref().unwrap().len(), 1);
            assert!(base.click_event.is_some());
        }
        _ => panic!("text"),
    }
    c.modify_style(|mut s: Style| {
        s.bold = Some(true);
        s
    });
    match &c {
        Chat::Text { base, .. } => assert_eq!(base.style.bold, Some(true)),
        _ => panic!("text"),
    }
    c.clear_extra();
    match &c {
        Chat::Text { base, .. } => assert!(base.extra.is_none()),
        _ => panic!("text"),
    }
    let from: Chat = Chat::from("x".to_string());
    assert!(matches!(from, Chat::Text { ref text, .. } if text == "x"));
    let mut lit = Chat::literal("l".to_string());
    lit.push_extra(Chat::literal("ignored".to_string()));
    assert!(matches!(lit, Chat::Literal(ref l) if l == "l"));
}

#[test]
fn identifier_and_versions() {
    assert_eq!(Identifier::new("stone".to_string()).data, "minecraft:stone");
    assert_eq!(ProtocolVersion::from_varint(758), Some(ProtocolVersion::V118R2));
    assert_eq!(ProtocolVersion::from_varint(760), None);
    let (n, name) = ProtocolVersion::V118R1.to_spec();
    assert_eq!((n, name.as_str()), (757, "1.18.1"));
}

#[test]
fn frames_with_and_without_compression() {
    let body = vec![1, 2, 3];
    assert_eq!(frame_packet(3, &body, None).unwrap(), vec![3, 1, 2, 3]);
    assert_eq!(frame_packet(3, &body, Some(256)).unwrap(), vec![4, 3, 1, 2, 3]);
    let big = vec![7u8; 300];
    let framed = frame_packet(300, &big, Some(256)).unwrap();
    let mut decoder = flate2::read::ZlibDecoder::new(&framed[3..]);
    let mut plain = Vec::new();
    std::io::Read::read_to_end(&mut decoder, &mut plain).unwrap();
    assert_eq!(plain, big);
    assert_eq!(&framed[1..3], &[0xac, 0x02]);
}

#[test]
fn equipment_slots_and_recipe_books() {
    assert_eq!(EquipmentSlot::from_ordinal(EquipmentSlot::Head.ordinal()), EquipmentSlot::Head);
    let mut settings = RecipeBookSettings::new();
    for book in [RecipeBookType::Crafting, RecipeBookType::Furnace, RecipeBookType::BlastFurnace, RecipeBookType::Smoker] {
        settings.insert(book, RecipeBookSetting { open: true, filtering: book == RecipeBookType::Smoker });
    }
    let mut out = Vec::new();
    settings.encode(&mut out).unwrap();
    assert_eq!(out, vec![1, 0, 1, 0, 1, 0, 1, 1]);
    assert_eq!(settings.size(), 8);
    let (back, end) = RecipeBookSettings::decode(&out, 0).unwrap();
    assert_eq!(end, 8);
    let mut again = Vec::new();
    back.encode(&mut again).unwrap();
    assert_eq!(again, out);
    let partial = RecipeBookSettings::new();
    assert_eq!(
        partial.encode(&mut Vec::new()).unwrap_err().message(),
        "Missing recipe book setting for variant: Crafting"
    );
}

#[test]
fn display_info_flags_roundtrip() {
    let flags = DisplayInfoFlags { show_toast: true, hidden: false, background: Some("bg".to_string()) };
    let mut out = Vec::new();
    flags.encode(&mut out).unwrap();
    assert_eq!(out, vec![0, 0, 0, 3, 2, b'b', b'g']);
    assert_eq!(flags.size(), out.len());
    let (back, end) = DisplayInfoFlags::decode(&out, 0).unwrap();
    assert_eq!(end, out.len());
    assert!(back.show_toast && !back.hidden);
    assert_eq!(back.background.as_deref(), Some("bg"));
}
