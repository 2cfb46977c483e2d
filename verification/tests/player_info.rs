use mc_protocol::clientbound::play::{
    GameProfile, GameProfileProperty, PlayerInfoAction, PlayerInfoEntry, PlayerInfoUpsert,
};
use mc_protocol::common::bit_set::BitSet;

fn actions(bits: &[i32]) -> BitSet {
    let mut set = BitSet::value_of(vec![]).unwrap();
    for b in bits {
        set.set(*b).unwrap();
    }
    set
}

fn full_entry(id: u128) -> PlayerInfoEntry {
    let mut e = PlayerInfoEntry::new(id);
    e.profile = Some(GameProfile {
        id,
        name: "Steve".to_string(),
        properties: vec![GameProfileProperty {
            name: "textures".to_string(),
            value: "v".to_string(),
            signature: Some("s".to_string()),
        }],
    });
    e.game_mode = Some(1);
    e.listed = Some(true);
    e.latency = Some(120);
    e
}

#[test]
fn actions_roundtrip_through_decode() {
    let set = actions(&[0, 2, 3, 4, 5]);
    let entry = full_entry(11);
    let mut out = Vec::new();
    PlayerInfoAction::encode(&set, &entry, &mut out).unwrap();
    let mut back = PlayerInfoEntry::new(11);
    let end = PlayerInfoAction::decode(&set, &mut back, &out, 0).unwrap();
    assert_eq!(end, out.len());
    let p = back.profile.unwrap();
    assert_eq!(p.id, 11);
    assert_eq!(p.name, "Steve");
    assert_eq!(p.properties[0].signature.as_deref(), Some("s"));
    assert_eq!(back.game_mode, Some(1));
    assert_eq!(back.listed, Some(true));
    assert_eq!(back.latency, Some(120));
    assert!(back.display_name.is_none());
    assert!(back.chat_session.is_none());
}

#[test]
fn missing_section_is_refused() {
    let set = actions(&[1]);
    let entry = PlayerInfoEntry::new(1);
    let err = PlayerInfoAction::encode(&set, &entry, &mut Vec::new()).unwrap_err();
    assert_eq!(err.message(), "Missing chat session with initialize chat bit set.");
}

#[test]
fn upsert_roundtrip() {
    let upsert = PlayerInfoUpsert { actions: actions(&[2, 4]), entries: vec![full_entry(1), full_entry(2)] };
    let mut out = Vec::new();
    upsert.encode(&mut out).unwrap();
    assert_eq!(out[0], 0b10100);
    assert_eq!(out[1], 2);
    assert_eq!(upsert.size().unwrap(), out.len());
    let (back, end) = PlayerInfoUpsert::decode(&out, 0).unwrap();
    assert_eq!(end, out.len());
    assert_eq!(back.entries.len(), 2);
    assert_eq!(back.entries[1].profile_id, 2);
    assert_eq!(back.entries[1].latency, Some(120));
    assert!(back.entries[1].profile.is_none());
}

#[test]
fn sections_before_a_refusal_stay_written() {
    let set = actions(&[0, 2]);
    let mut entry = full_entry(3);
    entry.game_mode = None;
    let mut out = vec![7];
    let err = PlayerInfoAction::encode(&set, &entry, &mut out).unwrap_err();
    assert_eq!(err.message(), "Missing game mode with update game mode bit set.");
    let mut expected = vec![7, 5];
    expected.extend_from_slice(b"Steve");
    expected.push(1);
    expected.push(8);
    expected.extend_from_slice(b"textures");
    expected.extend_from_slice(&[1, b'v', 1, 1, b's']);
    assert_eq!(out, expected);
}
