use mc_protocol::codec::TransportError;
use mc_protocol::common::command::{
    ArgumentTypeInfo, CommandEntry, CommandNode, DoubleArgumentInfo, FloatArgumentInfo,
    IntegerArgumentInfo, LongArgumentInfo, StringArgumentType,
};

fn entry(flags: i8, redirect: i32, children: Vec<i32>) -> CommandEntry {
    CommandEntry { flags, redirect, children }
}

#[test]
fn root_node_bytes() {
    let node = CommandNode::Root { entry: entry(0, 0, vec![1, 2]) };
    let mut out = Vec::new();
    node.encode(&mut out).unwrap();
    assert_eq!(out, vec![0, 2, 1, 2]);
    assert_eq!(node.size(), 4);
    let (back, end) = CommandNode::decode(&out, 0).unwrap();
    assert_eq!(end, 4);
    match back {
        CommandNode::Root { entry } => {
            assert_eq!(entry.flags, 0);
            assert_eq!(entry.children, vec![1, 2]);
            assert_eq!(entry.redirect, 0);
        }
        _ => panic!("expected a root"),
    }
}

#[test]
fn literal_node_with_redirect() {
    let node = CommandNode::Literal { entry: entry(1 | 8, 300, vec![]), literal: "tp".to_string() };
    let mut out = Vec::new();
    node.encode(&mut out).unwrap();
    assert_eq!(out, vec![9, 0, 0xac, 0x02, 2, b't', b'p']);
    assert_eq!(node.size(), out.len());
    match CommandNode::decode(&out, 0).unwrap() {
        (CommandNode::Literal { entry, literal }, 7) => {
            assert_eq!(entry.redirect, 300);
            assert_eq!(literal, "tp");
        }
        _ => panic!("expected a literal"),
    }
}

#[test]
fn argument_node_with_suggestions() {
    let node = CommandNode::Argument {
        entry: entry(2 | 16, 0, vec![5]),
        argument_id: "count".to_string(),
        argument_type_info: ArgumentTypeInfo::Integer {
            argument_type: IntegerArgumentInfo::MinMax { min: -1, max: 64 },
        },
        resource_location: Some("ask_server".to_string()),
    };
    let mut out = Vec::new();
    node.encode(&mut out).unwrap();
    let mut expected = vec![18, 1, 5, 5];
    expected.extend_from_slice(b"count");
    expected.push(3);
    expected.push(3);
    expected.extend_from_slice(&(-1i32).to_be_bytes());
    expected.extend_from_slice(&64i32.to_be_bytes());
    expected.push(10);
    expected.extend_from_slice(b"ask_server");
    assert_eq!(out, expected);
    assert_eq!(node.size(), out.len());
    match CommandNode::decode(&out, 0).unwrap() {
        (
            CommandNode::Argument { argument_id, argument_type_info, resource_location, .. },
            end,
        ) => {
            assert_eq!(end, out.len());
            assert_eq!(argument_id, "count");
            assert!(matches!(
                argument_type_info,
                ArgumentTypeInfo::Integer { argument_type: IntegerArgumentInfo::MinMax { min: -1, max: 64 } }
            ));
            assert_eq!(resource_location.as_deref(), Some("ask_server"));
        }
        _ => panic!("expected an argument"),
    }
}

#[test]
fn node_kind_three_is_refused() {
    assert_eq!(
        CommandNode::decode(&[3, 0], 0).map(|x| x.1),
        Err(TransportError::Explain("Invalid command node type 3".to_string()))
    );
}

#[test]
fn argument_types_roundtrip() {
    let cases = vec![
        (ArgumentTypeInfo::Bool, vec![0]),
        (ArgumentTypeInfo::Float { argument_type: FloatArgumentInfo::Min { min: 1.5f32.to_bits() } }, {
            let mut v = vec![1, 1];
            v.extend_from_slice(&1.5f32.to_bits().to_be_bytes());
            v
        }),
        (ArgumentTypeInfo::Double { argument_type: DoubleArgumentInfo::Max { max: 2.0f64.to_bits() } }, {
            let mut v = vec![2, 2];
            v.extend_from_slice(&2.0f64.to_bits().to_be_bytes());
            v
        }),
        (ArgumentTypeInfo::Long { argument_type: LongArgumentInfo::NoMinMax }, vec![4, 0]),
        (ArgumentTypeInfo::String { argument_type: StringArgumentType::GreedyPhrase }, vec![5, 2]),
        (ArgumentTypeInfo::Entity { mask: 3 }, vec![6, 3]),
        (ArgumentTypeInfo::ScoreHolder { multiple: true }, vec![29, 1]),
        (ArgumentTypeInfo::Resource { resource_location: "a".to_string() }, vec![44, 1, b'a']),
        (ArgumentTypeInfo::Uuid, vec![48]),
    ];
    for (arg, bytes) in cases {
        let mut out = Vec::new();
        arg.encode(&mut out).unwrap();
        assert_eq!(out, bytes);
        assert_eq!(arg.size(), bytes.len());
        let (back, end) = ArgumentTypeInfo::decode(&bytes, 0).unwrap();
        assert_eq!(end, bytes.len());
        assert_eq!(back.key(), arg.key());
    }
    assert!(ArgumentTypeInfo::decode(&[49], 0).is_err());
    assert!(ArgumentTypeInfo::decode(&[5, 3], 0).is_err());
}

#[test]
fn bounds_key_low_bits_select_fields() {
    // A key of 5 has low bits 01: only a minimum follows.
    let mut bytes = vec![5];
    bytes.extend_from_slice(&7i32.to_be_bytes());
    assert_eq!(IntegerArgumentInfo::decode(&bytes, 0).unwrap(), (IntegerArgumentInfo::Min { min: 7 }, 5));
    assert_eq!(IntegerArgumentInfo::decode(&bytes[..3], 0).map(|x| x.1), Err(TransportError::EndOfInput));
}
