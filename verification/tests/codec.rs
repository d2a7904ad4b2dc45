use maelstrom_core::EchoBody;
use maelstrom_core::EchoOkBody;
use maelstrom_core::InitOkBody;
use maelstrom_core::Message;
use maelstrom_core::MessageBody;
use maelstrom_core::NodeId;
use maelstrom_core::NodeIdParseError;
use maelstrom_core::codec::DecodeError;
use maelstrom_core::decode::decode_message;
use maelstrom_core::encode::encode_message;

#[test]
fn encode_echo_ok_exact_line() {
    let m = Message {
        src: NodeId::Server(1),
        dest: NodeId::Client(1),
        body: MessageBody::EchoOk(EchoOkBody {
            msg_id: 2,
            in_reply_to: 1,
            echo: String::from("hi"),
        }),
    };
    assert_eq!(
        encode_message(&m),
        "{\"src\":\"n1\",\"dest\":\"c1\",\"body\":{\"type\":\"echo_ok\",\"msg_id\":2,\"in_reply_to\":1,\"echo\":\"hi\"}}"
    );
}

#[test]
fn encode_init_exact_line() {
    let m = Message {
        src: NodeId::Client(1),
        dest: NodeId::Server(1),
        body: MessageBody::Init(maelstrom_core::InitBody {
            msg_id: 1,
            node_id: NodeId::Server(1),
            node_ids: vec![NodeId::Server(1), NodeId::Server(2), NodeId::Server(3)],
        }),
    };
    assert_eq!(
        encode_message(&m),
        "{\"src\":\"c1\",\"dest\":\"n1\",\"body\":{\"type\":\"init\",\"msg_id\":1,\"node_id\":\"n1\",\"node_ids\":[\"n1\",\"n2\",\"n3\"]}}"
    );
}

#[test]
fn decode_init_line() {
    let line =
        "{\"src\":\"c1\",\"dest\":\"n1\",\"body\":{\"type\":\"init\",\"msg_id\":1,\"node_id\":\"n1\",\"node_ids\":[\"n1\",\"n2\",\"n3\"]}}";
    let m = decode_message(line).unwrap();
    assert_eq!(m.src, NodeId::Client(1));
    assert_eq!(m.dest, NodeId::Server(1));
    match m.body {
        MessageBody::Init(b) => {
            assert_eq!(b.msg_id, 1);
            assert_eq!(b.node_id, NodeId::Server(1));
            assert_eq!(
                b.node_ids,
                vec![NodeId::Server(1), NodeId::Server(2), NodeId::Server(3)]
            );
        },
        other => panic!("expected init body, got {:?}", other),
    }
}

#[test]
fn decode_accepts_trailing_newline() {
    let line = "{\"src\":\"c1\",\"dest\":\"n1\",\"body\":{\"type\":\"echo\",\"msg_id\":1,\"echo\":\"hi\"}}\n";
    let m = decode_message(line).unwrap();
    assert_eq!(
        m.body,
        MessageBody::Echo(EchoBody {
            msg_id: 1,
            echo: String::from("hi")
        })
    );
}

#[test]
fn decode_unknown_tag_names_the_tag() {
    let line = "{\"src\":\"c1\",\"dest\":\"n1\",\"body\":{\"type\":\"unknown_kind\",\"msg_id\":1}}";
    match decode_message(line) {
        Err(DecodeError::UnknownTag(t)) => assert_eq!(t, "unknown_kind"),
        other => panic!("expected unknown-tag error, got {:?}", other),
    }
}

#[test]
fn decode_bad_node_id_kinds() {
    let line = "{\"src\":\"x1\",\"dest\":\"n1\",\"body\":{\"type\":\"init_ok\",\"in_reply_to\":1}}";
    match decode_message(line) {
        Err(DecodeError::InvalidNodeId(NodeIdParseError::InvalidNodeType(t))) => {
            assert_eq!(t, "x")
        },
        other => panic!("expected invalid-node-type error, got {:?}", other),
    }
    let line2 = "{\"src\":\"c1\",\"dest\":\"nq\",\"body\":{\"type\":\"init_ok\",\"in_reply_to\":1}}";
    assert_eq!(
        decode_message(line2),
        Err(DecodeError::InvalidNodeId(NodeIdParseError::InvalidIdNumber))
    );
}

#[test]
fn decode_malformed_line() {
    assert_eq!(decode_message("not json"), Err(DecodeError::Malformed));
    assert_eq!(decode_message(""), Err(DecodeError::Malformed));
    assert_eq!(
        decode_message("{\"src\":\"c1\",\"dest\":\"n1\",\"body\":{\"type\":\"echo\",\"msg_id\":true,\"echo\":\"hi\"}}"),
        Err(DecodeError::Malformed)
    );
    assert_eq!(
        decode_message("{\"src\":\"c1\",\"dest\":\"n1\",\"body\":{\"type\":\"echo\",\"msg_id\":1,\"echo\":\"hi\"}}x"),
        Err(DecodeError::Malformed)
    );
}

#[test]
fn decode_encode_roundtrip_all_variants() {
    let lines = vec![
        Message {
            src: NodeId::Client(1),
            dest: NodeId::Server(1),
            body: MessageBody::Init(maelstrom_core::InitBody {
                msg_id: 7,
                node_id: NodeId::Server(1),
                node_ids: vec![NodeId::Server(1), NodeId::Client(2)],
            }),
        },
        Message {
            src: NodeId::Server(1),
            dest: NodeId::Client(1),
            body: MessageBody::InitOk(InitOkBody { in_reply_to: 7 }),
        },
        Message {
            src: NodeId::Client(3),
            dest: NodeId::Server(2),
            body: MessageBody::Echo(EchoBody {
                msg_id: -4,
                echo: String::from("quote \" backslash \\ tab \t fin"),
            }),
        },
        Message {
            src: NodeId::Server(2),
            dest: NodeId::Client(3),
            body: MessageBody::EchoOk(EchoOkBody {
                msg_id: 5,
                in_reply_to: -4,
                echo: String::from("unicode \u{263a} text"),
            }),
        },
    ];
    for m in lines {
        let encoded = encode_message(&m);
        let decoded = decode_message(encoded.as_str()).unwrap();
        assert_eq!(decoded, m);
    }
}

#[test]
fn decode_empty_roster() {
    let line = "{\"src\":\"c1\",\"dest\":\"n1\",\"body\":{\"type\":\"init\",\"msg_id\":1,\"node_id\":\"n1\",\"node_ids\":[]}}";
    let m = decode_message(line).unwrap();
    match m.body {
        MessageBody::Init(b) => assert!(b.node_ids.is_empty()),
        other => panic!("expected init body, got {:?}", other),
    }
}

#[test]
fn decode_control_escapes() {
    let line = "{\"src\":\"c1\",\"dest\":\"n1\",\"body\":{\"type\":\"echo\",\"msg_id\":1,\"echo\":\"a\\u0009b\\nc\"}}";
    let m = decode_message(line).unwrap();
    assert_eq!(
        m.body,
        MessageBody::Echo(EchoBody {
            msg_id: 1,
            echo: String::from("a\tb\nc")
        })
    );
}

#[test]
fn decode_general_unicode_escape() {
    let line = "{\"src\":\"c1\",\"dest\":\"n1\",\"body\":{\"type\":\"echo\",\"msg_id\":1,\"echo\":\"a\\u2603b\"}}";
    let m = decode_message(line).unwrap();
    assert_eq!(
        m.body,
        MessageBody::Echo(EchoBody {
            msg_id: 1,
            echo: String::from("a\u{2603}b")
        })
    );
}

#[test]
fn decode_rejects_lone_surrogate_escape() {
    let line = "{\"src\":\"c1\",\"dest\":\"n1\",\"body\":{\"type\":\"echo\",\"msg_id\":1,\"echo\":\"\\ud800\"}}";
    assert_eq!(decode_message(line), Err(DecodeError::Malformed));
}

#[test]
fn decode_rejects_leading_zero_integer() {
    let line = "{\"src\":\"c1\",\"dest\":\"n1\",\"body\":{\"type\":\"init_ok\",\"in_reply_to\":01}}";
    assert_eq!(decode_message(line), Err(DecodeError::Malformed));
    let line2 = "{\"src\":\"c1\",\"dest\":\"n1\",\"body\":{\"type\":\"init_ok\",\"in_reply_to\":-0}}";
    let m = decode_message(line2).unwrap();
    assert_eq!(
        m.body,
        MessageBody::InitOk(InitOkBody { in_reply_to: 0 })
    );
    let line3 = "{\"src\":\"c1\",\"dest\":\"n1\",\"body\":{\"type\":\"init_ok\",\"in_reply_to\":0}}";
    let m3 = decode_message(line3).unwrap();
    assert_eq!(
        m3.body,
        MessageBody::InitOk(InitOkBody { in_reply_to: 0 })
    );
}

#[test]
fn decode_reordered_members() {
    let line = "{\"dest\":\"n1\",\"body\":{\"msg_id\":1,\"type\":\"echo\",\"echo\":\"hi\"},\"src\":\"c1\"}";
    let m = decode_message(line).unwrap();
    assert_eq!(m.src, NodeId::Client(1));
    assert_eq!(m.dest, NodeId::Server(1));
    assert_eq!(
        m.body,
        MessageBody::Echo(EchoBody {
            msg_id: 1,
            echo: String::from("hi")
        })
    );
}

#[test]
fn decode_whitespace_between_tokens() {
    let line = "  { \"src\" : \"c1\" ,\n  \"dest\" : \"n1\" , \"body\" : { \"type\" : \"init\" , \"msg_id\" : 1 , \"node_id\" : \"n1\" , \"node_ids\" : [ \"n1\" , \"n2\" ] } }  \n";
    let m = decode_message(line).unwrap();
    assert_eq!(m.src, NodeId::Client(1));
    match m.body {
        MessageBody::Init(b) => {
            assert_eq!(b.node_ids, vec![NodeId::Server(1), NodeId::Server(2)]);
        },
        other => panic!("expected init body, got {:?}", other),
    }
}

#[test]
fn decode_unknown_tag_in_reordered_line() {
    let line = "{\"dest\":\"n1\",\"src\":\"c1\",\"body\":{\"msg_id\":1,\"type\":\"unknown_kind\"}}";
    match decode_message(line) {
        Err(DecodeError::UnknownTag(t)) => assert_eq!(t, "unknown_kind"),
        other => panic!("expected unknown-tag error, got {:?}", other),
    }
}

#[test]
fn decode_bad_node_id_in_reordered_line() {
    let line = "{\"dest\":\"n1\",\"src\":\"x1\",\"body\":{\"type\":\"init_ok\",\"in_reply_to\":1}}";
    match decode_message(line) {
        Err(DecodeError::InvalidNodeId(NodeIdParseError::InvalidNodeType(t))) => {
            assert_eq!(t, "x")
        },
        other => panic!("expected invalid-node-type error, got {:?}", other),
    }
}

#[test]
fn decode_rejects_duplicate_and_missing_members() {
    let dup = "{\"src\":\"c1\",\"src\":\"c2\",\"dest\":\"n1\",\"body\":{\"type\":\"init_ok\",\"in_reply_to\":1}}";
    assert_eq!(decode_message(dup), Err(DecodeError::Malformed));
    let missing = "{\"src\":\"c1\",\"body\":{\"type\":\"init_ok\",\"in_reply_to\":1}}";
    assert_eq!(decode_message(missing), Err(DecodeError::Malformed));
    let unknown_member = "{\"src\":\"c1\",\"dest\":\"n1\",\"extra\":1,\"body\":{\"type\":\"init_ok\",\"in_reply_to\":1}}";
    assert_eq!(decode_message(unknown_member), Err(DecodeError::Malformed));
    let stray_field = "{\"src\":\"c1\",\"dest\":\"n1\",\"body\":{\"type\":\"init_ok\",\"in_reply_to\":1,\"echo\":\"x\"}}";
    assert_eq!(decode_message(stray_field), Err(DecodeError::Malformed));
}

#[test]
fn decode_surrogate_pair_escape() {
    let line = "{\"src\":\"c1\",\"dest\":\"n1\",\"body\":{\"type\":\"echo\",\"msg_id\":1,\"echo\":\"\\ud83d\\ude00\"}}";
    let m = decode_message(line).unwrap();
    assert_eq!(
        m.body,
        MessageBody::Echo(EchoBody {
            msg_id: 1,
            echo: String::from("\u{1F600}")
        })
    );
}
