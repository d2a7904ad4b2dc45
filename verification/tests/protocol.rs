use maelstrom_core::EchoBody;
use maelstrom_core::InitBody;
use maelstrom_core::Message;
use maelstrom_core::MessageBody;
use maelstrom_core::NarrowError;
use maelstrom_core::NodeId;
use maelstrom_core::decode::decode_message;
use maelstrom_core::handshake::HandshakeError;
use maelstrom_core::handshake::echo_reply;
use maelstrom_core::handshake::handshake;

fn init_message() -> Message<MessageBody> {
    Message {
        src: NodeId::Client(1),
        dest: NodeId::Server(1),
        body: MessageBody::Init(InitBody {
            msg_id: 1,
            node_id: NodeId::Server(1),
            node_ids: vec![NodeId::Server(1), NodeId::Server(2), NodeId::Server(3)],
        }),
    }
}

#[test]
fn narrow_init_preserves_everything() {
    let narrowed: Message<InitBody> = init_message().try_into_message().unwrap();
    assert_eq!(narrowed.src, NodeId::Client(1));
    assert_eq!(narrowed.dest, NodeId::Server(1));
    assert_eq!(narrowed.body.msg_id, 1);
    assert_eq!(narrowed.body.node_id, NodeId::Server(1));
    assert_eq!(
        narrowed.body.node_ids,
        vec![NodeId::Server(1), NodeId::Server(2), NodeId::Server(3)]
    );
}

#[test]
fn narrow_init_to_echo_fails() {
    let r: Result<Message<EchoBody>, NarrowError> = init_message().try_into_message();
    assert_eq!(r, Err(NarrowError::WrongKind));
}

#[test]
fn handshake_from_init_line() {
    let line =
        "{\"src\":\"c1\",\"dest\":\"n1\",\"body\":{\"type\":\"init\",\"msg_id\":1,\"node_id\":\"n1\",\"node_ids\":[\"n1\",\"n2\",\"n3\"]}}";
    let first = decode_message(line).unwrap();
    let (info, reply) = handshake(first).unwrap();
    assert_eq!(info.self_node_id, NodeId::Server(1));
    assert_eq!(
        info.all_node_ids,
        vec![NodeId::Server(1), NodeId::Server(2), NodeId::Server(3)]
    );
    assert_eq!(reply.src, NodeId::Server(1));
    assert_eq!(reply.dest, NodeId::Client(1));
    assert_eq!(reply.body.in_reply_to, 1);
}

#[test]
fn handshake_rejects_echo_first() {
    let line = "{\"src\":\"c1\",\"dest\":\"n1\",\"body\":{\"type\":\"echo\",\"msg_id\":1,\"echo\":\"hi\"}}";
    let first = decode_message(line).unwrap();
    assert_eq!(handshake(first), Err(HandshakeError::NotInit));
}

#[test]
fn handshake_keeps_roster_order_and_duplicates() {
    let m = Message {
        src: NodeId::Client(9),
        dest: NodeId::Server(2),
        body: MessageBody::Init(InitBody {
            msg_id: 42,
            node_id: NodeId::Server(2),
            node_ids: vec![NodeId::Server(3), NodeId::Server(2), NodeId::Server(3)],
        }),
    };
    let (info, reply) = handshake(m).unwrap();
    assert_eq!(
        info.all_node_ids,
        vec![NodeId::Server(3), NodeId::Server(2), NodeId::Server(3)]
    );
    assert_eq!(reply.body.in_reply_to, 42);
    assert_eq!(reply.dest, NodeId::Client(9));
}

#[test]
fn echo_reply_correlates_and_echoes() {
    let request = Message {
        src: NodeId::Client(4),
        dest: NodeId::Server(1),
        body: EchoBody {
            msg_id: 9,
            echo: String::from("payload"),
        },
    };
    let reply = echo_reply(request);
    assert_eq!(reply.src, NodeId::Server(1));
    assert_eq!(reply.dest, NodeId::Client(4));
    assert_eq!(reply.body.msg_id, 9);
    assert_eq!(reply.body.in_reply_to, 9);
    assert_eq!(reply.body.echo, "payload");
}
