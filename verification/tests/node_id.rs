use maelstrom_core::NodeId;
use maelstrom_core::NodeIdParseError;

#[test]
fn format_server_and_client() {
    assert_eq!(NodeId::Server(3).format(), "n3");
    assert_eq!(NodeId::Client(12).format(), "c12");
    assert_eq!(NodeId::Server(0).format(), "n0");
    assert_eq!(NodeId::Server(-5).format(), "n-5");
}

#[test]
fn parse_server_and_client() {
    assert_eq!(NodeId::parse("n3"), Ok(NodeId::Server(3)));
    assert_eq!(NodeId::parse("c12"), Ok(NodeId::Client(12)));
    assert_eq!(NodeId::parse("n0"), Ok(NodeId::Server(0)));
    assert_eq!(NodeId::parse("n-5"), Ok(NodeId::Server(-5)));
    assert_eq!(NodeId::parse("c+7"), Ok(NodeId::Client(7)));
    assert_eq!(NodeId::parse("n007"), Ok(NodeId::Server(7)));
}

#[test]
fn parse_format_roundtrip() {
    let ids = vec![
        NodeId::Server(0),
        NodeId::Server(1),
        NodeId::Client(41),
        NodeId::Server(9223372036854775807),
        NodeId::Server(-9223372036854775808),
        NodeId::Client(-1),
    ];
    for id in ids {
        assert_eq!(NodeId::parse(id.format().as_str()), Ok(id));
    }
}

#[test]
fn parse_rejects_bad_marker() {
    assert!(matches!(
        NodeId::parse("x1"),
        Err(NodeIdParseError::InvalidNodeType(t)) if t == "x"
    ));
    assert!(matches!(
        NodeId::parse(""),
        Err(NodeIdParseError::InvalidNodeType(t)) if t.is_empty()
    ));
    assert!(matches!(
        NodeId::parse("7n"),
        Err(NodeIdParseError::InvalidNodeType(t)) if t == "7"
    ));
}

#[test]
fn parse_rejects_bad_number() {
    assert_eq!(NodeId::parse("n"), Err(NodeIdParseError::InvalidIdNumber));
    assert_eq!(NodeId::parse("nabc"), Err(NodeIdParseError::InvalidIdNumber));
    assert_eq!(NodeId::parse("n12x"), Err(NodeIdParseError::InvalidIdNumber));
    assert_eq!(
        NodeId::parse("n99999999999999999999"),
        Err(NodeIdParseError::InvalidIdNumber)
    );
    assert_eq!(
        NodeId::parse("n9223372036854775808"),
        Err(NodeIdParseError::InvalidIdNumber)
    );
    assert_eq!(
        NodeId::parse("c-9223372036854775808"),
        Ok(NodeId::Client(-9223372036854775808))
    );
}
