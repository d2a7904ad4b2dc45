//! Startup handshake.  A node begins awaiting initialization; the first
//! inbound message must be an `init`, from which the immutable cluster
//! membership is derived, together with the `init_ok` reply owed to the
//! sender.  Any other first message is a protocol-sequence violation and
//! fatal to startup.
use vstd::prelude::*;

use crate::message::BodyKind;
use crate::message::EchoBody;
use crate::message::EchoOkBody;
use crate::message::InitBody;
use crate::message::InitOkBody;
use crate::message::Message;
use crate::message::MessageBody;
use crate::node_id::NodeId;

verus! {

/// Cluster membership, derived exactly once from the `init` message:
/// this node's own id and the roster of all node ids, in the order
/// received, duplicates preserved.  Immutable after construction.
#[derive(Clone, Debug, PartialEq, Eq)]
pub struct ClusterInfo {
    pub self_node_id: NodeId,
    pub all_node_ids: Vec<NodeId>,
}

/// Startup failure: the first message received was not an `init`.
#[derive(Clone, Copy, Debug, PartialEq, Eq, Structural)]
pub enum HandshakeError {
    NotInit,
}

/// The transition from awaiting-init to initialized.  Succeeds exactly
/// when the first message carries an `init` body; then the cluster info
/// copies the body's own-id and roster unchanged, and the returned reply
/// is the `init_ok` owed to the sender, correlated to the init's message
/// id and addressed from this node's own id back to the message's source.
pub fn handshake(first: Message<MessageBody>) -> (r: Result<
    (ClusterInfo, Message<InitOkBody>),
    HandshakeError,
>)
    ensures
        first.body matches MessageBody::Init(ib) ==> (r matches Ok(p) && {
            &&& p.0.self_node_id == ib.node_id
            &&& p.0.all_node_ids == ib.node_ids
            &&& p.1.src == ib.node_id
            &&& p.1.dest == first.src
            &&& p.1.body.in_reply_to == ib.msg_id
        }),
        !(first.body is Init) ==> r == Err::<(ClusterInfo, Message<InitOkBody>), HandshakeError>(
            HandshakeError::NotInit,
        ),
{
    let first_src = first.src;
    match first.try_into_message::<InitBody>() {
        Ok(init_msg) => {
            let reply = Message {
                src: init_msg.body.node_id,
                dest: first_src,
                body: InitOkBody { in_reply_to: init_msg.body.msg_id },
            };
            let info = ClusterInfo {
                self_node_id: init_msg.body.node_id,
                all_node_ids: init_msg.body.node_ids,
            };
            Ok((info, reply))
        },
        Err(_) => Err(HandshakeError::NotInit),
    }
}

/// The reply owed to an echo request: addressed back from the request's
/// destination to its source, echoing the payload unchanged, with the
/// request's message id both as the reply's own id and as its
/// correlation id.
pub fn echo_reply(request: Message<EchoBody>) -> (r: Message<EchoOkBody>)
    ensures
        r.src == request.dest,
        r.dest == request.src,
        r.body.msg_id == request.body.msg_id,
        r.body.in_reply_to == request.body.msg_id,
        r.body.echo == request.body.echo,
{
    Message {
        src: request.dest,
        dest: request.src,
        body: EchoOkBody {
            msg_id: request.body.msg_id,
            in_reply_to: request.body.msg_id,
            echo: request.body.echo,
        },
    }
}

} // verus!
