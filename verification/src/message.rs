//! Message envelopes and bodies.  A `Message<B>` wraps a source and
//! destination node id around a body; the generic body `MessageBody` is a
//! closed tagged union of the recognized message kinds, and narrowing
//! converts a generic message into one of a single concrete kind, failing
//! when the tag does not match.
use vstd::prelude::*;

use crate::node_id::NodeId;

verus! {

/// Body of an `init` message: the sender-scoped message id, the receiving
/// node's own id, and the full roster of cluster node ids.
#[derive(Clone, Debug, PartialEq, Eq)]
pub struct InitBody {
    pub msg_id: i64,
    pub node_id: NodeId,
    pub node_ids: Vec<NodeId>,
}

/// Body of an `init_ok` reply: the correlation id of the `init` it answers.
#[derive(Clone, Debug, PartialEq, Eq)]
pub struct InitOkBody {
    pub in_reply_to: i64,
}

/// Body of an `echo` request: a message id and an arbitrary text payload.
#[derive(Clone, Debug, PartialEq, Eq)]
pub struct EchoBody {
    pub msg_id: i64,
    pub echo: String,
}

/// Body of an `echo_ok` reply: its own message id, the correlation id of
/// the `echo` it answers, and the echoed text.
#[derive(Clone, Debug, PartialEq, Eq)]
pub struct EchoOkBody {
    pub msg_id: i64,
    pub in_reply_to: i64,
    pub echo: String,
}

/// The closed set of message kinds, keyed on the wire by the `type` tag.
#[derive(Clone, Debug, PartialEq, Eq)]
pub enum MessageBody {
    Init(InitBody),
    InitOk(InitOkBody),
    Echo(EchoBody),
    EchoOk(EchoOkBody),
}

/// An envelope: source, destination, and a body of representation `B` —
/// either the full `MessageBody` union or one concrete kind's payload.
#[derive(Clone, Debug, PartialEq, Eq)]
pub struct Message<B = MessageBody> {
    pub src: NodeId,
    pub dest: NodeId,
    pub body: B,
}

/// The error reported by narrowing: the envelope decoded fine, but its
/// body is not of the requested kind.  Distinct from a decode failure.
#[derive(Clone, Copy, Debug, PartialEq, Eq, Structural)]
pub enum NarrowError {
    WrongKind,
}

/// A concrete body kind that a generic `MessageBody` can be narrowed to.
pub trait BodyKind: Sized {
    /// The payload, when the union value carries this kind.
    spec fn of_body(b: MessageBody) -> Option<Self>;

    /// Unwraps the union into this kind, or reports the mismatch.
    fn try_from_body(b: MessageBody) -> (r: Result<Self, NarrowError>)
        ensures
            Self::of_body(b) matches Some(x) ==> r == Ok::<Self, NarrowError>(x),
            Self::of_body(b) is None ==> r == Err::<Self, NarrowError>(NarrowError::WrongKind),
    ;
}

impl BodyKind for InitBody {
    open spec fn of_body(b: MessageBody) -> Option<Self> {
        match b {
            MessageBody::Init(x) => Some(x),
            _ => None,
        }
    }

    fn try_from_body(b: MessageBody) -> (r: Result<Self, NarrowError>) {
        match b {
            MessageBody::Init(x) => Ok(x),
            _ => Err(NarrowError::WrongKind),
        }
    }
}

impl BodyKind for InitOkBody {
    open spec fn of_body(b: MessageBody) -> Option<Self> {
        match b {
            MessageBody::InitOk(x) => Some(x),
            _ => None,
        }
    }

    fn try_from_body(b: MessageBody) -> (r: Result<Self, NarrowError>) {
        match b {
            MessageBody::InitOk(x) => Ok(x),
            _ => Err(NarrowError::WrongKind),
        }
    }
}

impl BodyKind for EchoBody {
    open spec fn of_body(b: MessageBody) -> Option<Self> {
        match b {
            MessageBody::Echo(x) => Some(x),
            _ => None,
        }
    }

    fn try_from_body(b: MessageBody) -> (r: Result<Self, NarrowError>) {
        match b {
            MessageBody::Echo(x) => Ok(x),
            _ => Err(NarrowError::WrongKind),
        }
    }
}

impl BodyKind for EchoOkBody {
    open spec fn of_body(b: MessageBody) -> Option<Self> {
        match b {
            MessageBody::EchoOk(x) => Some(x),
            _ => None,
        }
    }

    fn try_from_body(b: MessageBody) -> (r: Result<Self, NarrowError>) {
        match b {
            MessageBody::EchoOk(x) => Ok(x),
            _ => Err(NarrowError::WrongKind),
        }
    }
}

impl Message<MessageBody> {
    /// Narrows a generic message to the concrete kind `T`.  Succeeds
    /// exactly when the body carries that kind; on success the source and
    /// destination are copied unchanged and the payload is unwrapped.
    pub fn try_into_message<T: BodyKind>(self) -> (r: Result<Message<T>, NarrowError>)
        ensures
            r matches Ok(m) ==> {
                &&& m.src == self.src
                &&& m.dest == self.dest
                &&& T::of_body(self.body) == Some(m.body)
            },
            r is Ok <==> T::of_body(self.body) is Some,
            r is Err ==> r == Err::<Message<T>, NarrowError>(NarrowError::WrongKind),
    {
        match T::try_from_body(self.body) {
            Ok(body) => Ok(Message { src: self.src, dest: self.dest, body }),
            Err(e) => Err(e),
        }
    }
}

} // verus!
