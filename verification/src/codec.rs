//! Wire codec.  A message travels as one JSON object per line with exactly
//! the fields `src`, `dest` and `body`; the body object is keyed by its
//! `type` tag.  The grammar both sides agree on is fixed here as spec
//! functions: `enc_msg` gives the canonical text of a message, and the
//! `sp_*` family is the parser, written over character sequences.  The
//! executable encoder and decoder are verified against them.
//!
//! The parser takes JSON's layout freedoms: members may come in any
//! order (each exactly once — unknown members are rejected), whitespace
//! between tokens is insignificant, and strings understand the full JSON
//! escapes, `\uXXXX` and surrogate pairs included.  The canonical layout
//! the encoder writes is recognized by a direct fast path (`sp_msg`);
//! every other layout by the member-order-insensitive grammar
//! (`sp_msg_general`); `sp_msg_any` is the whole wire grammar.
use vstd::prelude::*;

use crate::message::EchoBody;
use crate::message::EchoOkBody;
use crate::message::InitBody;
use crate::message::InitOkBody;
use crate::message::Message;
use crate::message::MessageBody;
use crate::node_id::NodeId;
use crate::node_id::NodeIdParseError;
use crate::node_id::digits_val;
use crate::node_id::has_role_marker;
use crate::node_id::int_chars;
use crate::node_id::is_dec_digit;
use crate::node_id::marker_text;
use crate::node_id::node_id_chars;
use crate::node_id::node_id_of;

verus! {

// ---------------------------------------------------------------------
// Spec model of a message body
// ---------------------------------------------------------------------
/// Mathematical view of a message body: the same variants as
/// `MessageBody`, with text and rosters as sequences.
pub enum BodyV {
    Init { msg_id: i64, node_id: NodeId, node_ids: Seq<NodeId> },
    InitOk { in_reply_to: i64 },
    Echo { msg_id: i64, echo: Seq<char> },
    EchoOk { msg_id: i64, in_reply_to: i64, echo: Seq<char> },
}

pub open spec fn body_view(b: MessageBody) -> BodyV {
    match b {
        MessageBody::Init(x) => BodyV::Init {
            msg_id: x.msg_id,
            node_id: x.node_id,
            node_ids: x.node_ids@,
        },
        MessageBody::InitOk(x) => BodyV::InitOk { in_reply_to: x.in_reply_to },
        MessageBody::Echo(x) => BodyV::Echo { msg_id: x.msg_id, echo: x.echo@ },
        MessageBody::EchoOk(x) => BodyV::EchoOk {
            msg_id: x.msg_id,
            in_reply_to: x.in_reply_to,
            echo: x.echo@,
        },
    }
}

// ---------------------------------------------------------------------
// Fixed tokens of the wire grammar
// ---------------------------------------------------------------------
pub open spec fn lit_src() -> Seq<char> {
    seq!['{', '"', 's', 'r', 'c', '"', ':']
}

pub open spec fn lit_dest() -> Seq<char> {
    seq![',', '"', 'd', 'e', 's', 't', '"', ':']
}

pub open spec fn lit_body() -> Seq<char> {
    seq![',', '"', 'b', 'o', 'd', 'y', '"', ':']
}

pub open spec fn lit_type() -> Seq<char> {
    seq!['{', '"', 't', 'y', 'p', 'e', '"', ':']
}

pub open spec fn lit_msg_id() -> Seq<char> {
    seq![',', '"', 'm', 's', 'g', '_', 'i', 'd', '"', ':']
}

pub open spec fn lit_node_id() -> Seq<char> {
    seq![',', '"', 'n', 'o', 'd', 'e', '_', 'i', 'd', '"', ':']
}

pub open spec fn lit_node_ids() -> Seq<char> {
    seq![',', '"', 'n', 'o', 'd', 'e', '_', 'i', 'd', 's', '"', ':']
}

pub open spec fn lit_in_reply_to() -> Seq<char> {
    seq![',', '"', 'i', 'n', '_', 'r', 'e', 'p', 'l', 'y', '_', 't', 'o', '"', ':']
}

pub open spec fn lit_echo() -> Seq<char> {
    seq![',', '"', 'e', 'c', 'h', 'o', '"', ':']
}

pub open spec fn tag_init() -> Seq<char> {
    seq!['i', 'n', 'i', 't']
}

pub open spec fn tag_init_ok() -> Seq<char> {
    seq!['i', 'n', 'i', 't', '_', 'o', 'k']
}

pub open spec fn tag_echo() -> Seq<char> {
    seq!['e', 'c', 'h', 'o']
}

pub open spec fn tag_echo_ok() -> Seq<char> {
    seq!['e', 'c', 'h', 'o', '_', 'o', 'k']
}

// ---------------------------------------------------------------------
// Spec encoder
// ---------------------------------------------------------------------
pub open spec fn hex_digit(d: int) -> char {
    if d < 10 {
        (d + '0' as int) as char
    } else {
        (d - 10 + 'a' as int) as char
    }
}

/// JSON escaping of one character: quotes and backslashes get a two-char
/// escape, control characters a `\u00XX` escape, everything else stands
/// for itself.
pub open spec fn esc_char(c: char) -> Seq<char> {
    if c == '"' {
        seq!['\\', '"']
    } else if c == '\\' {
        seq!['\\', '\\']
    } else if (c as int) < 32 {
        seq!['\\', 'u', '0', '0', hex_digit(c as int / 16), hex_digit(c as int % 16)]
    } else {
        seq![c]
    }
}

pub open spec fn esc_str(s: Seq<char>) -> Seq<char>
    decreases s.len(),
{
    if s.len() == 0 {
        Seq::empty()
    } else {
        esc_char(s[0]) + esc_str(s.drop_first())
    }
}

/// A JSON string literal: the escaped text between quotes.
pub open spec fn enc_str(s: Seq<char>) -> Seq<char> {
    seq!['"'] + esc_str(s) + seq!['"']
}

/// A node id on the wire: its canonical text between quotes (no character
/// of that text ever needs escaping).
pub open spec fn enc_node_id(id: NodeId) -> Seq<char> {
    seq!['"'] + node_id_chars(id) + seq!['"']
}

/// Comma-separated node ids.
pub open spec fn enc_id_list(ids: Seq<NodeId>) -> Seq<char>
    decreases ids.len(),
{
    if ids.len() == 0 {
        Seq::empty()
    } else if ids.len() == 1 {
        enc_node_id(ids[0])
    } else {
        enc_node_id(ids[0]) + seq![','] + enc_id_list(ids.drop_first())
    }
}

pub open spec fn enc_id_array(ids: Seq<NodeId>) -> Seq<char> {
    seq!['['] + enc_id_list(ids) + seq![']']
}

/// Canonical text of a body object: the `type` tag first, then the
/// variant's fields in their declared order.
pub open spec fn enc_body(bv: BodyV) -> Seq<char> {
    match bv {
        BodyV::Init { msg_id, node_id, node_ids } => lit_type() + enc_str(tag_init()) + lit_msg_id()
            + int_chars(msg_id as int) + lit_node_id() + enc_node_id(node_id) + lit_node_ids()
            + enc_id_array(node_ids) + seq!['}'],
        BodyV::InitOk { in_reply_to } => lit_type() + enc_str(tag_init_ok()) + lit_in_reply_to()
            + int_chars(in_reply_to as int) + seq!['}'],
        BodyV::Echo { msg_id, echo } => lit_type() + enc_str(tag_echo()) + lit_msg_id()
            + int_chars(msg_id as int) + lit_echo() + enc_str(echo) + seq!['}'],
        BodyV::EchoOk { msg_id, in_reply_to, echo } => lit_type() + enc_str(tag_echo_ok())
            + lit_msg_id() + int_chars(msg_id as int) + lit_in_reply_to() + int_chars(
            in_reply_to as int,
        ) + lit_echo() + enc_str(echo) + seq!['}'],
    }
}

/// Canonical text of a whole message line (without the newline).
pub open spec fn enc_msg(src: NodeId, dest: NodeId, bv: BodyV) -> Seq<char> {
    lit_src() + enc_node_id(src) + lit_dest() + enc_node_id(dest) + lit_body() + enc_body(bv)
        + seq!['}']
}

// ---------------------------------------------------------------------
// Spec parser
// ---------------------------------------------------------------------
/// Outcome of a parsing step: a value and the index after it, or one of
/// the classified failures (bad node id, unrecognized tag, malformed).
pub enum SpOut<T> {
    Parsed(T, int),
    BadNode(bool, Seq<char>),
    UnknownTag(Seq<char>),
    Fail,
}

pub open spec fn sp_lit(s: Seq<char>, i: int, lit: Seq<char>) -> Option<int> {
    if i + lit.len() <= s.len() && s.subrange(i, i + lit.len()) == lit {
        Some(i + lit.len())
    } else {
        None
    }
}

pub open spec fn sp_hex_val(c: char) -> Option<nat> {
    if '0' <= c && c <= '9' {
        Some((c as int - '0' as int) as nat)
    } else if 'a' <= c && c <= 'f' {
        Some((c as int - 'a' as int + 10) as nat)
    } else if 'A' <= c && c <= 'F' {
        Some((c as int - 'A' as int + 10) as nat)
    } else {
        None
    }
}

/// One escape sequence, entered just after the backslash.
pub open spec fn sp_escape(s: Seq<char>, i: int) -> Option<(char, int)> {
    if i < s.len() {
        let c = s[i];
        if c == '"' {
            Some(('"', i + 1))
        } else if c == '\\' {
            Some(('\\', i + 1))
        } else if c == '/' {
            Some(('/', i + 1))
        } else if c == 'b' {
            Some(('\u{8}', i + 1))
        } else if c == 'f' {
            Some(('\u{c}', i + 1))
        } else if c == 'n' {
            Some(('\n', i + 1))
        } else if c == 'r' {
            Some(('\r', i + 1))
        } else if c == 't' {
            Some(('\t', i + 1))
        } else if c == 'u' {
            if i + 5 <= s.len() {
                match (sp_hex_val(s[i + 1]), sp_hex_val(s[i + 2]), sp_hex_val(s[i + 3]), sp_hex_val(
                    s[i + 4],
                )) {
                    (Some(a), Some(b), Some(h), Some(l)) => {
                        let v = ((a * 16 + b) * 16 + h) * 16 + l;
                        if v < 0xD800 || 0xE000 <= v {
                            Some(((v as int) as char, i + 5))
                        } else if v < 0xDC00 {
                            // a high surrogate must pair with a low-surrogate escape
                            if i + 11 <= s.len() && s[i + 5] == '\\' && s[i + 6] == 'u' {
                                match (sp_hex_val(s[i + 7]), sp_hex_val(s[i + 8]), sp_hex_val(
                                    s[i + 9],
                                ), sp_hex_val(s[i + 10])) {
                                    (Some(a2), Some(b2), Some(h2), Some(l2)) => {
                                        let w = ((a2 * 16 + b2) * 16 + h2) * 16 + l2;
                                        if 0xDC00 <= w < 0xE000 {
                                            Some(
                                                (((0x10000 + (v - 0xD800) * 0x400 + (w
                                                    - 0xDC00)) as int) as char, i + 11),
                                            )
                                        } else {
                                            None
                                        }
                                    },
                                    _ => None,
                                }
                            } else {
                                None
                            }
                        } else {
                            None
                        }
                    },
                    _ => None,
                }
            } else {
                None
            }
        } else {
            None
        }
    } else {
        None
    }
}

/// The inside of a JSON string, entered just after the opening quote;
/// yields the unescaped text and the index after the closing quote.
pub open spec fn sp_string_body(s: Seq<char>, i: int) -> Option<(Seq<char>, int)>
    decreases s.len() - i,
{
    if i < s.len() {
        let c = s[i];
        if c == '"' {
            Some((Seq::empty(), i + 1))
        } else if c == '\\' {
            match sp_escape(s, i + 1) {
                Some((e, j)) => match sp_string_body(s, j) {
                    Some((t, k)) => Some((seq![e] + t, k)),
                    None => None,
                },
                None => None,
            }
        } else if (c as int) < 32 {
            None
        } else {
            match sp_string_body(s, i + 1) {
                Some((t, k)) => Some((seq![c] + t, k)),
                None => None,
            }
        }
    } else {
        None
    }
}

pub open spec fn sp_string(s: Seq<char>, i: int) -> Option<(Seq<char>, int)> {
    if i < s.len() && s[i] == '"' {
        sp_string_body(s, i + 1)
    } else {
        None
    }
}

/// Index just after the run of decimal digits starting at `i`.
pub open spec fn digits_end(s: Seq<char>, i: int) -> int
    decreases s.len() - i,
{
    if i < s.len() && is_dec_digit(s[i]) {
        digits_end(s, i + 1)
    } else {
        i
    }
}

/// A JSON integer: an optional minus sign, then one or more digits with
/// no leading zero, whose value must fit in a signed 64-bit integer.
pub open spec fn sp_i64(s: Seq<char>, i: int) -> Option<(i64, int)> {
    let neg = i < s.len() && s[i] == '-';
    let d0 = if neg {
        i + 1
    } else {
        i
    };
    let e = digits_end(s, d0);
    if e > d0 && (e == d0 + 1 || s[d0] != '0') {
        let m = digits_val(s.subrange(d0, e)) as int;
        let v = if neg {
            -m
        } else {
            m
        };
        if i64::MIN <= v <= i64::MAX {
            Some((v as i64, e))
        } else {
            None
        }
    } else {
        None
    }
}

/// A node id: a JSON string whose content matches the node-id grammar.
/// A string that parses but is no node id is the bad-node-id failure,
/// carrying whether the role marker was at fault, and the content.
pub open spec fn sp_node_id(s: Seq<char>, i: int) -> SpOut<NodeId> {
    match sp_string(s, i) {
        Some((t, j)) => match node_id_of(t) {
            Some(id) => SpOut::Parsed(id, j),
            None => SpOut::BadNode(!has_role_marker(t), t),
        },
        None => SpOut::Fail,
    }
}

/// One or more array elements, entered just after a `[` that is not
/// immediately closed; ends after the `]`.
pub open spec fn sp_id_elems(s: Seq<char>, i: int) -> SpOut<Seq<NodeId>>
    decreases s.len() - i,
{
    match sp_node_id(s, i) {
        SpOut::Parsed(id, j) => if j < s.len() && s[j] == ']' {
            SpOut::Parsed(seq![id], j + 1)
        } else if j < s.len() && s[j] == ',' && i < j {
            match sp_id_elems(s, j + 1) {
                SpOut::Parsed(rest, k) => SpOut::Parsed(seq![id] + rest, k),
                SpOut::BadNode(b, t) => SpOut::BadNode(b, t),
                SpOut::UnknownTag(t) => SpOut::UnknownTag(t),
                SpOut::Fail => SpOut::Fail,
            }
        } else {
            SpOut::Fail
        },
        SpOut::BadNode(b, t) => SpOut::BadNode(b, t),
        SpOut::UnknownTag(t) => SpOut::UnknownTag(t),
        SpOut::Fail => SpOut::Fail,
    }
}

pub open spec fn sp_id_array(s: Seq<char>, i: int) -> SpOut<Seq<NodeId>> {
    if i < s.len() && s[i] == '[' {
        if i + 1 < s.len() && s[i + 1] == ']' {
            SpOut::Parsed(Seq::empty(), i + 2)
        } else {
            sp_id_elems(s, i + 1)
        }
    } else {
        SpOut::Fail
    }
}

/// The fields of an `init` body, entered just after its tag string.
pub open spec fn sp_init_fields(s: Seq<char>, i: int) -> SpOut<BodyV> {
    match sp_lit(s, i, lit_msg_id()) {
        Some(j) => match sp_i64(s, j) {
            Some((msg_id, j2)) => match sp_lit(s, j2, lit_node_id()) {
                Some(j3) => match sp_node_id(s, j3) {
                    SpOut::Parsed(node_id, j4) => match sp_lit(s, j4, lit_node_ids()) {
                        Some(j5) => match sp_id_array(s, j5) {
                            SpOut::Parsed(node_ids, j6) => if j6 < s.len() && s[j6] == '}' {
                                SpOut::Parsed(BodyV::Init { msg_id, node_id, node_ids }, j6 + 1)
                            } else {
                                SpOut::Fail
                            },
                            SpOut::BadNode(b, t) => SpOut::BadNode(b, t),
                            SpOut::UnknownTag(t) => SpOut::UnknownTag(t),
                            SpOut::Fail => SpOut::Fail,
                        },
                        None => SpOut::Fail,
                    },
                    SpOut::BadNode(b, t) => SpOut::BadNode(b, t),
                    SpOut::UnknownTag(t) => SpOut::UnknownTag(t),
                    SpOut::Fail => SpOut::Fail,
                },
                None => SpOut::Fail,
            },
            None => SpOut::Fail,
        },
        None => SpOut::Fail,
    }
}

/// The fields of an `init_ok` body.
pub open spec fn sp_init_ok_fields(s: Seq<char>, i: int) -> SpOut<BodyV> {
    match sp_lit(s, i, lit_in_reply_to()) {
        Some(j) => match sp_i64(s, j) {
            Some((in_reply_to, j2)) => if j2 < s.len() && s[j2] == '}' {
                SpOut::Parsed(BodyV::InitOk { in_reply_to }, j2 + 1)
            } else {
                SpOut::Fail
            },
            None => SpOut::Fail,
        },
        None => SpOut::Fail,
    }
}

/// The fields of an `echo` body.
pub open spec fn sp_echo_fields(s: Seq<char>, i: int) -> SpOut<BodyV> {
    match sp_lit(s, i, lit_msg_id()) {
        Some(j) => match sp_i64(s, j) {
            Some((msg_id, j2)) => match sp_lit(s, j2, lit_echo()) {
                Some(j3) => match sp_string(s, j3) {
                    Some((echo, j4)) => if j4 < s.len() && s[j4] == '}' {
                        SpOut::Parsed(BodyV::Echo { msg_id, echo }, j4 + 1)
                    } else {
                        SpOut::Fail
                    },
                    None => SpOut::Fail,
                },
                None => SpOut::Fail,
            },
            None => SpOut::Fail,
        },
        None => SpOut::Fail,
    }
}

/// The fields of an `echo_ok` body.
pub open spec fn sp_echo_ok_fields(s: Seq<char>, i: int) -> SpOut<BodyV> {
    match sp_lit(s, i, lit_msg_id()) {
        Some(j) => match sp_i64(s, j) {
            Some((msg_id, j2)) => match sp_lit(s, j2, lit_in_reply_to()) {
                Some(j3) => match sp_i64(s, j3) {
                    Some((in_reply_to, j4)) => match sp_lit(s, j4, lit_echo()) {
                        Some(j5) => match sp_string(s, j5) {
                            Some((echo, j6)) => if j6 < s.len() && s[j6] == '}' {
                                SpOut::Parsed(BodyV::EchoOk { msg_id, in_reply_to, echo }, j6 + 1)
                            } else {
                                SpOut::Fail
                            },
                            None => SpOut::Fail,
                        },
                        None => SpOut::Fail,
                    },
                    None => SpOut::Fail,
                },
                None => SpOut::Fail,
            },
            None => SpOut::Fail,
        },
        None => SpOut::Fail,
    }
}

/// A body object: the `type` tag decides the variant; a tag outside the
/// closed set is the unrecognized-tag failure, carrying the tag.
pub open spec fn sp_body(s: Seq<char>, i: int) -> SpOut<BodyV> {
    match sp_lit(s, i, lit_type()) {
        Some(j) => match sp_string(s, j) {
            Some((tag, j2)) => if tag == tag_init() {
                sp_init_fields(s, j2)
            } else if tag == tag_init_ok() {
                sp_init_ok_fields(s, j2)
            } else if tag == tag_echo() {
                sp_echo_fields(s, j2)
            } else if tag == tag_echo_ok() {
                sp_echo_ok_fields(s, j2)
            } else {
                SpOut::UnknownTag(tag)
            },
            None => SpOut::Fail,
        },
        None => SpOut::Fail,
    }
}

pub open spec fn is_ws(c: char) -> bool {
    c == ' ' || c == '\t' || c == '\r' || c == '\n'
}

pub open spec fn all_ws(s: Seq<char>, i: int) -> bool {
    forall|t: int| i <= t < s.len() ==> is_ws(#[trigger] s[t])
}

/// A whole message line: the envelope object, then only whitespace (the
/// line terminator) to the end.
pub open spec fn sp_msg(s: Seq<char>) -> SpOut<(NodeId, NodeId, BodyV)> {
    match sp_lit(s, 0, lit_src()) {
        Some(j) => match sp_node_id(s, j) {
            SpOut::Parsed(src, j2) => match sp_lit(s, j2, lit_dest()) {
                Some(j3) => match sp_node_id(s, j3) {
                    SpOut::Parsed(dest, j4) => match sp_lit(s, j4, lit_body()) {
                        Some(j5) => match sp_body(s, j5) {
                            SpOut::Parsed(bv, j6) => if j6 < s.len() && s[j6] == '}' && all_ws(
                                s,
                                j6 + 1,
                            ) {
                                SpOut::Parsed((src, dest, bv), j6 + 1)
                            } else {
                                SpOut::Fail
                            },
                            SpOut::BadNode(b, t) => SpOut::BadNode(b, t),
                            SpOut::UnknownTag(t) => SpOut::UnknownTag(t),
                            SpOut::Fail => SpOut::Fail,
                        },
                        None => SpOut::Fail,
                    },
                    SpOut::BadNode(b, t) => SpOut::BadNode(b, t),
                    SpOut::UnknownTag(t) => SpOut::UnknownTag(t),
                    SpOut::Fail => SpOut::Fail,
                },
                None => SpOut::Fail,
            },
            SpOut::BadNode(b, t) => SpOut::BadNode(b, t),
            SpOut::UnknownTag(t) => SpOut::UnknownTag(t),
            SpOut::Fail => SpOut::Fail,
        },
        None => SpOut::Fail,
    }
}

// ---------------------------------------------------------------------
// Decode errors
// ---------------------------------------------------------------------
/// Why a line was rejected: its body tag is outside the closed set, a
/// node-id string is malformed, or the text does not fit the message
/// grammar at all.
#[derive(Clone, Debug, PartialEq, Eq)]
pub enum DecodeError {
    UnknownTag(String),
    InvalidNodeId(NodeIdParseError),
    Malformed,
}

/// Which `DecodeError` a spec-level parsing failure corresponds to.
pub open spec fn sp_err_of<T>(o: SpOut<T>, e: DecodeError) -> bool {
    match o {
        SpOut::Parsed(_, _) => false,
        SpOut::UnknownTag(tag) => e matches DecodeError::UnknownTag(u) && u@ == tag,
        SpOut::BadNode(mb, t) => e matches DecodeError::InvalidNodeId(pe) && (if mb {
            pe matches NodeIdParseError::InvalidNodeType(p) && p@ == marker_text(t)
        } else {
            pe == NodeIdParseError::InvalidIdNumber
        }),
        SpOut::Fail => e == DecodeError::Malformed,
    }
}

// ---------------------------------------------------------------------
// General layout: members in any order, insignificant whitespace
// ---------------------------------------------------------------------
/// Index of the first non-whitespace character at or after `i`.
pub open spec fn sp_ws(s: Seq<char>, i: int) -> int
    decreases s.len() - i,
{
    if i < s.len() && is_ws(s[i]) {
        sp_ws(s, i + 1)
    } else {
        i
    }
}

pub open spec fn name_src() -> Seq<char> {
    seq!['s', 'r', 'c']
}

pub open spec fn name_dest() -> Seq<char> {
    seq!['d', 'e', 's', 't']
}

pub open spec fn name_body() -> Seq<char> {
    seq!['b', 'o', 'd', 'y']
}

pub open spec fn name_type() -> Seq<char> {
    seq!['t', 'y', 'p', 'e']
}

pub open spec fn name_msg_id() -> Seq<char> {
    seq!['m', 's', 'g', '_', 'i', 'd']
}

pub open spec fn name_node_id() -> Seq<char> {
    seq!['n', 'o', 'd', 'e', '_', 'i', 'd']
}

pub open spec fn name_node_ids() -> Seq<char> {
    seq!['n', 'o', 'd', 'e', '_', 'i', 'd', 's']
}

pub open spec fn name_in_reply_to() -> Seq<char> {
    seq!['i', 'n', '_', 'r', 'e', 'p', 'l', 'y', '_', 't', 'o']
}

pub open spec fn name_echo() -> Seq<char> {
    seq!['e', 'c', 'h', 'o']
}

/// The envelope's members gathered so far: each may appear once.
pub struct EnvSlots {
    pub src: Option<NodeId>,
    pub dest: Option<NodeId>,
    pub body: Option<BodyV>,
}

/// The body object's members gathered so far: each may appear once, and
/// which are required is decided by the tag at the closing brace.
pub struct BodySlots {
    pub tag: Option<Seq<char>>,
    pub msg_id: Option<i64>,
    pub node_id: Option<NodeId>,
    pub node_ids: Option<Seq<NodeId>>,
    pub in_reply_to: Option<i64>,
    pub echo: Option<Seq<char>>,
}

/// Array elements in any whitespace layout; ends after the `]`.
pub open spec fn sp_id_elems_any(s: Seq<char>, i: int) -> SpOut<Seq<NodeId>>
    decreases s.len() - i,
{
    match sp_node_id(s, i) {
        SpOut::Parsed(id, j) => {
            let j2 = sp_ws(s, j);
            if j2 < s.len() && s[j2] == ']' {
                SpOut::Parsed(seq![id], j2 + 1)
            } else if j2 < s.len() && s[j2] == ',' {
                let j3 = sp_ws(s, j2 + 1);
                if i < j3 && j3 <= s.len() {
                    match sp_id_elems_any(s, j3) {
                        SpOut::Parsed(rest, k) => SpOut::Parsed(seq![id] + rest, k),
                        SpOut::BadNode(b, x) => SpOut::BadNode(b, x),
                        SpOut::UnknownTag(x) => SpOut::UnknownTag(x),
                        SpOut::Fail => SpOut::Fail,
                    }
                } else {
                    SpOut::Fail
                }
            } else {
                SpOut::Fail
            }
        },
        SpOut::BadNode(b, x) => SpOut::BadNode(b, x),
        SpOut::UnknownTag(x) => SpOut::UnknownTag(x),
        SpOut::Fail => SpOut::Fail,
    }
}

pub open spec fn sp_id_array_any(s: Seq<char>, i: int) -> SpOut<Seq<NodeId>> {
    if i < s.len() && s[i] == '[' {
        let i1 = sp_ws(s, i + 1);
        if i1 < s.len() && s[i1] == ']' {
            SpOut::Parsed(Seq::empty(), i1 + 1)
        } else {
            sp_id_elems_any(s, i1)
        }
    } else {
        SpOut::Fail
    }
}

/// One `"name": value` member of a body object, entered at its name;
/// rejects unknown and repeated names.
pub open spec fn sp_body_member(s: Seq<char>, i: int, acc: BodySlots) -> SpOut<BodySlots> {
    match sp_string(s, i) {
        Some((name, j)) => {
            let j2 = sp_ws(s, j);
            if j2 < s.len() && s[j2] == ':' {
                let j3 = sp_ws(s, j2 + 1);
                if name == name_type() && acc.tag is None {
                    match sp_string(s, j3) {
                        Some((tag, j4)) => SpOut::Parsed(
                            BodySlots {
                                tag: Some(tag),
                                msg_id: acc.msg_id,
                                node_id: acc.node_id,
                                node_ids: acc.node_ids,
                                in_reply_to: acc.in_reply_to,
                                echo: acc.echo,
                            },
                            j4,
                        ),
                        None => SpOut::Fail,
                    }
                } else if name == name_msg_id() && acc.msg_id is None {
                    match sp_i64(s, j3) {
                        Some((v, j4)) => SpOut::Parsed(
                            BodySlots {
                                tag: acc.tag,
                                msg_id: Some(v),
                                node_id: acc.node_id,
                                node_ids: acc.node_ids,
                                in_reply_to: acc.in_reply_to,
                                echo: acc.echo,
                            },
                            j4,
                        ),
                        None => SpOut::Fail,
                    }
                } else if name == name_node_id() && acc.node_id is None {
                    match sp_node_id(s, j3) {
                        SpOut::Parsed(id, j4) => SpOut::Parsed(
                            BodySlots {
                                tag: acc.tag,
                                msg_id: acc.msg_id,
                                node_id: Some(id),
                                node_ids: acc.node_ids,
                                in_reply_to: acc.in_reply_to,
                                echo: acc.echo,
                            },
                            j4,
                        ),
                        SpOut::BadNode(b, x) => SpOut::BadNode(b, x),
                        SpOut::UnknownTag(x) => SpOut::UnknownTag(x),
                        SpOut::Fail => SpOut::Fail,
                    }
                } else if name == name_node_ids() && acc.node_ids is None {
                    match sp_id_array_any(s, j3) {
                        SpOut::Parsed(ids, j4) => SpOut::Parsed(
                            BodySlots {
                                tag: acc.tag,
                                msg_id: acc.msg_id,
                                node_id: acc.node_id,
                                node_ids: Some(ids),
                                in_reply_to: acc.in_reply_to,
                                echo: acc.echo,
                            },
                            j4,
                        ),
                        SpOut::BadNode(b, x) => SpOut::BadNode(b, x),
                        SpOut::UnknownTag(x) => SpOut::UnknownTag(x),
                        SpOut::Fail => SpOut::Fail,
                    }
                } else if name == name_in_reply_to() && acc.in_reply_to is None {
                    match sp_i64(s, j3) {
                        Some((v, j4)) => SpOut::Parsed(
                            BodySlots {
                                tag: acc.tag,
                                msg_id: acc.msg_id,
                                node_id: acc.node_id,
                                node_ids: acc.node_ids,
                                in_reply_to: Some(v),
                                echo: acc.echo,
                            },
                            j4,
                        ),
                        None => SpOut::Fail,
                    }
                } else if name == name_echo() && acc.echo is None {
                    match sp_string(s, j3) {
                        Some((x, j4)) => SpOut::Parsed(
                            BodySlots {
                                tag: acc.tag,
                                msg_id: acc.msg_id,
                                node_id: acc.node_id,
                                node_ids: acc.node_ids,
                                in_reply_to: acc.in_reply_to,
                                echo: Some(x),
                            },
                            j4,
                        ),
                        None => SpOut::Fail,
                    }
                } else {
                    SpOut::Fail
                }
            } else {
                SpOut::Fail
            }
        },
        None => SpOut::Fail,
    }
}

/// The members of a body object, entered at the first member's name;
/// ends after the `}`.
pub open spec fn sp_body_members(s: Seq<char>, i: int, acc: BodySlots) -> SpOut<BodySlots>
    decreases s.len() - i,
{
    match sp_body_member(s, i, acc) {
        SpOut::Parsed(acc2, j4) => {
            let j5 = sp_ws(s, j4);
            if j5 < s.len() && s[j5] == ',' {
                let j6 = sp_ws(s, j5 + 1);
                if i < j6 && j6 <= s.len() {
                    sp_body_members(s, j6, acc2)
                } else {
                    SpOut::Fail
                }
            } else if j5 < s.len() && s[j5] == '}' {
                SpOut::Parsed(acc2, j5 + 1)
            } else {
                SpOut::Fail
            }
        },
        SpOut::BadNode(b, x) => SpOut::BadNode(b, x),
        SpOut::UnknownTag(x) => SpOut::UnknownTag(x),
        SpOut::Fail => SpOut::Fail,
    }
}

/// The variant decided by the gathered members: the tag chooses the kind,
/// whose fields must all be present and no others; a tag outside the
/// closed set is the unrecognized-tag failure, carrying the tag.
pub open spec fn sp_body_finish(acc: BodySlots, j: int) -> SpOut<BodyV> {
    match acc.tag {
        Some(tag) => if tag == tag_init() {
            match (acc.msg_id, acc.node_id, acc.node_ids, acc.in_reply_to, acc.echo) {
                (Some(msg_id), Some(node_id), Some(node_ids), None, None) => SpOut::Parsed(
                    BodyV::Init { msg_id, node_id, node_ids },
                    j,
                ),
                _ => SpOut::Fail,
            }
        } else if tag == tag_init_ok() {
            match (acc.msg_id, acc.node_id, acc.node_ids, acc.in_reply_to, acc.echo) {
                (None, None, None, Some(in_reply_to), None) => SpOut::Parsed(
                    BodyV::InitOk { in_reply_to },
                    j,
                ),
                _ => SpOut::Fail,
            }
        } else if tag == tag_echo() {
            match (acc.msg_id, acc.node_id, acc.node_ids, acc.in_reply_to, acc.echo) {
                (Some(msg_id), None, None, None, Some(echo)) => SpOut::Parsed(
                    BodyV::Echo { msg_id, echo },
                    j,
                ),
                _ => SpOut::Fail,
            }
        } else if tag == tag_echo_ok() {
            match (acc.msg_id, acc.node_id, acc.node_ids, acc.in_reply_to, acc.echo) {
                (Some(msg_id), None, None, Some(in_reply_to), Some(echo)) => SpOut::Parsed(
                    BodyV::EchoOk { msg_id, in_reply_to, echo },
                    j,
                ),
                _ => SpOut::Fail,
            }
        } else {
            SpOut::UnknownTag(tag)
        },
        None => SpOut::Fail,
    }
}

/// A body object in any JSON layout.
pub open spec fn sp_body_any(s: Seq<char>, i: int) -> SpOut<BodyV> {
    if i < s.len() && s[i] == '{' {
        let i1 = sp_ws(s, i + 1);
        match sp_body_members(
            s,
            i1,
            BodySlots {
                tag: None,
                msg_id: None,
                node_id: None,
                node_ids: None,
                in_reply_to: None,
                echo: None,
            },
        ) {
            SpOut::Parsed(acc, j) => sp_body_finish(acc, j),
            SpOut::BadNode(b, x) => SpOut::BadNode(b, x),
            SpOut::UnknownTag(x) => SpOut::UnknownTag(x),
            SpOut::Fail => SpOut::Fail,
        }
    } else {
        SpOut::Fail
    }
}

/// One `"name": value` member of the envelope, entered at its name;
/// rejects unknown and repeated names.
pub open spec fn sp_env_member(s: Seq<char>, i: int, acc: EnvSlots) -> SpOut<EnvSlots> {
    match sp_string(s, i) {
        Some((name, j)) => {
            let j2 = sp_ws(s, j);
            if j2 < s.len() && s[j2] == ':' {
                let j3 = sp_ws(s, j2 + 1);
                if name == name_src() && acc.src is None {
                    match sp_node_id(s, j3) {
                        SpOut::Parsed(id, j4) => SpOut::Parsed(
                            EnvSlots { src: Some(id), dest: acc.dest, body: acc.body },
                            j4,
                        ),
                        SpOut::BadNode(b, x) => SpOut::BadNode(b, x),
                        SpOut::UnknownTag(x) => SpOut::UnknownTag(x),
                        SpOut::Fail => SpOut::Fail,
                    }
                } else if name == name_dest() && acc.dest is None {
                    match sp_node_id(s, j3) {
                        SpOut::Parsed(id, j4) => SpOut::Parsed(
                            EnvSlots { src: acc.src, dest: Some(id), body: acc.body },
                            j4,
                        ),
                        SpOut::BadNode(b, x) => SpOut::BadNode(b, x),
                        SpOut::UnknownTag(x) => SpOut::UnknownTag(x),
                        SpOut::Fail => SpOut::Fail,
                    }
                } else if name == name_body() && acc.body is None {
                    match sp_body_any(s, j3) {
                        SpOut::Parsed(bv, j4) => SpOut::Parsed(
                            EnvSlots { src: acc.src, dest: acc.dest, body: Some(bv) },
                            j4,
                        ),
                        SpOut::BadNode(b, x) => SpOut::BadNode(b, x),
                        SpOut::UnknownTag(x) => SpOut::UnknownTag(x),
                        SpOut::Fail => SpOut::Fail,
                    }
                } else {
                    SpOut::Fail
                }
            } else {
                SpOut::Fail
            }
        },
        None => SpOut::Fail,
    }
}

/// The members of the envelope object, entered at the first member's
/// name; ends after the `}`.
pub open spec fn sp_env_members(s: Seq<char>, i: int, acc: EnvSlots) -> SpOut<EnvSlots>
    decreases s.len() - i,
{
    match sp_env_member(s, i, acc) {
        SpOut::Parsed(acc2, j4) => {
            let j5 = sp_ws(s, j4);
            if j5 < s.len() && s[j5] == ',' {
                let j6 = sp_ws(s, j5 + 1);
                if i < j6 && j6 <= s.len() {
                    sp_env_members(s, j6, acc2)
                } else {
                    SpOut::Fail
                }
            } else if j5 < s.len() && s[j5] == '}' {
                SpOut::Parsed(acc2, j5 + 1)
            } else {
                SpOut::Fail
            }
        },
        SpOut::BadNode(b, x) => SpOut::BadNode(b, x),
        SpOut::UnknownTag(x) => SpOut::UnknownTag(x),
        SpOut::Fail => SpOut::Fail,
    }
}

/// A whole message line in any JSON layout: the three members `src`,
/// `dest` and `body` in any order, each exactly once, whitespace
/// insignificant, then only whitespace to the end of the line.
pub open spec fn sp_msg_general(s: Seq<char>) -> SpOut<(NodeId, NodeId, BodyV)> {
    let i0 = sp_ws(s, 0);
    if i0 < s.len() && s[i0] == '{' {
        let i1 = sp_ws(s, i0 + 1);
        match sp_env_members(s, i1, EnvSlots { src: None, dest: None, body: None }) {
            SpOut::Parsed(acc, j) => match (acc.src, acc.dest, acc.body) {
                (Some(src), Some(dest), Some(bv)) => if all_ws(s, j) {
                    SpOut::Parsed((src, dest, bv), j)
                } else {
                    SpOut::Fail
                },
                _ => SpOut::Fail,
            },
            SpOut::BadNode(b, x) => SpOut::BadNode(b, x),
            SpOut::UnknownTag(x) => SpOut::UnknownTag(x),
            SpOut::Fail => SpOut::Fail,
        }
    } else {
        SpOut::Fail
    }
}

/// The wire grammar the decoder answers to: the canonical layout is
/// recognized as such, and every other text is read by the general
/// layout.  On canonical text the two agree, so this is the general
/// grammar with the canonical case pinned to the canonical parse.
pub open spec fn sp_msg_any(s: Seq<char>) -> SpOut<(NodeId, NodeId, BodyV)> {
    match sp_msg(s) {
        SpOut::Parsed(e, j) => SpOut::Parsed(e, j),
        _ => sp_msg_general(s),
    }
}

/// The member names are pairwise distinct.
pub proof fn lemma_names_distinct()
    ensures
        name_src() != name_dest(),
        name_src() != name_body(),
        name_dest() != name_body(),
        name_type() != name_msg_id(),
        name_type() != name_node_id(),
        name_type() != name_node_ids(),
        name_type() != name_in_reply_to(),
        name_type() != name_echo(),
        name_msg_id() != name_node_id(),
        name_msg_id() != name_node_ids(),
        name_msg_id() != name_in_reply_to(),
        name_msg_id() != name_echo(),
        name_node_id() != name_node_ids(),
        name_node_id() != name_in_reply_to(),
        name_node_id() != name_echo(),
        name_node_ids() != name_in_reply_to(),
        name_node_ids() != name_echo(),
        name_in_reply_to() != name_echo(),
{
    assert(name_src().len() == 3);
    assert(name_dest().len() == 4);
    assert(name_body().len() == 4);
    assert(name_type().len() == 4);
    assert(name_msg_id().len() == 6);
    assert(name_node_id().len() == 7);
    assert(name_node_ids().len() == 8);
    assert(name_in_reply_to().len() == 11);
    assert(name_echo().len() == 4);
    assert(name_dest()[0] != name_body()[0]);
    assert(name_type()[0] != name_echo()[0]);
}

/// The fixed tokens, as the executable code writes and matches them.
pub proof fn lemma_wire_tokens()
    ensures
        ("{\"src\":")@ == lit_src(),
        (",\"dest\":")@ == lit_dest(),
        (",\"body\":")@ == lit_body(),
        ("{\"type\":")@ == lit_type(),
        (",\"msg_id\":")@ == lit_msg_id(),
        (",\"node_id\":")@ == lit_node_id(),
        (",\"node_ids\":")@ == lit_node_ids(),
        (",\"in_reply_to\":")@ == lit_in_reply_to(),
        (",\"echo\":")@ == lit_echo(),
        ("init")@ == tag_init(),
        ("init_ok")@ == tag_init_ok(),
        ("echo")@ == tag_echo(),
        ("echo_ok")@ == tag_echo_ok(),
        ("src")@ == name_src(),
        ("dest")@ == name_dest(),
        ("body")@ == name_body(),
        ("type")@ == name_type(),
        ("msg_id")@ == name_msg_id(),
        ("node_id")@ == name_node_id(),
        ("node_ids")@ == name_node_ids(),
        ("in_reply_to")@ == name_in_reply_to(),
        ("echo")@ == name_echo(),
{
    reveal_strlit("{\"src\":");
    reveal_strlit(",\"dest\":");
    reveal_strlit(",\"body\":");
    reveal_strlit("{\"type\":");
    reveal_strlit(",\"msg_id\":");
    reveal_strlit(",\"node_id\":");
    reveal_strlit(",\"node_ids\":");
    reveal_strlit(",\"in_reply_to\":");
    reveal_strlit(",\"echo\":");
    reveal_strlit("init");
    reveal_strlit("init_ok");
    reveal_strlit("echo");
    reveal_strlit("echo_ok");
    assert(("{\"src\":")@ =~= lit_src());
    assert((",\"dest\":")@ =~= lit_dest());
    assert((",\"body\":")@ =~= lit_body());
    assert(("{\"type\":")@ =~= lit_type());
    assert((",\"msg_id\":")@ =~= lit_msg_id());
    assert((",\"node_id\":")@ =~= lit_node_id());
    assert((",\"node_ids\":")@ =~= lit_node_ids());
    assert((",\"in_reply_to\":")@ =~= lit_in_reply_to());
    assert((",\"echo\":")@ =~= lit_echo());
    assert(("init")@ =~= tag_init());
    assert(("init_ok")@ =~= tag_init_ok());
    assert(("echo")@ =~= tag_echo());
    assert(("echo_ok")@ =~= tag_echo_ok());
    reveal_strlit("src");
    reveal_strlit("dest");
    reveal_strlit("body");
    reveal_strlit("type");
    reveal_strlit("msg_id");
    reveal_strlit("node_id");
    reveal_strlit("node_ids");
    reveal_strlit("in_reply_to");
    assert(("src")@ =~= name_src());
    assert(("dest")@ =~= name_dest());
    assert(("body")@ =~= name_body());
    assert(("type")@ =~= name_type());
    assert(("msg_id")@ =~= name_msg_id());
    assert(("node_id")@ =~= name_node_id());
    assert(("node_ids")@ =~= name_node_ids());
    assert(("in_reply_to")@ =~= name_in_reply_to());
    assert(("echo")@ =~= name_echo());
}

} // verus!
