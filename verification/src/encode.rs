//! The executable encoder, verified to produce exactly the canonical text
//! `enc_msg` of a message.
use vstd::prelude::*;
use vstd::string::StringExecFns;

use crate::codec::body_view;
use crate::codec::enc_body;
use crate::codec::enc_id_array;
use crate::codec::enc_id_list;
use crate::codec::enc_msg;
use crate::codec::enc_node_id;
use crate::codec::esc_char;
use crate::codec::esc_str;
use crate::codec::hex_digit;
use crate::message::Message;
use crate::message::MessageBody;
use crate::node_id::NodeId;
use crate::node_id::push_char;
use crate::node_id::push_i64;

verus! {

/// Escaping distributes over concatenation.
pub proof fn lemma_esc_str_append(a: Seq<char>, b: Seq<char>)
    ensures
        esc_str(a + b) == esc_str(a) + esc_str(b),
    decreases a.len(),
{
    if a.len() == 0 {
        assert(a + b =~= b);
        assert(esc_str(a) + esc_str(b) =~= esc_str(b));
    } else {
        lemma_esc_str_append(a.drop_first(), b);
        assert((a + b).drop_first() =~= a.drop_first() + b);
        assert((a + b)[0] == a[0]);
        assert(esc_char(a[0]) + (esc_str(a.drop_first()) + esc_str(b)) =~= (esc_char(a[0])
            + esc_str(a.drop_first())) + esc_str(b));
    }
}

/// Escaping a single character is its escape sequence.
pub proof fn lemma_esc_str_single(c: char)
    ensures
        esc_str(seq![c]) == esc_char(c),
{
    assert(seq![c].drop_first() =~= Seq::<char>::empty());
    assert(esc_str(Seq::<char>::empty()) =~= Seq::<char>::empty());
    assert(esc_str(seq![c]) =~= esc_char(c) + esc_str(seq![c].drop_first()));
    assert(esc_char(c) + Seq::<char>::empty() =~= esc_char(c));
}

/// Appends the escaped form of `s`.
fn push_esc_str(out: &mut String, s: &str)
    ensures
        final(out)@ == old(out)@ + esc_str(s@),
{
    let n = s.unicode_len();
    let mut k: usize = 0;
    while k < n
        invariant
            k <= n,
            n == s@.len(),
            out@ == old(out)@ + esc_str(s@.take(k as int)),
        decreases n - k,
    {
        let c = s.get_char(k);
        proof {
            lemma_esc_str_append(s@.take(k as int), seq![c]);
            assert(s@.take(k + 1) =~= s@.take(k as int) + seq![c]);
            lemma_esc_str_single(c);
        }
        if c == '"' {
            push_char(out, '\\');
            push_char(out, '"');
        } else if c == '\\' {
            push_char(out, '\\');
            push_char(out, '\\');
        } else if (c as u32) < 32 {
            push_char(out, '\\');
            push_char(out, 'u');
            push_char(out, '0');
            push_char(out, '0');
            let x = c as u32;
            let h = (x / 16) as u8;
            let l = (x % 16) as u8;
            let hc = (48 + h) as char;
            let lc = if l < 10 {
                (48 + l) as char
            } else {
                (97 + (l - 10)) as char
            };
            proof {
                assert(hc == hex_digit(c as int / 16));
                assert(lc == hex_digit(c as int % 16));
            }
            push_char(out, hc);
            push_char(out, lc);
        } else {
            push_char(out, c);
        }
        proof {
            assert(out@ =~= old(out)@ + esc_str(s@.take(k + 1)));
        }
        k += 1;
    }
    proof {
        assert(s@.take(n as int) =~= s@);
    }
}

/// Appends a node id in quotes.
fn push_node_id_str(out: &mut String, id: NodeId)
    ensures
        final(out)@ == old(out)@ + enc_node_id(id),
{
    let f = id.format();
    push_char(out, '"');
    out.append(f.as_str());
    push_char(out, '"');
    proof {
        assert(out@ =~= old(out)@ + enc_node_id(id));
    }
}

/// Splitting off the last element of a non-singleton roster splits its
/// encoding at the separating comma.
proof fn lemma_enc_id_list_snoc(ids: Seq<NodeId>, k: int)
    requires
        1 <= k < ids.len(),
    ensures
        enc_id_list(ids.take(k + 1)) == enc_id_list(ids.take(k)) + seq![','] + enc_node_id(
            ids[k],
        ),
    decreases k,
{
    let t1 = ids.take(k + 1);
    let t0 = ids.take(k);
    if k == 1 {
        assert(t1.drop_first() =~= seq![ids[1]]);
        assert(t0 =~= seq![ids[0]]);
        assert(enc_id_list(seq![ids[1]]) == enc_node_id(ids[1]));
        assert(enc_id_list(t1) =~= enc_id_list(t0) + seq![','] + enc_node_id(ids[k]));
    } else {
        lemma_enc_id_list_snoc(ids.drop_first(), k - 1);
        assert(t1.drop_first() =~= ids.drop_first().take(k));
        assert(t0.drop_first() =~= ids.drop_first().take(k - 1));
        assert(ids.drop_first()[k - 1] == ids[k]);
        assert(enc_id_list(t1) =~= enc_id_list(t0) + seq![','] + enc_node_id(ids[k]));
    }
}

/// Appends the array form of the roster.
fn push_id_array(out: &mut String, ids: &Vec<NodeId>)
    ensures
        final(out)@ == old(out)@ + enc_id_array(ids@),
{
    push_char(out, '[');
    let mut k: usize = 0;
    while k < ids.len()
        invariant
            k <= ids@.len(),
            out@ == old(out)@ + (seq!['['] + enc_id_list(ids@.take(k as int))),
        decreases ids@.len() - k,
    {
        if k > 0 {
            push_char(out, ',');
        }
        let id = ids[k];
        push_node_id_str(out, id);
        proof {
            if k == 0 {
                assert(ids@.take(1) =~= seq![ids@[0]]);
                assert(enc_id_list(ids@.take(1)) == enc_node_id(ids@[0]));
            } else {
                lemma_enc_id_list_snoc(ids@, k as int);
            }
            assert(out@ =~= old(out)@ + (seq!['['] + enc_id_list(ids@.take(k + 1))));
        }
        k += 1;
    }
    push_char(out, ']');
    proof {
        assert(ids@.take(ids@.len() as int) =~= ids@);
        assert(out@ =~= old(out)@ + enc_id_array(ids@));
    }
}

/// Appends the canonical text of a body object.
#[verifier::rlimit(100)]
fn push_body(out: &mut String, b: &MessageBody)
    ensures
        final(out)@ == old(out)@ + enc_body(body_view(*b)),
{
    proof {
        crate::codec::lemma_wire_tokens();
    }
    match b {
        MessageBody::Init(x) => {
            out.append("{\"type\":");
            push_char(out, '"');
            push_esc_str(out, "init");
            push_char(out, '"');
            out.append(",\"msg_id\":");
            push_i64(out, x.msg_id);
            out.append(",\"node_id\":");
            push_node_id_str(out, x.node_id);
            out.append(",\"node_ids\":");
            push_id_array(out, &x.node_ids);
            push_char(out, '}');
            proof {
                assert(out@ =~= old(out)@ + enc_body(body_view(*b)));
            }
        },
        MessageBody::InitOk(x) => {
            out.append("{\"type\":");
            push_char(out, '"');
            push_esc_str(out, "init_ok");
            push_char(out, '"');
            out.append(",\"in_reply_to\":");
            push_i64(out, x.in_reply_to);
            push_char(out, '}');
            proof {
                assert(out@ =~= old(out)@ + enc_body(body_view(*b)));
            }
        },
        MessageBody::Echo(x) => {
            out.append("{\"type\":");
            push_char(out, '"');
            push_esc_str(out, "echo");
            push_char(out, '"');
            out.append(",\"msg_id\":");
            push_i64(out, x.msg_id);
            out.append(",\"echo\":");
            push_char(out, '"');
            push_esc_str(out, x.echo.as_str());
            push_char(out, '"');
            push_char(out, '}');
            proof {
                assert(out@ =~= old(out)@ + enc_body(body_view(*b)));
            }
        },
        MessageBody::EchoOk(x) => {
            out.append("{\"type\":");
            push_char(out, '"');
            push_esc_str(out, "echo_ok");
            push_char(out, '"');
            out.append(",\"msg_id\":");
            push_i64(out, x.msg_id);
            out.append(",\"in_reply_to\":");
            push_i64(out, x.in_reply_to);
            out.append(",\"echo\":");
            push_char(out, '"');
            push_esc_str(out, x.echo.as_str());
            push_char(out, '"');
            push_char(out, '}');
            proof {
                assert(out@ =~= old(out)@ + enc_body(body_view(*b)));
            }
        },
    }
}

/// Encodes a message as its canonical line text (without the newline).
pub fn encode_message(m: &Message<MessageBody>) -> (r: String)
    ensures
        r@ == enc_msg(m.src, m.dest, body_view(m.body)),
{
    proof {
        crate::codec::lemma_wire_tokens();
    }
    let mut out = String::new();
    out.append("{\"src\":");
    push_node_id_str(&mut out, m.src);
    out.append(",\"dest\":");
    push_node_id_str(&mut out, m.dest);
    out.append(",\"body\":");
    push_body(&mut out, &m.body);
    push_char(&mut out, '}');
    proof {
        assert(out@ =~= enc_msg(m.src, m.dest, body_view(m.body)));
    }
    out
}

} // verus!
