//! Round-trip laws of the codec: the spec parser applied to the canonical
//! encoding of any message recovers exactly that message.  Together with
//! the contracts of `encode_message` and `decode_message`, this gives
//! `decode(encode(m)) == Ok(m)` up to views, for every message.
use vstd::prelude::*;

use crate::codec::BodyV;
use crate::codec::SpOut;
use crate::codec::enc_body;
use crate::codec::enc_id_array;
use crate::codec::enc_id_list;
use crate::codec::enc_msg;
use crate::codec::enc_node_id;
use crate::codec::enc_str;
use crate::codec::esc_char;
use crate::codec::esc_str;
use crate::codec::hex_digit;
use crate::codec::digits_end;
use crate::codec::lit_body;
use crate::codec::lit_dest;
use crate::codec::lit_echo;
use crate::codec::lit_in_reply_to;
use crate::codec::lit_msg_id;
use crate::codec::lit_node_id;
use crate::codec::lit_node_ids;
use crate::codec::lit_src;
use crate::codec::lit_type;
use crate::codec::sp_body;
use crate::codec::sp_echo_fields;
use crate::codec::sp_echo_ok_fields;
use crate::codec::sp_escape;
use crate::codec::sp_hex_val;
use crate::codec::sp_i64;
use crate::codec::sp_id_array;
use crate::codec::sp_id_elems;
use crate::codec::sp_init_fields;
use crate::codec::sp_init_ok_fields;
use crate::codec::sp_lit;
use crate::codec::sp_msg;
use crate::codec::sp_msg_any;
use crate::codec::sp_node_id;
use crate::codec::sp_string;
use crate::codec::sp_string_body;
use crate::codec::tag_echo;
use crate::codec::tag_echo_ok;
use crate::codec::tag_init;
use crate::codec::tag_init_ok;
use crate::codec::all_ws;
use crate::node_id::NodeId;
use crate::node_id::dec_digits;
use crate::node_id::digits_val;
use crate::node_id::int_chars;
use crate::node_id::is_dec_digit;
use crate::node_id::lemma_dec_digits_val;
use crate::node_id::lemma_node_id_roundtrip;
use crate::node_id::node_id_chars;
use crate::node_id::node_id_of;

verus! {

/// Text in which no character needs escaping.
pub open spec fn plain_text(t: Seq<char>) -> bool {
    forall|q: int|
        0 <= q < t.len() ==> (#[trigger] t[q]) != '"' && t[q] != '\\' && t[q] as int >= 32
}

/// A character's numeric value is a valid Unicode scalar, in particular
/// non-negative.
proof fn lemma_char_val(c: char)
    ensures
        0 <= c as int,
        c as int == c as u32 as int,
{
    let u = c as u32;
    vstd::utf8::char_is_scalar(c);
    vstd::utf8::char_u32_cast(c, u);
    assert(u < 0xD800 || (0xE000 <= u && u <= 0x10FFFF));
    assert((u as char) as int == u as int);
    assert(c as int == u as int);
}

/// Escaping leaves plain text unchanged.
proof fn lemma_esc_plain(t: Seq<char>)
    requires
        plain_text(t),
    ensures
        esc_str(t) == t,
    decreases t.len(),
{
    if t.len() == 0 {
        assert(esc_str(t) =~= t);
    } else {
        lemma_esc_plain(t.drop_first());
        assert(esc_char(t[0]) =~= seq![t[0]]);
        assert(esc_str(t) =~= t);
    }
}

/// The canonical text of a node id is plain.
proof fn lemma_node_id_chars_plain(id: NodeId)
    ensures
        plain_text(node_id_chars(id)),
{
    let t = node_id_chars(id);
    let v: int = match id {
        NodeId::Server(w) => w as int,
        NodeId::Client(w) => w as int,
    };
    let m: nat = if v < 0 {
        (-v) as nat
    } else {
        v as nat
    };
    lemma_dec_digits_val(m);
    let dn = dec_digits(m);
    assert forall|q: int| 0 <= q < t.len() implies (#[trigger] t[q]) != '"' && t[q] != '\\' && t[q]
        as int >= 32 by {
        if q > 0 {
            let w = t.drop_first();
            assert(w =~= int_chars(v));
            if v < 0 {
                if q >= 2 {
                    assert(is_dec_digit(dn[q - 2]));
                    assert(t[q] == dn[q - 2]);
                }
            } else {
                assert(is_dec_digit(dn[q - 1]));
                assert(t[q] == dn[q - 1]);
            }
        }
    }
}

/// The string parser recovers any text from its escaped, quote-terminated
/// form.
proof fn lemma_string_body_rt(t: Seq<char>, pre: Seq<char>, post: Seq<char>)
    ensures
        sp_string_body(pre + esc_str(t) + seq!['"'] + post, pre.len() as int) == Some(
            (t, (pre.len() + esc_str(t).len() + 1) as int),
        ),
    decreases t.len(),
{
    let s = pre + esc_str(t) + seq!['"'] + post;
    let i = pre.len() as int;
    if t.len() == 0 {
        assert(esc_str(t) =~= Seq::<char>::empty());
        assert(s[i] == '"');
        assert(sp_string_body(s, i) == Some((Seq::<char>::empty(), i + 1)));
        assert(t =~= Seq::<char>::empty());
    } else {
        let c = t[0];
        let t1 = t.drop_first();
        assert(esc_str(t) == esc_char(c) + esc_str(t1));
        lemma_string_body_rt(t1, pre + esc_char(c), post);
        assert((pre + esc_char(c)) + esc_str(t1) + seq!['"'] + post =~= s);
        let j = i + esc_char(c).len();
        // the recursion yields the tail of the text
        assert(sp_string_body(s, j) == Some((t1, i + esc_str(t).len() as int + 1)));
        if c == '"' {
            assert(s[i] == '\\' && s[i + 1] == '"');
            assert(sp_escape(s, i + 1) == Some((c, i + 2)));
        } else if c == '\\' {
            assert(s[i] == '\\' && s[i + 1] == '\\');
            assert(sp_escape(s, i + 1) == Some((c, i + 2)));
        } else if (c as int) < 32 {
            assert(s[i] == '\\' && s[i + 1] == 'u' && s[i + 2] == '0' && s[i + 3] == '0');
            assert(s[i + 4] == hex_digit(c as int / 16) && s[i + 5] == hex_digit(c as int % 16));
            let h = c as int / 16;
            let l = c as int % 16;
            lemma_char_val(c);
            assert(0 <= (c as int) && (c as int) < 32);
            assert(0 <= h < 2 && 0 <= l < 16);
            assert(hex_digit(h) as int == h + 48);
            assert(hex_digit(l) as int == (if l < 10 {
                l + 48
            } else {
                l + 87
            }));
            assert(sp_hex_val(hex_digit(h)) == Some(h as nat));
            assert(sp_hex_val(hex_digit(l)) == Some(l as nat));
            assert(sp_hex_val('0') == Some(0 as nat));
            assert(((0 * 16 + 0) * 16 + h) * 16 + l == h * 16 + l);
            assert(0 <= h * 16 + l < 0xD800);
            assert(((h * 16 + l) as int) as char == c);
            assert(sp_escape(s, i + 1) == Some((c, i + 6)));
        } else {
            assert(s[i] == c);
        }
        assert(seq![c] + t1 =~= t);
        assert(sp_string_body(s, i) == Some((t, i + esc_str(t).len() as int + 1)));
    }
}

/// The digit run starting at `i` ends exactly where the digits end.
proof fn lemma_digits_end_at(s: Seq<char>, i: int, e: int)
    requires
        0 <= i <= e <= s.len(),
        forall|t: int| i <= t < e ==> is_dec_digit(#[trigger] s[t]),
        e < s.len() ==> !is_dec_digit(s[e]),
    ensures
        digits_end(s, i) == e,
    decreases e - i,
{
    if i < e {
        assert(is_dec_digit(s[i]));
        lemma_digits_end_at(s, i + 1, e);
    }
}

/// The integer parser recovers any signed 64-bit value from its canonical
/// text, provided a non-digit follows.
proof fn lemma_i64_rt(v: i64, pre: Seq<char>, post: Seq<char>)
    requires
        post.len() > 0,
        !is_dec_digit(post[0]),
    ensures
        sp_i64(pre + int_chars(v as int) + post, pre.len() as int) == Some(
            (v, (pre.len() + int_chars(v as int).len()) as int),
        ),
{
    let s = pre + int_chars(v as int) + post;
    let i = pre.len() as int;
    let m: nat = if v < 0 {
        (-(v as int)) as nat
    } else {
        v as nat
    };
    lemma_dec_digits_val(m);
    let dn = dec_digits(m);
    let d0: int = if v < 0 {
        i + 1
    } else {
        i
    };
    let e = d0 + dn.len();
    if v < 0 {
        assert(s[i] == '-');
        assert(int_chars(v as int) =~= seq!['-'] + dn);
    } else {
        assert(int_chars(v as int) =~= dn);
        assert(is_dec_digit(s[i]));
        assert(s[i] != '-');
    }
    assert(s.subrange(d0, e) =~= dn);
    assert forall|t: int| d0 <= t < e implies is_dec_digit(#[trigger] s[t]) by {
        assert(s[t] == dn[t - d0]);
    }
    assert(s[e] == post[0]);
    lemma_digits_end_at(s, d0, e);
    assert(digits_val(s.subrange(d0, e)) == m);
    // canonical text never carries a leading zero
    assert(s[d0] == dn[0]);
    if dn.len() > 1 {
        assert(m >= 10);
        assert(s[d0] != '0');
    }
}

/// The node-id parser recovers any node id from its quoted canonical text.
proof fn lemma_node_id_rt(id: NodeId, pre: Seq<char>, post: Seq<char>)
    ensures
        sp_node_id(pre + enc_node_id(id) + post, pre.len() as int) == SpOut::<NodeId>::Parsed(
            id,
            pre.len() + enc_node_id(id).len() as int,
        ),
{
    let s = pre + enc_node_id(id) + post;
    let i = pre.len() as int;
    let t = node_id_chars(id);
    lemma_node_id_chars_plain(id);
    lemma_esc_plain(t);
    assert(s =~= (pre + seq!['"']) + esc_str(t) + seq!['"'] + post);
    lemma_string_body_rt(t, pre + seq!['"'], post);
    assert(s[i] == '"');
    assert(sp_string(s, i) == Some((t, i + enc_node_id(id).len() as int)));
    lemma_node_id_roundtrip(id);
    assert(node_id_of(t) == Some(id));
}

/// The element parser recovers a non-empty roster from its encoded,
/// bracket-terminated form.
#[verifier::rlimit(100)]
proof fn lemma_id_elems_rt(ids: Seq<NodeId>, pre: Seq<char>, post: Seq<char>)
    requires
        ids.len() > 0,
    ensures
        sp_id_elems(pre + enc_id_list(ids) + seq![']'] + post, pre.len() as int) == SpOut::<
            Seq<NodeId>,
        >::Parsed(ids, pre.len() + enc_id_list(ids).len() + 1 as int),
    decreases ids.len(),
{
    let s = pre + enc_id_list(ids) + seq![']'] + post;
    let i = pre.len() as int;
    if ids.len() == 1 {
        assert(enc_id_list(ids) == enc_node_id(ids[0]));
        assert(s =~= pre + enc_node_id(ids[0]) + (seq![']'] + post));
        lemma_node_id_rt(ids[0], pre, seq![']'] + post);
        let j = i + enc_node_id(ids[0]).len();
        assert(s[j] == ']');
        assert(seq![ids[0]] =~= ids);
    } else {
        let rest = ids.drop_first();
        assert(enc_id_list(ids) == enc_node_id(ids[0]) + seq![','] + enc_id_list(rest));
        let mid = pre + enc_node_id(ids[0]) + seq![','];
        assert(s =~= pre + enc_node_id(ids[0]) + (seq![','] + enc_id_list(rest) + seq![']']
            + post));
        lemma_node_id_rt(ids[0], pre, seq![','] + enc_id_list(rest) + seq![']'] + post);
        let j = i + enc_node_id(ids[0]).len();
        assert(s[j] == ',');
        assert(s[j] != ']');
        assert(mid + enc_id_list(rest) + seq![']'] + post =~= s);
        lemma_id_elems_rt(rest, mid, post);
        assert(seq![ids[0]] + rest =~= ids);
    }
}

/// The array parser recovers any roster from its encoded form.
proof fn lemma_id_array_rt(ids: Seq<NodeId>, pre: Seq<char>, post: Seq<char>)
    ensures
        sp_id_array(pre + enc_id_array(ids) + post, pre.len() as int) == SpOut::<
            Seq<NodeId>,
        >::Parsed(ids, pre.len() + enc_id_array(ids).len() as int),
{
    let s = pre + enc_id_array(ids) + post;
    let i = pre.len() as int;
    assert(s[i] == '[');
    if ids.len() == 0 {
        assert(enc_id_list(ids) =~= Seq::<char>::empty());
        assert(s[i + 1] == ']');
        assert(Seq::<NodeId>::empty() =~= ids);
    } else {
        assert(enc_id_list(ids)[0] == enc_node_id(ids[0])[0]);
        assert(enc_node_id(ids[0])[0] == '"');
        assert(s[i + 1] == '"');
        assert(s[i + 1] != ']');
        assert((pre + seq!['[']) + enc_id_list(ids) + seq![']'] + post =~= s);
        lemma_id_elems_rt(ids, pre + seq!['['], post);
    }
}

/// Distinct tags of the closed set.
proof fn lemma_tags_distinct()
    ensures
        tag_init() != tag_init_ok(),
        tag_init() != tag_echo(),
        tag_init() != tag_echo_ok(),
        tag_init_ok() != tag_echo(),
        tag_init_ok() != tag_echo_ok(),
        tag_echo() != tag_echo_ok(),
{
    assert(tag_init()[0] != tag_echo()[0]);
    assert(tag_init_ok()[0] != tag_echo_ok()[0]);
    assert(tag_init().len() != tag_init_ok().len());
    assert(tag_init().len() != tag_echo_ok().len());
    assert(tag_init_ok().len() != tag_echo().len());
    assert(tag_echo().len() != tag_echo_ok().len());
}

/// The leading fields of an `init` body — the message id and the node's
/// own id — parse back from their text, whatever follows.
#[verifier::rlimit(100)]
proof fn lemma_init_front_rt(msg_id: i64, node_id: NodeId, pre: Seq<char>, tail: Seq<char>)
    requires
        tail.len() > 0,
        tail[0] == ',',
    ensures
        ({
            let s = pre + lit_msg_id() + int_chars(msg_id as int) + lit_node_id() + enc_node_id(
                node_id,
            ) + tail;
            let p2 = pre.len() as int;
            let p3 = p2 + lit_msg_id().len() as int;
            let p4 = p3 + int_chars(msg_id as int).len() as int;
            let p5 = p4 + lit_node_id().len() as int;
            let p6 = p5 + enc_node_id(node_id).len() as int;
            &&& sp_lit(s, p2, lit_msg_id()) == Some(p3)
            &&& sp_i64(s, p3) == Some((msg_id, p4))
            &&& sp_lit(s, p4, lit_node_id()) == Some(p5)
            &&& sp_node_id(s, p5) == SpOut::<NodeId>::Parsed(node_id, p6)
        }),
{
    let s = pre + lit_msg_id() + int_chars(msg_id as int) + lit_node_id() + enc_node_id(node_id)
        + tail;
    let p2 = pre.len() as int;
    let p3 = p2 + lit_msg_id().len() as int;
    let p4 = p3 + int_chars(msg_id as int).len() as int;
    let p5 = p4 + lit_node_id().len() as int;
    assert(s.subrange(p2, p3) =~= lit_msg_id());
    let pre_int = pre + lit_msg_id();
    let post_int = lit_node_id() + enc_node_id(node_id) + tail;
    assert(post_int[0] == ',');
    assert(pre_int + int_chars(msg_id as int) + post_int =~= s);
    lemma_i64_rt(msg_id, pre_int, post_int);
    assert(s.subrange(p4, p5) =~= lit_node_id());
    let pre_nid = pre_int + int_chars(msg_id as int) + lit_node_id();
    assert(pre_nid.len() == p5);
    assert(pre_nid + enc_node_id(node_id) + tail =~= s);
    lemma_node_id_rt(node_id, pre_nid, tail);
}

/// The field section of an `init` body parses back to its fields.
#[verifier::rlimit(100)]
proof fn lemma_init_fields_rt(
    msg_id: i64,
    node_id: NodeId,
    node_ids: Seq<NodeId>,
    pre: Seq<char>,
    post: Seq<char>,
)
    ensures
        ({
            let fields = lit_msg_id() + int_chars(msg_id as int) + lit_node_id() + enc_node_id(
                node_id,
            ) + lit_node_ids() + enc_id_array(node_ids) + seq!['}'];
            sp_init_fields(pre + fields + post, pre.len() as int) == SpOut::<BodyV>::Parsed(
                BodyV::Init { msg_id, node_id, node_ids },
                pre.len() + fields.len() as int,
            )
        }),
{
    let fields = lit_msg_id() + int_chars(msg_id as int) + lit_node_id() + enc_node_id(node_id)
        + lit_node_ids() + enc_id_array(node_ids) + seq!['}'];
    let s = pre + fields + post;
    let p2 = pre.len() as int;
    let p3 = p2 + lit_msg_id().len() as int;
    let p4 = p3 + int_chars(msg_id as int).len() as int;
    let p5 = p4 + lit_node_id().len() as int;
    let p6 = p5 + enc_node_id(node_id).len() as int;
    let p7 = p6 + lit_node_ids().len() as int;
    let p8 = p7 + enc_id_array(node_ids).len() as int;
    let tail = lit_node_ids() + enc_id_array(node_ids) + seq!['}'] + post;
    assert(tail[0] == ',');
    assert(pre + lit_msg_id() + int_chars(msg_id as int) + lit_node_id() + enc_node_id(node_id)
        + tail =~= s);
    lemma_init_front_rt(msg_id, node_id, pre, tail);
    assert(s.subrange(p6, p7) =~= lit_node_ids());
    let pre_arr = pre + lit_msg_id() + int_chars(msg_id as int) + lit_node_id() + enc_node_id(
        node_id,
    ) + lit_node_ids();
    assert(pre_arr.len() == p7);
    assert(pre_arr + enc_id_array(node_ids) + (seq!['}'] + post) =~= s);
    lemma_id_array_rt(node_ids, pre_arr, seq!['}'] + post);
    assert(sp_id_array(s, p7) == SpOut::<Seq<NodeId>>::Parsed(node_ids, p8));
    assert(s[p8] == '}');
}

/// The canonical text of an `init` body splits into tag and fields.
#[verifier::rlimit(100)]
proof fn lemma_init_shape(msg_id: i64, node_id: NodeId, node_ids: Seq<NodeId>)
    ensures
        enc_body(BodyV::Init { msg_id, node_id, node_ids }) == lit_type() + enc_str(tag_init()) + (
        lit_msg_id() + int_chars(msg_id as int) + lit_node_id() + enc_node_id(node_id)
            + lit_node_ids() + enc_id_array(node_ids) + seq!['}']),
{
    assert(enc_body(BodyV::Init { msg_id, node_id, node_ids }) =~= lit_type() + enc_str(tag_init())
        + (lit_msg_id() + int_chars(msg_id as int) + lit_node_id() + enc_node_id(node_id)
        + lit_node_ids() + enc_id_array(node_ids) + seq!['}']));
}

/// The body parser recovers an `init` body from its canonical text.
#[verifier::rlimit(100)]
proof fn lemma_body_init_rt(
    msg_id: i64,
    node_id: NodeId,
    node_ids: Seq<NodeId>,
    pre: Seq<char>,
    post: Seq<char>,
)
    ensures
        ({
            let bv = BodyV::Init { msg_id, node_id, node_ids };
            sp_body(pre + enc_body(bv) + post, pre.len() as int) == SpOut::<BodyV>::Parsed(
                bv,
                pre.len() + enc_body(bv).len() as int,
            )
        }),
{
    let bv = BodyV::Init { msg_id, node_id, node_ids };
    let s = pre + enc_body(bv) + post;
    let i = pre.len() as int;
    let tg = tag_init();
    let fields = lit_msg_id() + int_chars(msg_id as int) + lit_node_id() + enc_node_id(node_id)
        + lit_node_ids() + enc_id_array(node_ids) + seq!['}'];
    let p1 = i + lit_type().len() as int;
    let p2 = p1 + enc_str(tg).len() as int;
    lemma_init_shape(msg_id, node_id, node_ids);
    assert(s.subrange(i, p1) =~= lit_type());
    let pre_tag = pre + lit_type() + seq!['"'];
    assert(pre_tag + esc_str(tg) + seq!['"'] + (fields + post) =~= s);
    lemma_string_body_rt(tg, pre_tag, fields + post);
    assert(s[p1] == '"');
    assert(sp_string(s, p1) == Some((tg, p2)));
    lemma_tags_distinct();
    let pre_f = pre + lit_type() + enc_str(tg);
    assert(pre_f.len() == p2);
    assert(pre_f + fields + post =~= s);
    lemma_init_fields_rt(msg_id, node_id, node_ids, pre_f, post);
    assert(sp_init_fields(s, p2) == SpOut::<BodyV>::Parsed(bv, p2 + fields.len() as int));
    assert(p2 + fields.len() == i + enc_body(bv).len());
}

/// The body parser recovers an `init_ok` body from its canonical text.
#[verifier::rlimit(100)]
proof fn lemma_body_init_ok_rt(in_reply_to: i64, pre: Seq<char>, post: Seq<char>)
    ensures
        ({
            let bv = BodyV::InitOk { in_reply_to };
            sp_body(pre + enc_body(bv) + post, pre.len() as int) == SpOut::<BodyV>::Parsed(
                bv,
                pre.len() + enc_body(bv).len() as int,
            )
        }),
{
    let bv = BodyV::InitOk { in_reply_to };
    let s = pre + enc_body(bv) + post;
    let i = pre.len() as int;
    let tg = tag_init_ok();
    let p1 = i + lit_type().len() as int;
    let p2 = p1 + enc_str(tg).len() as int;
    let p3 = p2 + lit_in_reply_to().len() as int;
    let p4 = p3 + int_chars(in_reply_to as int).len() as int;
    assert(s.subrange(i, p1) =~= lit_type());
    let pre_tag = pre + lit_type() + seq!['"'];
    let post_tag = lit_in_reply_to() + int_chars(in_reply_to as int) + seq!['}'] + post;
    assert(pre_tag + esc_str(tg) + seq!['"'] + post_tag =~= s);
    lemma_string_body_rt(tg, pre_tag, post_tag);
    assert(s[p1] == '"');
    assert(sp_string(s, p1) == Some((tg, p2)));
    lemma_tags_distinct();
    assert(s.subrange(p2, p3) =~= lit_in_reply_to());
    let pre_int = pre + lit_type() + enc_str(tg) + lit_in_reply_to();
    let post_int = seq!['}'] + post;
    assert(pre_int.len() == p3);
    assert(post_int[0] == '}');
    assert(pre_int + int_chars(in_reply_to as int) + post_int =~= s);
    lemma_i64_rt(in_reply_to, pre_int, post_int);
    assert(sp_i64(s, p3) == Some((in_reply_to, p4)));
    assert(s[p4] == '}');
    assert(sp_init_ok_fields(s, p2) == SpOut::<BodyV>::Parsed(bv, p4 + 1));
    assert(p4 + 1 == i + enc_body(bv).len() as int);
}

/// The field section of an `echo` body parses back to its fields.
#[verifier::rlimit(100)]
proof fn lemma_echo_fields_rt(msg_id: i64, echo: Seq<char>, pre: Seq<char>, post: Seq<char>)
    ensures
        ({
            let fields = lit_msg_id() + int_chars(msg_id as int) + lit_echo() + enc_str(echo)
                + seq!['}'];
            sp_echo_fields(pre + fields + post, pre.len() as int) == SpOut::<BodyV>::Parsed(
                BodyV::Echo { msg_id, echo },
                pre.len() + fields.len() as int,
            )
        }),
{
    let fields = lit_msg_id() + int_chars(msg_id as int) + lit_echo() + enc_str(echo)
        + seq!['}'];
    let s = pre + fields + post;
    let p2 = pre.len() as int;
    let p3 = p2 + lit_msg_id().len() as int;
    let p4 = p3 + int_chars(msg_id as int).len() as int;
    let p5 = p4 + lit_echo().len() as int;
    let p6 = p5 + enc_str(echo).len() as int;
    assert(s.subrange(p2, p3) =~= lit_msg_id());
    let pre_int = pre + lit_msg_id();
    let post_int = lit_echo() + enc_str(echo) + seq!['}'] + post;
    assert(pre_int.len() == p3);
    assert(post_int[0] == ',');
    assert(pre_int + int_chars(msg_id as int) + post_int =~= s);
    lemma_i64_rt(msg_id, pre_int, post_int);
    assert(sp_i64(s, p3) == Some((msg_id, p4)));
    assert(s.subrange(p4, p5) =~= lit_echo());
    let pre_echo = pre_int + int_chars(msg_id as int) + lit_echo() + seq!['"'];
    let post_echo = seq!['}'] + post;
    assert(pre_echo.len() == p5 + 1);
    assert(pre_echo + esc_str(echo) + seq!['"'] + post_echo =~= s);
    lemma_string_body_rt(echo, pre_echo, post_echo);
    assert(s[p5] == '"');
    assert(sp_string(s, p5) == Some((echo, p6)));
    assert(s[p6] == '}');
}

/// The tag region of a canonical body text parses back to the tag.
#[verifier::rlimit(100)]
proof fn lemma_tag_rt(tg: Seq<char>, fields: Seq<char>, pre: Seq<char>, post: Seq<char>)
    ensures
        ({
            let s = pre + (lit_type() + enc_str(tg) + fields) + post;
            let p1 = pre.len() + lit_type().len() as int;
            let p2 = p1 + enc_str(tg).len() as int;
            &&& sp_lit(s, pre.len() as int, lit_type()) == Some(p1)
            &&& sp_string(s, p1) == Some((tg, p2))
        }),
{
    let s = pre + (lit_type() + enc_str(tg) + fields) + post;
    let i = pre.len() as int;
    let p1 = i + lit_type().len() as int;
    assert(s.subrange(i, p1) =~= lit_type());
    let pre_tag = pre + lit_type() + seq!['"'];
    assert(pre_tag + esc_str(tg) + seq!['"'] + (fields + post) =~= s);
    lemma_string_body_rt(tg, pre_tag, fields + post);
    assert(s[p1] == '"');
}

/// The canonical text of an `echo` body splits into tag and fields.
#[verifier::rlimit(100)]
proof fn lemma_echo_shape(msg_id: i64, echo: Seq<char>)
    ensures
        enc_body(BodyV::Echo { msg_id, echo }) == lit_type() + enc_str(tag_echo()) + (lit_msg_id()
            + int_chars(msg_id as int) + lit_echo() + enc_str(echo) + seq!['}']),
{
    assert(enc_body(BodyV::Echo { msg_id, echo }) =~= lit_type() + enc_str(tag_echo()) + (
    lit_msg_id() + int_chars(msg_id as int) + lit_echo() + enc_str(echo) + seq!['}']));
}

/// The body parser recovers an `echo` body from its canonical text.
#[verifier::rlimit(100)]
proof fn lemma_body_echo_rt(msg_id: i64, echo: Seq<char>, pre: Seq<char>, post: Seq<char>)
    ensures
        ({
            let bv = BodyV::Echo { msg_id, echo };
            sp_body(pre + enc_body(bv) + post, pre.len() as int) == SpOut::<BodyV>::Parsed(
                bv,
                pre.len() + enc_body(bv).len() as int,
            )
        }),
{
    let bv = BodyV::Echo { msg_id, echo };
    let s = pre + enc_body(bv) + post;
    let i = pre.len() as int;
    let tg = tag_echo();
    let fields = lit_msg_id() + int_chars(msg_id as int) + lit_echo() + enc_str(echo)
        + seq!['}'];
    let p1 = i + lit_type().len() as int;
    let p2 = p1 + enc_str(tg).len() as int;
    lemma_echo_shape(msg_id, echo);
    lemma_tag_rt(tg, fields, pre, post);
    assert(sp_string(s, p1) == Some((tg, p2)));
    lemma_tags_distinct();
    let pre_f = pre + lit_type() + enc_str(tg);
    assert(pre_f.len() == p2);
    assert(pre_f + fields + post =~= s);
    lemma_echo_fields_rt(msg_id, echo, pre_f, post);
    assert(sp_echo_fields(s, p2) == SpOut::<BodyV>::Parsed(bv, p2 + fields.len() as int));
    assert(p2 + fields.len() == i + enc_body(bv).len());
}

/// The field section of an `echo_ok` body parses back to its fields.
#[verifier::rlimit(100)]
proof fn lemma_echo_ok_fields_rt(
    msg_id: i64,
    in_reply_to: i64,
    echo: Seq<char>,
    pre: Seq<char>,
    post: Seq<char>,
)
    ensures
        ({
            let fields = lit_msg_id() + int_chars(msg_id as int) + lit_in_reply_to() + int_chars(
                in_reply_to as int,
            ) + lit_echo() + enc_str(echo) + seq!['}'];
            sp_echo_ok_fields(pre + fields + post, pre.len() as int) == SpOut::<BodyV>::Parsed(
                BodyV::EchoOk { msg_id, in_reply_to, echo },
                pre.len() + fields.len() as int,
            )
        }),
{
    let fields = lit_msg_id() + int_chars(msg_id as int) + lit_in_reply_to() + int_chars(
        in_reply_to as int,
    ) + lit_echo() + enc_str(echo) + seq!['}'];
    let s = pre + fields + post;
    let p2 = pre.len() as int;
    let p3 = p2 + lit_msg_id().len() as int;
    let p4 = p3 + int_chars(msg_id as int).len() as int;
    let p5 = p4 + lit_in_reply_to().len() as int;
    let p6 = p5 + int_chars(in_reply_to as int).len() as int;
    let p7 = p6 + lit_echo().len() as int;
    let p8 = p7 + enc_str(echo).len() as int;
    assert(s.subrange(p2, p3) =~= lit_msg_id());
    let pre_int = pre + lit_msg_id();
    let post_int = lit_in_reply_to() + int_chars(in_reply_to as int) + lit_echo() + enc_str(echo)
        + seq!['}'] + post;
    assert(pre_int.len() == p3);
    assert(post_int[0] == ',');
    assert(pre_int + int_chars(msg_id as int) + post_int =~= s);
    lemma_i64_rt(msg_id, pre_int, post_int);
    assert(sp_i64(s, p3) == Some((msg_id, p4)));
    assert(s.subrange(p4, p5) =~= lit_in_reply_to());
    let pre_int2 = pre_int + int_chars(msg_id as int) + lit_in_reply_to();
    let post_int2 = lit_echo() + enc_str(echo) + seq!['}'] + post;
    assert(pre_int2.len() == p5);
    assert(post_int2[0] == ',');
    assert(pre_int2 + int_chars(in_reply_to as int) + post_int2 =~= s);
    lemma_i64_rt(in_reply_to, pre_int2, post_int2);
    assert(sp_i64(s, p5) == Some((in_reply_to, p6)));
    assert(s.subrange(p6, p7) =~= lit_echo());
    let pre_echo = pre_int2 + int_chars(in_reply_to as int) + lit_echo() + seq!['"'];
    let post_echo = seq!['}'] + post;
    assert(pre_echo.len() == p7 + 1);
    assert(pre_echo + esc_str(echo) + seq!['"'] + post_echo =~= s);
    lemma_string_body_rt(echo, pre_echo, post_echo);
    assert(s[p7] == '"');
    assert(sp_string(s, p7) == Some((echo, p8)));
    assert(s[p8] == '}');
}

/// The canonical text of an `echo_ok` body splits into tag and fields.
#[verifier::rlimit(100)]
proof fn lemma_echo_ok_shape(msg_id: i64, in_reply_to: i64, echo: Seq<char>)
    ensures
        enc_body(BodyV::EchoOk { msg_id, in_reply_to, echo }) == lit_type() + enc_str(
            tag_echo_ok(),
        ) + (lit_msg_id() + int_chars(msg_id as int) + lit_in_reply_to() + int_chars(
            in_reply_to as int,
        ) + lit_echo() + enc_str(echo) + seq!['}']),
{
    assert(enc_body(BodyV::EchoOk { msg_id, in_reply_to, echo }) =~= lit_type() + enc_str(
        tag_echo_ok(),
    ) + (lit_msg_id() + int_chars(msg_id as int) + lit_in_reply_to() + int_chars(in_reply_to as int)
        + lit_echo() + enc_str(echo) + seq!['}']));
}

/// The body parser recovers an `echo_ok` body from its canonical text.
#[verifier::rlimit(100)]
proof fn lemma_body_echo_ok_rt(
    msg_id: i64,
    in_reply_to: i64,
    echo: Seq<char>,
    pre: Seq<char>,
    post: Seq<char>,
)
    ensures
        ({
            let bv = BodyV::EchoOk { msg_id, in_reply_to, echo };
            sp_body(pre + enc_body(bv) + post, pre.len() as int) == SpOut::<BodyV>::Parsed(
                bv,
                pre.len() + enc_body(bv).len() as int,
            )
        }),
{
    let bv = BodyV::EchoOk { msg_id, in_reply_to, echo };
    let s = pre + enc_body(bv) + post;
    let i = pre.len() as int;
    let tg = tag_echo_ok();
    let fields = lit_msg_id() + int_chars(msg_id as int) + lit_in_reply_to() + int_chars(
        in_reply_to as int,
    ) + lit_echo() + enc_str(echo) + seq!['}'];
    let p1 = i + lit_type().len() as int;
    let p2 = p1 + enc_str(tg).len() as int;
    lemma_echo_ok_shape(msg_id, in_reply_to, echo);
    lemma_tag_rt(tg, fields, pre, post);
    assert(sp_string(s, p1) == Some((tg, p2)));
    lemma_tags_distinct();
    let pre_f = pre + lit_type() + enc_str(tg);
    assert(pre_f.len() == p2);
    assert(pre_f + fields + post =~= s);
    lemma_echo_ok_fields_rt(msg_id, in_reply_to, echo, pre_f, post);
    assert(sp_echo_ok_fields(s, p2) == SpOut::<BodyV>::Parsed(bv, p2 + fields.len() as int));
    assert(p2 + fields.len() == i + enc_body(bv).len());
}

/// The body parser recovers any body from its canonical text.
pub proof fn lemma_body_rt(bv: BodyV, pre: Seq<char>, post: Seq<char>)
    ensures
        sp_body(pre + enc_body(bv) + post, pre.len() as int) == SpOut::<BodyV>::Parsed(
            bv,
            pre.len() + enc_body(bv).len() as int,
        ),
{
    match bv {
        BodyV::Init { msg_id, node_id, node_ids } => {
            lemma_body_init_rt(msg_id, node_id, node_ids, pre, post);
        },
        BodyV::InitOk { in_reply_to } => {
            lemma_body_init_ok_rt(in_reply_to, pre, post);
        },
        BodyV::Echo { msg_id, echo } => {
            lemma_body_echo_rt(msg_id, echo, pre, post);
        },
        BodyV::EchoOk { msg_id, in_reply_to, echo } => {
            lemma_body_echo_ok_rt(msg_id, in_reply_to, echo, pre, post);
        },
    }
}

/// The envelope's source and destination parse back from the canonical
/// text of a message.
#[verifier::rlimit(100)]
proof fn lemma_envelope_front_rt(src: NodeId, dest: NodeId, bv: BodyV)
    ensures
        ({
            let s = enc_msg(src, dest, bv);
            let q1 = lit_src().len() as int;
            let q2 = q1 + enc_node_id(src).len() as int;
            let q3 = q2 + lit_dest().len() as int;
            let q4 = q3 + enc_node_id(dest).len() as int;
            &&& sp_lit(s, 0, lit_src()) == Some(q1)
            &&& sp_node_id(s, q1) == SpOut::<NodeId>::Parsed(src, q2)
            &&& sp_lit(s, q2, lit_dest()) == Some(q3)
            &&& sp_node_id(s, q3) == SpOut::<NodeId>::Parsed(dest, q4)
        }),
{
    let s = enc_msg(src, dest, bv);
    let q1 = lit_src().len() as int;
    let q2 = q1 + enc_node_id(src).len() as int;
    let q3 = q2 + lit_dest().len() as int;
    assert(s.subrange(0, q1) =~= lit_src());
    let post_src = lit_dest() + enc_node_id(dest) + lit_body() + enc_body(bv) + seq!['}'];
    assert(lit_src() + enc_node_id(src) + post_src =~= s);
    lemma_node_id_rt(src, lit_src(), post_src);
    assert(s.subrange(q2, q3) =~= lit_dest());
    let pre_dest = lit_src() + enc_node_id(src) + lit_dest();
    let post_dest = lit_body() + enc_body(bv) + seq!['}'];
    assert(pre_dest.len() == q3);
    assert(pre_dest + enc_node_id(dest) + post_dest =~= s);
    lemma_node_id_rt(dest, pre_dest, post_dest);
}

/// Round trip of the codec: the wire grammar applied to the canonical
/// encoding of any message recovers exactly that message — source,
/// destination, the body tag and every field.  The encoder's output is
/// canonical, so the canonical layer of the grammar decides.  Through
/// the contracts of `encode_message` and `decode_message` this gives
/// `decode_message(encode_message(m))` equal to `m` up to views, for
/// every message.
#[verifier::rlimit(100)]
pub proof fn lemma_decode_encode_roundtrip(src: NodeId, dest: NodeId, bv: BodyV)
    ensures
        sp_msg(enc_msg(src, dest, bv)) == SpOut::<(NodeId, NodeId, BodyV)>::Parsed(
            (src, dest, bv),
            enc_msg(src, dest, bv).len() as int,
        ),
        sp_msg_any(enc_msg(src, dest, bv)) == SpOut::<(NodeId, NodeId, BodyV)>::Parsed(
            (src, dest, bv),
            enc_msg(src, dest, bv).len() as int,
        ),
{
    let s = enc_msg(src, dest, bv);
    let q1 = lit_src().len() as int;
    let q2 = q1 + enc_node_id(src).len() as int;
    let q3 = q2 + lit_dest().len() as int;
    let q4 = q3 + enc_node_id(dest).len() as int;
    let q5 = q4 + lit_body().len() as int;
    let q6 = q5 + enc_body(bv).len() as int;
    lemma_envelope_front_rt(src, dest, bv);
    assert(s.subrange(q4, q5) =~= lit_body());
    let pre_body = lit_src() + enc_node_id(src) + lit_dest() + enc_node_id(dest) + lit_body();
    assert(pre_body.len() == q5);
    assert(pre_body + enc_body(bv) + seq!['}'] =~= s);
    lemma_body_rt(bv, pre_body, seq!['}']);
    assert(sp_body(s, q5) == SpOut::<BodyV>::Parsed(bv, q6));
    assert(s[q6] == '}');
    assert(q6 + 1 == s.len());
    assert(all_ws(s, q6 + 1));
}

} // verus!
