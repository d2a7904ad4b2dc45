//! The executable decoder, verified against the spec parser in `codec`.
use vstd::prelude::*;

use crate::codec::DecodeError;
use crate::codec::SpOut;
use crate::codec::body_view;
use crate::codec::digits_end;
use crate::codec::BodySlots;
use crate::codec::EnvSlots;
use crate::codec::sp_body;
use crate::codec::sp_body_any;
use crate::codec::sp_body_finish;
use crate::codec::sp_body_member;
use crate::codec::sp_body_members;
use crate::codec::sp_env_member;
use crate::codec::sp_env_members;
use crate::codec::sp_id_array_any;
use crate::codec::sp_id_elems_any;
use crate::codec::sp_msg_any;
use crate::codec::sp_msg_general;
use crate::codec::sp_ws;
use crate::codec::sp_err_of;
use crate::codec::sp_escape;
use crate::codec::sp_hex_val;
use crate::codec::sp_i64;
use crate::codec::sp_id_array;
use crate::codec::sp_id_elems;
use crate::codec::sp_lit;
use crate::codec::sp_msg;
use crate::codec::sp_node_id;
use crate::codec::sp_string;
use crate::codec::sp_string_body;
use crate::codec::is_ws;
use crate::codec::all_ws;
use crate::message::EchoBody;
use crate::message::EchoOkBody;
use crate::message::InitBody;
use crate::message::InitOkBody;
use crate::message::Message;
use crate::message::MessageBody;
use crate::node_id::NodeId;
use crate::node_id::digits_val;
use crate::node_id::is_dec_digit;
use crate::node_id::lemma_digits_val_append;
use crate::node_id::push_char;

verus! {

/// Whether two text slices hold the same characters.
fn str_eq(a: &str, b: &str) -> (r: bool)
    ensures
        r == (a@ == b@),
{
    let n = a.unicode_len();
    let m = b.unicode_len();
    if n != m {
        return false;
    }
    let mut k: usize = 0;
    while k < n
        invariant
            k <= n,
            n == a@.len(),
            n == b@.len(),
            forall|t: int| 0 <= t < k ==> a@[t] == b@[t],
        decreases n - k,
    {
        if a.get_char(k) != b.get_char(k) {
            return false;
        }
        k += 1;
    }
    proof {
        assert(a@ =~= b@);
    }
    true
}

/// Consumes the exact characters of `lit` at position `i`.
fn eat_lit(s: &str, i: usize, lit: &str) -> (r: Option<usize>)
    ensures
        (match sp_lit(s@, i as int, lit@) {
            Some(j) => r matches Some(jj) && jj as int == j && i <= jj && jj as int <= s@.len(),
            None => r is None,
        }),
{
    let m = lit.unicode_len();
    let n = s.unicode_len();
    if m > n || i > n - m {
        return None;
    }
    let mut k: usize = 0;
    while k < m
        invariant
            k <= m,
            m == lit@.len(),
            n == s@.len(),
            i + m <= n,
            forall|t: int| 0 <= t < k ==> s@[i + t] == lit@[t],
        decreases m - k,
    {
        if s.get_char(i + k) != lit.get_char(k) {
            proof {
                assert(s@.subrange(i as int, i + m)[k as int] == s@[i + k]);
            }
            return None;
        }
        k += 1;
    }
    proof {
        assert(s@.subrange(i as int, i + m) =~= lit@);
    }
    Some(i + m)
}

/// Hexadecimal digit value, when the character is one.
fn hex_val(c: char) -> (r: Option<u8>)
    ensures
        (match sp_hex_val(c) {
            Some(v) => r matches Some(x) && x as nat == v,
            None => r is None,
        }),
{
    let x = c as u32;
    if 48 <= x && x <= 57 {
        Some((x - 48) as u8)
    } else if 97 <= x && x <= 102 {
        Some((x - 87) as u8)
    } else if 65 <= x && x <= 70 {
        Some((x - 55) as u8)
    } else {
        None
    }
}

/// Relies on char::from_u32: the character with the given code point,
/// exactly when the value is a Unicode scalar (not a surrogate, at most
/// 0x10FFFF).
#[verifier::external_body]
fn char_from_u32(v: u32) -> (r: Option<char>)
    ensures
        r matches Some(c) ==> c == (v as char),
        (r is Some) == (v < 0xD800 || (0xE000 <= v && v <= 0x10FFFF)),
{
    char::from_u32(v)
}

/// One escape sequence, entered just after the backslash.
fn p_escape(s: &str, i: usize) -> (r: Option<(char, usize)>)
    ensures
        (match sp_escape(s@, i as int) {
            Some(p) => r matches Some(q) && q.0 == p.0 && q.1 as int == p.1 && i < q.1 && q.1
                as int <= s@.len(),
            None => r is None,
        }),
{
    let n = s.unicode_len();
    if i >= n {
        return None;
    }
    let c = s.get_char(i);
    if c == '"' {
        Some(('"', i + 1))
    } else if c == '\\' {
        Some(('\\', i + 1))
    } else if c == '/' {
        Some(('/', i + 1))
    } else if c == 'b' {
        Some(('\u{8}', i + 1))
    } else if c == 'f' {
        Some(('\u{c}', i + 1))
    } else if c == 'n' {
        Some(('\n', i + 1))
    } else if c == 'r' {
        Some(('\r', i + 1))
    } else if c == 't' {
        Some(('\t', i + 1))
    } else if c == 'u' {
        if n - i >= 5 {
            let a = match hex_val(s.get_char(i + 1)) {
                Some(x) => x,
                None => {
                    return None;
                },
            };
            let b = match hex_val(s.get_char(i + 2)) {
                Some(x) => x,
                None => {
                    return None;
                },
            };
            let h = match hex_val(s.get_char(i + 3)) {
                Some(x) => x,
                None => {
                    return None;
                },
            };
            let l = match hex_val(s.get_char(i + 4)) {
                Some(x) => x,
                None => {
                    return None;
                },
            };
            let v: u32 = ((a as u32 * 16 + b as u32) * 16 + h as u32) * 16 + l as u32;
            if 0xD800 <= v && v < 0xE000 {
                if v >= 0xDC00 {
                    // a lone low surrogate is not a scalar value
                    return None;
                }
                // a high surrogate must pair with a low-surrogate escape
                if !(n - i >= 11 && s.get_char(i + 5) == '\\' && s.get_char(i + 6) == 'u') {
                    return None;
                }
                let a2 = match hex_val(s.get_char(i + 7)) {
                    Some(x) => x,
                    None => {
                        return None;
                    },
                };
                let b2 = match hex_val(s.get_char(i + 8)) {
                    Some(x) => x,
                    None => {
                        return None;
                    },
                };
                let h2 = match hex_val(s.get_char(i + 9)) {
                    Some(x) => x,
                    None => {
                        return None;
                    },
                };
                let l2 = match hex_val(s.get_char(i + 10)) {
                    Some(x) => x,
                    None => {
                        return None;
                    },
                };
                let w: u32 = ((a2 as u32 * 16 + b2 as u32) * 16 + h2 as u32) * 16 + l2 as u32;
                if !(0xDC00 <= w && w < 0xE000) {
                    return None;
                }
                let scalar: u32 = 0x10000 + (v - 0xD800) * 0x400 + (w - 0xDC00);
                match char_from_u32(scalar) {
                    Some(e) => Some((e, i + 11)),
                    None => None,
                }
            } else {
                match char_from_u32(v) {
                    Some(e) => Some((e, i + 5)),
                    None => None,
                }
            }
        } else {
            None
        }
    } else {
        None
    }
}

/// The inside of a JSON string, entered just after the opening quote;
/// appends the unescaped text to `out`.
fn p_string_body(s: &str, i: usize, out: &mut String) -> (r: Option<usize>)
    ensures
        (match sp_string_body(s@, i as int) {
            Some(p) => r matches Some(j) && final(out)@ == old(out)@ + p.0 && j as int == p.1 && i
                < j && j as int <= s@.len(),
            None => r is None,
        }),
    decreases s@.len() - i,
{
    let n = s.unicode_len();
    if i >= n {
        return None;
    }
    let c = s.get_char(i);
    if c == '"' {
        proof {
            assert(out@ =~= old(out)@ + Seq::<char>::empty());
        }
        Some(i + 1)
    } else if c == '\\' {
        match p_escape(s, i + 1) {
            Some((e, j)) => {
                push_char(out, e);
                match p_string_body(s, j, out) {
                    Some(k) => {
                        proof {
                            let (t, _kk) = sp_string_body(s@, j as int).unwrap();
                            assert(out@ =~= old(out)@ + (seq![e] + t));
                        }
                        Some(k)
                    },
                    None => None,
                }
            },
            None => None,
        }
    } else if (c as u32) < 32 {
        None
    } else {
        push_char(out, c);
        match p_string_body(s, i + 1, out) {
            Some(k) => {
                proof {
                    let (t, _kk) = sp_string_body(s@, i + 1).unwrap();
                    assert(out@ =~= old(out)@ + (seq![c] + t));
                }
                Some(k)
            },
            None => None,
        }
    }
}

/// A JSON string literal, yielding its unescaped content.
fn p_string(s: &str, i: usize) -> (r: Option<(String, usize)>)
    ensures
        (match sp_string(s@, i as int) {
            Some(p) => r matches Some(q) && q.0@ == p.0 && q.1 as int == p.1 && i < q.1 && q.1
                as int <= s@.len(),
            None => r is None,
        }),
{
    let n = s.unicode_len();
    if i < n && s.get_char(i) == '"' {
        let mut buf = String::new();
        match p_string_body(s, i + 1, &mut buf) {
            Some(j) => {
                proof {
                    let (t, _k) = sp_string_body(s@, i + 1).unwrap();
                    assert(buf@ =~= t);
                }
                Some((buf, j))
            },
            None => None,
        }
    } else {
        None
    }
}

/// A JSON integer fitting the signed 64-bit range.
fn p_i64(s: &str, i: usize) -> (r: Option<(i64, usize)>)
    ensures
        (match sp_i64(s@, i as int) {
            Some(p) => r matches Some(q) && q.0 == p.0 && q.1 as int == p.1 && i <= q.1 && q.1
                as int <= s@.len(),
            None => r is None,
        }),
{
    let n = s.unicode_len();
    if i >= n {
        return None;
    }
    let mut neg = false;
    let mut d0 = i;
    if s.get_char(i) == '-' {
        neg = true;
        d0 = i + 1;
    }
    proof {
        lemma_digits_end(s@, d0 as int);
    }
    let ghost e = digits_end(s@, d0 as int);
    let bound: u64 = 9223372036854775808;
    let mut acc: u64 = 0;
    let mut j = d0;
    loop
        invariant
            d0 <= j <= n,
            n == s@.len(),
            i < n,
            neg == (s@[i as int] == '-'),
            neg ==> d0 == i + 1,
            !neg ==> d0 == i,
            forall|t: int| d0 <= t < j ==> is_dec_digit(#[trigger] s@[t]),
            acc == digits_val(s@.subrange(d0 as int, j as int)),
            acc <= bound,
            bound == 9223372036854775808,
            e == digits_end(s@, d0 as int),
            d0 <= e <= n,
            forall|t: int| d0 <= t < e ==> is_dec_digit(#[trigger] s@[t]),
            e < n ==> !is_dec_digit(s@[e as int]),
        ensures
            j as int == e,
            acc == digits_val(s@.subrange(d0 as int, e)),
            acc <= 9223372036854775808,
            d0 <= j <= n,
        decreases n - j,
    {
        if j >= n {
            proof {
                if e < j {
                    assert(is_dec_digit(s@[e as int]));
                }
            }
            break ;
        }
        let c = s.get_char(j);
        let cv = c as u32;
        if cv < 48 || cv > 57 {
            proof {
                assert(!is_dec_digit(s@[j as int]));
                if e > j {
                    assert(is_dec_digit(s@[j as int]));
                }
                if e < j {
                    assert(is_dec_digit(s@[e as int]));
                }
            }
            break ;
        }
        let d: u64 = (cv - 48) as u64;
        assert(is_dec_digit(s@[j as int]));
        proof {
            assert(s@.subrange(d0 as int, j + 1).drop_last() =~= s@.subrange(d0 as int, j as int));
            assert(digits_val(s@.subrange(d0 as int, j + 1)) == acc * 10 + d);
        }
        let next: u128 = acc as u128 * 10 + d as u128;
        if next > bound as u128 {
            // further digits only grow the value, so it is out of range
            proof {
                assert(j + 1 <= e);
                let pre = s@.subrange(d0 as int, j + 1);
                let suf = s@.subrange(j + 1, e);
                assert(s@.subrange(d0 as int, e) =~= pre + suf);
                lemma_digits_val_append(pre, suf);
                assert(digits_val(pre) == acc * 10 + d);
                assert(digits_val(s@.subrange(d0 as int, e)) >= acc * 10 + d);
                assert(acc * 10 + d > 9223372036854775808);
                assert(sp_i64(s@, i as int) is None);
            }
            return None;
        }
        acc = next as u64;
        j += 1;
    }
    if j == d0 {
        return None;
    }
    if j > d0 + 1 && s.get_char(d0) == '0' {
        // a leading zero is not a JSON integer
        return None;
    }
    if neg {
        if acc == bound {
            Some((i64::MIN, j))
        } else {
            Some((-(acc as i64), j))
        }
    } else {
        if acc == bound {
            None
        } else {
            Some((acc as i64, j))
        }
    }
}

/// The digit run starting at `i` ends at `digits_end`, which is maximal.
proof fn lemma_digits_end(s: Seq<char>, i: int)
    requires
        0 <= i <= s.len(),
    ensures
        i <= digits_end(s, i) <= s.len(),
        forall|t: int| i <= t < digits_end(s, i) ==> is_dec_digit(#[trigger] s[t]),
        digits_end(s, i) < s.len() ==> !is_dec_digit(s[digits_end(s, i)]),
    decreases s.len() - i,
{
    if i < s.len() && is_dec_digit(s[i]) {
        lemma_digits_end(s, i + 1);
    }
}

/// A node id inside quotes, reusing the node-id parser on the content.
fn p_node_id(s: &str, i: usize) -> (r: Result<(NodeId, usize), DecodeError>)
    ensures
        (match sp_node_id(s@, i as int) {
            SpOut::Parsed(id, j) => r matches Ok(p) && p.0 == id && p.1 as int == j && i <= p.1 && p.1
                as int <= s@.len(),
            o => r matches Err(e) && sp_err_of(o, e),
        }),
{
    match p_string(s, i) {
        Some((t, j)) => match NodeId::parse(t.as_str()) {
            Ok(id) => Ok((id, j)),
            Err(e) => Err(DecodeError::InvalidNodeId(e)),
        },
        None => Err(DecodeError::Malformed),
    }
}

/// Array elements, entered just after a `[` that is not immediately
/// closed; pushes the ids onto `acc` and ends after the `]`.
fn p_id_elems(s: &str, i: usize, acc: &mut Vec<NodeId>) -> (r: Result<usize, DecodeError>)
    ensures
        (match sp_id_elems(s@, i as int) {
            SpOut::Parsed(ids, j) => r matches Ok(jj) && jj as int == j && final(acc)@ == old(acc)@
                + ids && i <= jj && jj as int <= s@.len(),
            o => r matches Err(e) && sp_err_of(o, e),
        }),
    decreases s@.len() - i,
{
    match p_node_id(s, i) {
        Ok((id, j)) => {
            acc.push(id);
            let n = s.unicode_len();
            if j < n && s.get_char(j) == ']' {
                proof {
                    assert(acc@ =~= old(acc)@ + seq![id]);
                }
                Ok(j + 1)
            } else if j < n && s.get_char(j) == ',' && i < j {
                match p_id_elems(s, j + 1, acc) {
                    Ok(k) => {
                        proof {
                            let o = sp_id_elems(s@, j + 1);
                            if let SpOut::Parsed(rest, _kk) = o {
                                assert(acc@ =~= old(acc)@ + (seq![id] + rest));
                            }
                        }
                        Ok(k)
                    },
                    Err(e) => Err(e),
                }
            } else {
                Err(DecodeError::Malformed)
            }
        },
        Err(e) => Err(e),
    }
}

/// A JSON array of node-id strings.
fn p_id_array(s: &str, i: usize) -> (r: Result<(Vec<NodeId>, usize), DecodeError>)
    ensures
        (match sp_id_array(s@, i as int) {
            SpOut::Parsed(ids, j) => r matches Ok(p) && p.0@ == ids && p.1 as int == j && i <= p.1
                && p.1 as int <= s@.len(),
            o => r matches Err(e) && sp_err_of(o, e),
        }),
{
    let n = s.unicode_len();
    if i < n && s.get_char(i) == '[' {
        if i + 1 < n && s.get_char(i + 1) == ']' {
            let ids: Vec<NodeId> = Vec::new();
            proof {
                assert(ids@ =~= Seq::<NodeId>::empty());
            }
            Ok((ids, i + 2))
        } else {
            let mut ids: Vec<NodeId> = Vec::new();
            match p_id_elems(s, i + 1, &mut ids) {
                Ok(j) => {
                    proof {
                        if let SpOut::Parsed(v, _jj) = sp_id_elems(s@, i + 1) {
                            assert(ids@ =~= v);
                        }
                    }
                    Ok((ids, j))
                },
                Err(e) => Err(e),
            }
        }
    } else {
        Err(DecodeError::Malformed)
    }
}

/// A body object: reads the tag, dispatches on the closed set of kinds.
#[verifier::rlimit(100)]
fn p_body(s: &str, i: usize) -> (r: Result<(MessageBody, usize), DecodeError>)
    ensures
        (match sp_body(s@, i as int) {
            SpOut::Parsed(bv, j) => r matches Ok(p) && body_view(p.0) == bv && p.1 as int == j && i
                <= p.1 && p.1 as int <= s@.len(),
            o => r matches Err(e) && sp_err_of(o, e),
        }),
{
    proof {
        crate::codec::lemma_wire_tokens();
    }
    let j0 = match eat_lit(s, i, "{\"type\":") {
        Some(j) => j,
        None => {
            return Err(DecodeError::Malformed);
        },
    };
    let (tag, j1) = match p_string(s, j0) {
        Some(p) => p,
        None => {
            return Err(DecodeError::Malformed);
        },
    };
    let n = s.unicode_len();
    if str_eq(tag.as_str(), "init") {
        let j2 = match eat_lit(s, j1, ",\"msg_id\":") {
            Some(j) => j,
            None => {
                return Err(DecodeError::Malformed);
            },
        };
        let (msg_id, j3) = match p_i64(s, j2) {
            Some(p) => p,
            None => {
                return Err(DecodeError::Malformed);
            },
        };
        let j4 = match eat_lit(s, j3, ",\"node_id\":") {
            Some(j) => j,
            None => {
                return Err(DecodeError::Malformed);
            },
        };
        let (node_id, j5) = match p_node_id(s, j4) {
            Ok(p) => p,
            Err(e) => {
                return Err(e);
            },
        };
        let j6 = match eat_lit(s, j5, ",\"node_ids\":") {
            Some(j) => j,
            None => {
                return Err(DecodeError::Malformed);
            },
        };
        let (node_ids, j7) = match p_id_array(s, j6) {
            Ok(p) => p,
            Err(e) => {
                return Err(e);
            },
        };
        if j7 < n && s.get_char(j7) == '}' {
            Ok((MessageBody::Init(InitBody { msg_id, node_id, node_ids }), j7 + 1))
        } else {
            Err(DecodeError::Malformed)
        }
    } else if str_eq(tag.as_str(), "init_ok") {
        let j2 = match eat_lit(s, j1, ",\"in_reply_to\":") {
            Some(j) => j,
            None => {
                return Err(DecodeError::Malformed);
            },
        };
        let (in_reply_to, j3) = match p_i64(s, j2) {
            Some(p) => p,
            None => {
                return Err(DecodeError::Malformed);
            },
        };
        if j3 < n && s.get_char(j3) == '}' {
            Ok((MessageBody::InitOk(InitOkBody { in_reply_to }), j3 + 1))
        } else {
            Err(DecodeError::Malformed)
        }
    } else if str_eq(tag.as_str(), "echo") {
        let j2 = match eat_lit(s, j1, ",\"msg_id\":") {
            Some(j) => j,
            None => {
                return Err(DecodeError::Malformed);
            },
        };
        let (msg_id, j3) = match p_i64(s, j2) {
            Some(p) => p,
            None => {
                return Err(DecodeError::Malformed);
            },
        };
        let j4 = match eat_lit(s, j3, ",\"echo\":") {
            Some(j) => j,
            None => {
                return Err(DecodeError::Malformed);
            },
        };
        let (echo, j5) = match p_string(s, j4) {
            Some(p) => p,
            None => {
                return Err(DecodeError::Malformed);
            },
        };
        if j5 < n && s.get_char(j5) == '}' {
            Ok((MessageBody::Echo(EchoBody { msg_id, echo }), j5 + 1))
        } else {
            Err(DecodeError::Malformed)
        }
    } else if str_eq(tag.as_str(), "echo_ok") {
        let j2 = match eat_lit(s, j1, ",\"msg_id\":") {
            Some(j) => j,
            None => {
                return Err(DecodeError::Malformed);
            },
        };
        let (msg_id, j3) = match p_i64(s, j2) {
            Some(p) => p,
            None => {
                return Err(DecodeError::Malformed);
            },
        };
        let j4 = match eat_lit(s, j3, ",\"in_reply_to\":") {
            Some(j) => j,
            None => {
                return Err(DecodeError::Malformed);
            },
        };
        let (in_reply_to, j5) = match p_i64(s, j4) {
            Some(p) => p,
            None => {
                return Err(DecodeError::Malformed);
            },
        };
        let j6 = match eat_lit(s, j5, ",\"echo\":") {
            Some(j) => j,
            None => {
                return Err(DecodeError::Malformed);
            },
        };
        let (echo, j7) = match p_string(s, j6) {
            Some(p) => p,
            None => {
                return Err(DecodeError::Malformed);
            },
        };
        if j7 < n && s.get_char(j7) == '}' {
            Ok((MessageBody::EchoOk(EchoOkBody { msg_id, in_reply_to, echo }), j7 + 1))
        } else {
            Err(DecodeError::Malformed)
        }
    } else {
        Err(DecodeError::UnknownTag(tag))
    }
}

/// Whether everything from position `i` on is whitespace.
fn rest_is_ws(s: &str, i: usize) -> (r: bool)
    requires
        i as int <= s@.len(),
    ensures
        r == all_ws(s@, i as int),
{
    let n = s.unicode_len();
    let mut k = i;
    while k < n
        invariant
            i <= k <= n,
            n == s@.len(),
            forall|t: int| i <= t < k ==> is_ws(#[trigger] s@[t]),
        decreases n - k,
    {
        let c = s.get_char(k);
        if !(c == ' ' || c == '\t' || c == '\r' || c == '\n') {
            proof {
                assert(!is_ws(s@[k as int]));
            }
            return false;
        }
        k += 1;
    }
    proof {
        assert(all_ws(s@, i as int));
    }
    true
}

/// The canonical-layout parser, mirroring `sp_msg` exactly.
#[verifier::rlimit(100)]
fn p_msg_canonical(s: &str) -> (r: Result<Message<MessageBody>, DecodeError>)
    ensures
        (match sp_msg(s@) {
            SpOut::Parsed(t, _) => r matches Ok(m) && m.src == t.0 && m.dest == t.1 && body_view(
                m.body,
            ) == t.2,
            o => r matches Err(e) && sp_err_of(o, e),
        }),
{
    proof {
        crate::codec::lemma_wire_tokens();
    }
    let j0 = match eat_lit(s, 0, "{\"src\":") {
        Some(j) => j,
        None => {
            return Err(DecodeError::Malformed);
        },
    };
    let (src, j1) = match p_node_id(s, j0) {
        Ok(p) => p,
        Err(e) => {
            return Err(e);
        },
    };
    let j2 = match eat_lit(s, j1, ",\"dest\":") {
        Some(j) => j,
        None => {
            return Err(DecodeError::Malformed);
        },
    };
    let (dest, j3) = match p_node_id(s, j2) {
        Ok(p) => p,
        Err(e) => {
            return Err(e);
        },
    };
    let j4 = match eat_lit(s, j3, ",\"body\":") {
        Some(j) => j,
        None => {
            return Err(DecodeError::Malformed);
        },
    };
    let (body, j5) = match p_body(s, j4) {
        Ok(p) => p,
        Err(e) => {
            return Err(e);
        },
    };
    let n = s.unicode_len();
    if !(j5 < n && s.get_char(j5) == '}') {
        proof {
            assert(sp_body(s@, j4 as int) is Parsed);
            assert(sp_msg(s@) is Fail);
        }
        return Err(DecodeError::Malformed);
    }
    // only whitespace (the line terminator) may follow
    if !rest_is_ws(s, j5 + 1) {
        return Err(DecodeError::Malformed);
    }
    Ok(Message { src, dest, body })
}

/// Consumes whitespace from position `i`.
fn skip_ws(s: &str, i: usize) -> (r: usize)
    requires
        i as int <= s@.len(),
    ensures
        r as int == sp_ws(s@, i as int),
        i <= r,
        r as int <= s@.len(),
{
    let n = s.unicode_len();
    let mut k = i;
    while k < n
        invariant
            i <= k <= n,
            n == s@.len(),
            sp_ws(s@, i as int) == sp_ws(s@, k as int),
        decreases n - k,
    {
        let c = s.get_char(k);
        if !(c == ' ' || c == '\t' || c == '\r' || c == '\n') {
            proof {
                assert(!is_ws(s@[k as int]));
            }
            return k;
        }
        k += 1;
    }
    k
}

/// Array elements in any whitespace layout; pushes the ids onto `acc`.
fn p_id_elems_any(s: &str, i: usize, acc: &mut Vec<NodeId>) -> (r: Result<usize, DecodeError>)
    ensures
        (match sp_id_elems_any(s@, i as int) {
            SpOut::Parsed(ids, j) => r matches Ok(jj) && jj as int == j && final(acc)@ == old(acc)@
                + ids && i <= jj && jj as int <= s@.len(),
            o => r matches Err(e) && sp_err_of(o, e),
        }),
    decreases s@.len() - i,
{
    match p_node_id(s, i) {
        Ok((id, j)) => {
            acc.push(id);
            let j2 = skip_ws(s, j);
            let n = s.unicode_len();
            if j2 < n && s.get_char(j2) == ']' {
                proof {
                    assert(acc@ =~= old(acc)@ + seq![id]);
                }
                Ok(j2 + 1)
            } else if j2 < n && s.get_char(j2) == ',' {
                let j3 = skip_ws(s, j2 + 1);
                if i < j3 {
                    match p_id_elems_any(s, j3, acc) {
                        Ok(k) => {
                            proof {
                                if let SpOut::Parsed(rest, _kk) = sp_id_elems_any(s@, j3 as int) {
                                    assert(acc@ =~= old(acc)@ + (seq![id] + rest));
                                }
                            }
                            Ok(k)
                        },
                        Err(e) => Err(e),
                    }
                } else {
                    Err(DecodeError::Malformed)
                }
            } else {
                Err(DecodeError::Malformed)
            }
        },
        Err(e) => Err(e),
    }
}

/// A JSON array of node-id strings, whitespace insignificant.
fn p_id_array_any(s: &str, i: usize) -> (r: Result<(Vec<NodeId>, usize), DecodeError>)
    ensures
        (match sp_id_array_any(s@, i as int) {
            SpOut::Parsed(ids, j) => r matches Ok(p) && p.0@ == ids && p.1 as int == j && i <= p.1
                && p.1 as int <= s@.len(),
            o => r matches Err(e) && sp_err_of(o, e),
        }),
{
    let n = s.unicode_len();
    if i < n && s.get_char(i) == '[' {
        let i1 = skip_ws(s, i + 1);
        if i1 < n && s.get_char(i1) == ']' {
            let ids: Vec<NodeId> = Vec::new();
            proof {
                assert(ids@ =~= Seq::<NodeId>::empty());
            }
            Ok((ids, i1 + 1))
        } else {
            let mut ids: Vec<NodeId> = Vec::new();
            match p_id_elems_any(s, i1, &mut ids) {
                Ok(j) => {
                    proof {
                        if let SpOut::Parsed(v, _jj) = sp_id_elems_any(s@, i1 as int) {
                            assert(ids@ =~= v);
                        }
                    }
                    Ok((ids, j))
                },
                Err(e) => Err(e),
            }
        }
    } else {
        Err(DecodeError::Malformed)
    }
}

/// The body object's members gathered so far.
struct BodyAcc {
    tag: Option<String>,
    msg_id: Option<i64>,
    node_id: Option<NodeId>,
    node_ids: Option<Vec<NodeId>>,
    in_reply_to: Option<i64>,
    echo: Option<String>,
}

spec fn body_acc_view(a: BodyAcc) -> BodySlots {
    BodySlots {
        tag: (match a.tag {
            Some(x) => Some(x@),
            None => None,
        }),
        msg_id: a.msg_id,
        node_id: a.node_id,
        node_ids: (match a.node_ids {
            Some(x) => Some(x@),
            None => None,
        }),
        in_reply_to: a.in_reply_to,
        echo: (match a.echo {
            Some(x) => Some(x@),
            None => None,
        }),
    }
}

/// The members of a body object, entered at the first member's name.
#[verifier::rlimit(100)]
fn p_body_members(s: &str, i: usize, acc: BodyAcc) -> (r: Result<(BodyAcc, usize), DecodeError>)
    ensures
        (match sp_body_members(s@, i as int, body_acc_view(acc)) {
            SpOut::Parsed(slots, j) => r matches Ok(p) && body_acc_view(p.0) == slots && p.1 as int
                == j && i <= p.1 && p.1 as int <= s@.len(),
            o => r matches Err(e) && sp_err_of(o, e),
        }),
    decreases s@.len() - i,
{
    proof {
        crate::codec::lemma_wire_tokens();
        crate::codec::lemma_names_distinct();
    }
    let (name, j) = match p_string(s, i) {
        Some(p) => p,
        None => {
            return Err(DecodeError::Malformed);
        },
    };
    let j2 = skip_ws(s, j);
    let n = s.unicode_len();
    if !(j2 < n && s.get_char(j2) == ':') {
        return Err(DecodeError::Malformed);
    }
    let j3 = skip_ws(s, j2 + 1);
    let step: (BodyAcc, usize) = if str_eq(name.as_str(), "type") {
        if acc.tag.is_some() {
            return Err(DecodeError::Malformed);
        }
        let (tag, j4) = match p_string(s, j3) {
            Some(p) => p,
            None => {
                return Err(DecodeError::Malformed);
            },
        };
        (
            BodyAcc {
                tag: Some(tag),
                msg_id: acc.msg_id,
                node_id: acc.node_id,
                node_ids: acc.node_ids,
                in_reply_to: acc.in_reply_to,
                echo: acc.echo,
            },
            j4,
        )
    } else if str_eq(name.as_str(), "msg_id") {
        if acc.msg_id.is_some() {
            return Err(DecodeError::Malformed);
        }
        let (v, j4) = match p_i64(s, j3) {
            Some(p) => p,
            None => {
                return Err(DecodeError::Malformed);
            },
        };
        (
            BodyAcc {
                tag: acc.tag,
                msg_id: Some(v),
                node_id: acc.node_id,
                node_ids: acc.node_ids,
                in_reply_to: acc.in_reply_to,
                echo: acc.echo,
            },
            j4,
        )
    } else if str_eq(name.as_str(), "node_id") {
        if acc.node_id.is_some() {
            return Err(DecodeError::Malformed);
        }
        let (id, j4) = match p_node_id(s, j3) {
            Ok(p) => p,
            Err(e) => {
                return Err(e);
            },
        };
        (
            BodyAcc {
                tag: acc.tag,
                msg_id: acc.msg_id,
                node_id: Some(id),
                node_ids: acc.node_ids,
                in_reply_to: acc.in_reply_to,
                echo: acc.echo,
            },
            j4,
        )
    } else if str_eq(name.as_str(), "node_ids") {
        if acc.node_ids.is_some() {
            return Err(DecodeError::Malformed);
        }
        let (ids, j4) = match p_id_array_any(s, j3) {
            Ok(p) => p,
            Err(e) => {
                return Err(e);
            },
        };
        (
            BodyAcc {
                tag: acc.tag,
                msg_id: acc.msg_id,
                node_id: acc.node_id,
                node_ids: Some(ids),
                in_reply_to: acc.in_reply_to,
                echo: acc.echo,
            },
            j4,
        )
    } else if str_eq(name.as_str(), "in_reply_to") {
        if acc.in_reply_to.is_some() {
            return Err(DecodeError::Malformed);
        }
        let (v, j4) = match p_i64(s, j3) {
            Some(p) => p,
            None => {
                return Err(DecodeError::Malformed);
            },
        };
        (
            BodyAcc {
                tag: acc.tag,
                msg_id: acc.msg_id,
                node_id: acc.node_id,
                node_ids: acc.node_ids,
                in_reply_to: Some(v),
                echo: acc.echo,
            },
            j4,
        )
    } else if str_eq(name.as_str(), "echo") {
        if acc.echo.is_some() {
            return Err(DecodeError::Malformed);
        }
        let (x, j4) = match p_string(s, j3) {
            Some(p) => p,
            None => {
                return Err(DecodeError::Malformed);
            },
        };
        (
            BodyAcc {
                tag: acc.tag,
                msg_id: acc.msg_id,
                node_id: acc.node_id,
                node_ids: acc.node_ids,
                in_reply_to: acc.in_reply_to,
                echo: Some(x),
            },
            j4,
        )
    } else {
        return Err(DecodeError::Malformed);
    };
    let (acc2, j4) = step;
    let j5 = skip_ws(s, j4);
    if j5 < n && s.get_char(j5) == ',' {
        let j6 = skip_ws(s, j5 + 1);
        if i < j6 {
            p_body_members(s, j6, acc2)
        } else {
            Err(DecodeError::Malformed)
        }
    } else if j5 < n && s.get_char(j5) == '}' {
        Ok((acc2, j5 + 1))
    } else {
        Err(DecodeError::Malformed)
    }
}

/// A body object in any JSON layout.
#[verifier::rlimit(100)]
fn p_body_any(s: &str, i: usize) -> (r: Result<(MessageBody, usize), DecodeError>)
    ensures
        (match sp_body_any(s@, i as int) {
            SpOut::Parsed(bv, j) => r matches Ok(p) && body_view(p.0) == bv && p.1 as int == j && i
                <= p.1 && p.1 as int <= s@.len(),
            o => r matches Err(e) && sp_err_of(o, e),
        }),
{
    proof {
        crate::codec::lemma_wire_tokens();
    }
    let n = s.unicode_len();
    if !(i < n && s.get_char(i) == '{') {
        return Err(DecodeError::Malformed);
    }
    let i1 = skip_ws(s, i + 1);
    let acc0 = BodyAcc {
        tag: None,
        msg_id: None,
        node_id: None,
        node_ids: None,
        in_reply_to: None,
        echo: None,
    };
    let (acc, j) = match p_body_members(s, i1, acc0) {
        Ok(p) => p,
        Err(e) => {
            return Err(e);
        },
    };
    let ghost slots = body_acc_view(acc);
    let BodyAcc { tag, msg_id, node_id, node_ids, in_reply_to, echo } = acc;
    let tag = match tag {
        Some(x) => x,
        None => {
            return Err(DecodeError::Malformed);
        },
    };
    if str_eq(tag.as_str(), "init") {
        match (msg_id, node_id, node_ids, in_reply_to, echo) {
            (Some(msg_id), Some(node_id), Some(node_ids), None, None) => Ok(
                (MessageBody::Init(InitBody { msg_id, node_id, node_ids }), j),
            ),
            _ => Err(DecodeError::Malformed),
        }
    } else if str_eq(tag.as_str(), "init_ok") {
        match (msg_id, node_id, node_ids, in_reply_to, echo) {
            (None, None, None, Some(in_reply_to), None) => Ok(
                (MessageBody::InitOk(InitOkBody { in_reply_to }), j),
            ),
            _ => Err(DecodeError::Malformed),
        }
    } else if str_eq(tag.as_str(), "echo") {
        match (msg_id, node_id, node_ids, in_reply_to, echo) {
            (Some(msg_id), None, None, None, Some(echo)) => Ok(
                (MessageBody::Echo(EchoBody { msg_id, echo }), j),
            ),
            _ => Err(DecodeError::Malformed),
        }
    } else if str_eq(tag.as_str(), "echo_ok") {
        match (msg_id, node_id, node_ids, in_reply_to, echo) {
            (Some(msg_id), None, None, Some(in_reply_to), Some(echo)) => Ok(
                (MessageBody::EchoOk(EchoOkBody { msg_id, in_reply_to, echo }), j),
            ),
            _ => Err(DecodeError::Malformed),
        }
    } else {
        Err(DecodeError::UnknownTag(tag))
    }
}

/// The envelope's members gathered so far.
struct EnvAcc {
    src: Option<NodeId>,
    dest: Option<NodeId>,
    body: Option<MessageBody>,
}

spec fn env_view(a: EnvAcc) -> EnvSlots {
    EnvSlots {
        src: a.src,
        dest: a.dest,
        body: (match a.body {
            Some(b) => Some(body_view(b)),
            None => None,
        }),
    }
}

/// The members of the envelope object, entered at the first member's name.
#[verifier::rlimit(100)]
fn p_env_members(s: &str, i: usize, acc: EnvAcc) -> (r: Result<(EnvAcc, usize), DecodeError>)
    ensures
        (match sp_env_members(s@, i as int, env_view(acc)) {
            SpOut::Parsed(slots, j) => r matches Ok(p) && env_view(p.0) == slots && p.1 as int == j
                && i <= p.1 && p.1 as int <= s@.len(),
            o => r matches Err(e) && sp_err_of(o, e),
        }),
    decreases s@.len() - i,
{
    proof {
        crate::codec::lemma_wire_tokens();
        crate::codec::lemma_names_distinct();
    }
    let (name, j) = match p_string(s, i) {
        Some(p) => p,
        None => {
            return Err(DecodeError::Malformed);
        },
    };
    let j2 = skip_ws(s, j);
    let n = s.unicode_len();
    if !(j2 < n && s.get_char(j2) == ':') {
        return Err(DecodeError::Malformed);
    }
    let j3 = skip_ws(s, j2 + 1);
    let step: (EnvAcc, usize) = if str_eq(name.as_str(), "src") {
        if acc.src.is_some() {
            return Err(DecodeError::Malformed);
        }
        let (id, j4) = match p_node_id(s, j3) {
            Ok(p) => p,
            Err(e) => {
                return Err(e);
            },
        };
        (EnvAcc { src: Some(id), dest: acc.dest, body: acc.body }, j4)
    } else if str_eq(name.as_str(), "dest") {
        if acc.dest.is_some() {
            return Err(DecodeError::Malformed);
        }
        let (id, j4) = match p_node_id(s, j3) {
            Ok(p) => p,
            Err(e) => {
                return Err(e);
            },
        };
        (EnvAcc { src: acc.src, dest: Some(id), body: acc.body }, j4)
    } else if str_eq(name.as_str(), "body") {
        if acc.body.is_some() {
            return Err(DecodeError::Malformed);
        }
        let (b, j4) = match p_body_any(s, j3) {
            Ok(p) => p,
            Err(e) => {
                return Err(e);
            },
        };
        (EnvAcc { src: acc.src, dest: acc.dest, body: Some(b) }, j4)
    } else {
        return Err(DecodeError::Malformed);
    };
    let (acc2, j4) = step;
    let j5 = skip_ws(s, j4);
    if j5 < n && s.get_char(j5) == ',' {
        let j6 = skip_ws(s, j5 + 1);
        if i < j6 {
            p_env_members(s, j6, acc2)
        } else {
            Err(DecodeError::Malformed)
        }
    } else if j5 < n && s.get_char(j5) == '}' {
        Ok((acc2, j5 + 1))
    } else {
        Err(DecodeError::Malformed)
    }
}

/// The general-layout parser, mirroring `sp_msg_general` exactly.
#[verifier::rlimit(100)]
fn p_msg_general(s: &str) -> (r: Result<Message<MessageBody>, DecodeError>)
    ensures
        (match sp_msg_general(s@) {
            SpOut::Parsed(t, _) => r matches Ok(m) && m.src == t.0 && m.dest == t.1 && body_view(
                m.body,
            ) == t.2,
            o => r matches Err(e) && sp_err_of(o, e),
        }),
{
    let n = s.unicode_len();
    let i0 = skip_ws(s, 0);
    if !(i0 < n && s.get_char(i0) == '{') {
        return Err(DecodeError::Malformed);
    }
    let i1 = skip_ws(s, i0 + 1);
    let acc0 = EnvAcc { src: None, dest: None, body: None };
    let (acc, j) = match p_env_members(s, i1, acc0) {
        Ok(p) => p,
        Err(e) => {
            return Err(e);
        },
    };
    let src = match acc.src {
        Some(x) => x,
        None => {
            return Err(DecodeError::Malformed);
        },
    };
    let dest = match acc.dest {
        Some(x) => x,
        None => {
            return Err(DecodeError::Malformed);
        },
    };
    let body = match acc.body {
        Some(x) => x,
        None => {
            return Err(DecodeError::Malformed);
        },
    };
    if !rest_is_ws(s, j) {
        return Err(DecodeError::Malformed);
    }
    Ok(Message { src, dest, body })
}

/// Decodes one line into a generic message, in any JSON layout the wire
/// grammar allows: members in any order, whitespace insignificant, full
/// string escapes including surrogate pairs.  The outcome mirrors the
/// spec parser `sp_msg_any` exactly: the parsed envelope on success, and
/// otherwise the classified error — the unrecognized tag by name, the
/// malformed node id with the node-id error kind, or a plain malformed
/// line.
pub fn decode_message(s: &str) -> (r: Result<Message<MessageBody>, DecodeError>)
    ensures
        (match sp_msg_any(s@) {
            SpOut::Parsed(t, _) => r matches Ok(m) && m.src == t.0 && m.dest == t.1 && body_view(
                m.body,
            ) == t.2,
            o => r matches Err(e) && sp_err_of(o, e),
        }),
{
    match p_msg_canonical(s) {
        Ok(m) => Ok(m),
        Err(_) => p_msg_general(s),
    }
}

} // verus!
