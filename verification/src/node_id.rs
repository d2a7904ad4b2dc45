//! Node identities: a cluster participant is either a server or a client,
//! carrying a numeric index.  The canonical text form is the role marker
//! (`n` for server, `c` for client) followed immediately by the decimal
//! index, e.g. `n3` or `c12`.
use vstd::prelude::*;

verus! {

/// A cluster participant: a server or a client, each with a signed
/// 64-bit index.
#[derive(Copy, Clone, Debug, PartialEq, Eq, Structural)]
pub enum NodeId {
    Server(i64),
    Client(i64),
}

/// Why a node-id string was rejected: the leading role marker was not
/// recognized, or the index part is not a decimal integer in range.
#[derive(Clone, Debug, PartialEq, Eq)]
pub enum NodeIdParseError {
    InvalidNodeType(String),
    InvalidIdNumber,
}

pub open spec fn is_dec_digit(c: char) -> bool {
    '0' <= c && c <= '9'
}

/// Numeric value of a decimal digit character.
pub open spec fn digit_val(c: char) -> nat {
    (c as int - '0' as int) as nat
}

/// The decimal digit character for a value below ten.
pub open spec fn digit_of(d: nat) -> char {
    (d + '0' as int) as char
}

/// Decimal representation of a natural number, most significant digit
/// first, without leading zeros (`0` is represented as `0`).
pub open spec fn dec_digits(n: nat) -> Seq<char>
    decreases n,
{
    if n < 10 {
        seq![digit_of(n)]
    } else {
        dec_digits(n / 10).push(digit_of(n % 10))
    }
}

pub open spec fn all_dec_digits(s: Seq<char>) -> bool {
    forall|i: int| 0 <= i < s.len() ==> is_dec_digit(#[trigger] s[i])
}

/// Value of a digit string, most significant digit first.
pub open spec fn digits_val(s: Seq<char>) -> nat
    decreases s.len(),
{
    if s.len() == 0 {
        0
    } else {
        digits_val(s.drop_last()) * 10 + digit_val(s.last())
    }
}

/// Canonical text of a signed integer: a minus sign for negative values,
/// then the decimal digits of the magnitude.
pub open spec fn int_chars(v: int) -> Seq<char> {
    if v < 0 {
        seq!['-'] + dec_digits((-v) as nat)
    } else {
        dec_digits(v as nat)
    }
}

/// The integer-literal grammar accepted for the index part: an optional
/// sign (`-` or `+`) followed by one or more decimal digits.  Yields the
/// mathematical value; `None` when the text is not of that shape.
pub open spec fn int_lit_val(s: Seq<char>) -> Option<int> {
    let signed = s.len() > 0 && (s[0] == '-' || s[0] == '+');
    let neg = s.len() > 0 && s[0] == '-';
    let ds = if signed {
        s.drop_first()
    } else {
        s
    };
    if ds.len() > 0 && all_dec_digits(ds) {
        if neg {
            Some(-(digits_val(ds) as int))
        } else {
            Some(digits_val(ds) as int)
        }
    } else {
        None
    }
}

/// Canonical text of a node id: role marker, then the index.
pub open spec fn node_id_chars(id: NodeId) -> Seq<char> {
    match id {
        NodeId::Server(v) => seq!['n'] + int_chars(v as int),
        NodeId::Client(v) => seq!['c'] + int_chars(v as int),
    }
}

/// Whether the text begins with a recognized role marker.
pub open spec fn has_role_marker(s: Seq<char>) -> bool {
    s.len() > 0 && (s[0] == 'n' || s[0] == 'c')
}

/// The text reported for a rejected role marker: the first character, or
/// nothing when the input is empty.
pub open spec fn marker_text(s: Seq<char>) -> Seq<char> {
    if s.len() == 0 {
        Seq::empty()
    } else {
        s.take(1)
    }
}

/// The node-id grammar: a role marker, then an integer literal whose
/// value fits in a signed 64-bit index.
pub open spec fn node_id_of(s: Seq<char>) -> Option<NodeId> {
    if !has_role_marker(s) {
        None
    } else {
        match int_lit_val(s.drop_first()) {
            Some(v) => if i64::MIN <= v <= i64::MAX {
                if s[0] == 'n' {
                    Some(NodeId::Server(v as i64))
                } else {
                    Some(NodeId::Client(v as i64))
                }
            } else {
                None
            },
            None => None,
        }
    }
}

/// Relies on String::push: appends the given character to the end of the
/// string.
#[verifier::external_body]
pub(crate) fn push_char(out: &mut String, c: char)
    ensures
        final(out)@ == old(out)@.push(c),
{
    out.push(c);
}

/// Appends the decimal digits of `n`.
fn push_dec_u64(out: &mut String, n: u64)
    ensures
        final(out)@ == old(out)@ + dec_digits(n as nat),
    decreases n,
{
    if n < 10 {
        let c = (48 + n as u8) as char;
        assert(c == digit_of(n as nat));
        push_char(out, c);
        assert(final(out)@ =~= old(out)@ + dec_digits(n as nat));
    } else {
        push_dec_u64(out, n / 10);
        let c = (48 + (n % 10) as u8) as char;
        assert(c == digit_of((n % 10) as nat));
        push_char(out, c);
        assert(final(out)@ =~= old(out)@ + dec_digits(n as nat));
    }
}

/// Appends the canonical text of a signed 64-bit integer.
pub(crate) fn push_i64(out: &mut String, v: i64)
    ensures
        final(out)@ == old(out)@ + int_chars(v as int),
{
    if v < 0 {
        push_char(out, '-');
        let m: u64 = (-(v as i128)) as u64;
        assert(m as nat == (-(v as int)) as nat);
        push_dec_u64(out, m);
        assert(final(out)@ =~= old(out)@ + int_chars(v as int));
    } else {
        push_dec_u64(out, v as u64);
    }
}

impl NodeId {
    /// Canonical text form of this node id.
    pub fn format(&self) -> (r: String)
        ensures
            r@ == node_id_chars(*self),
    {
        let mut out = String::new();
        match self {
            NodeId::Server(v) => {
                push_char(&mut out, 'n');
                push_i64(&mut out, *v);
            },
            NodeId::Client(v) => {
                push_char(&mut out, 'c');
                push_i64(&mut out, *v);
            },
        }
        assert(out@ =~= node_id_chars(*self));
        out
    }

    /// Parses the canonical text form.  Fails with `InvalidNodeType` when
    /// the first character is not a role marker (carrying that character,
    /// or the empty string for empty input), and with `InvalidIdNumber`
    /// when the rest is not a decimal integer literal that fits the
    /// signed 64-bit range.
    pub fn parse(s: &str) -> (r: Result<NodeId, NodeIdParseError>)
        ensures
            node_id_of(s@) matches Some(id) ==> r == Ok::<NodeId, NodeIdParseError>(id),
            node_id_of(s@) is None && !has_role_marker(s@) ==> (r matches Err(e) && e matches
                NodeIdParseError::InvalidNodeType(t) && t@ == marker_text(s@)),
            node_id_of(s@) is None && has_role_marker(s@) ==> r == Err::<
                NodeId,
                NodeIdParseError,
            >(NodeIdParseError::InvalidIdNumber),
    {
        let n = s.unicode_len();
        if n == 0 {
            let t = String::new();
            proof {
                assert(t@ =~= marker_text(s@));
            }
            return Err(NodeIdParseError::InvalidNodeType(t));
        }
        let marker = s.get_char(0);
        if marker != 'n' && marker != 'c' {
            let mut t = String::new();
            push_char(&mut t, marker);
            proof {
                assert(t@ =~= marker_text(s@));
            }
            return Err(NodeIdParseError::InvalidNodeType(t));
        }
        match parse_index(s) {
            Some(v) => if marker == 'n' {
                Ok(NodeId::Server(v))
            } else {
                Ok(NodeId::Client(v))
            },
            None => Err(NodeIdParseError::InvalidIdNumber),
        }
    }
}

/// If a digit string is extended on the right, its value never shrinks,
/// and each appended digit multiplies the lower bound by ten.
pub proof fn lemma_digits_val_append(p: Seq<char>, t: Seq<char>)
    ensures
        digits_val(p + t) >= digits_val(p),
        t.len() > 0 ==> digits_val(p + t) >= digits_val(p) * 10,
    decreases t.len(),
{
    if t.len() == 0 {
        assert(p + t =~= p);
    } else {
        let t0 = t.drop_last();
        lemma_digits_val_append(p, t0);
        assert((p + t).drop_last() =~= p + t0);
        assert(digits_val(p + t) == digits_val(p + t0) * 10 + digit_val((p + t).last()));
    }
}

/// Parses the index part of a node-id string (everything after the role
/// marker) as a signed 64-bit integer, requiring that it reach the end of
/// the string.  `None` exactly when that part is not an integer literal
/// or its value does not fit.
fn parse_index(s: &str) -> (r: Option<i64>)
    requires
        s@.len() >= 1,
    ensures
        r matches Some(v) ==> int_lit_val(s@.drop_first()) == Some(v as int),
        r is None ==> !(int_lit_val(s@.drop_first()) matches Some(v) && i64::MIN <= v
            <= i64::MAX),
{
    let n = s.unicode_len();
    let ghost rest = s@.drop_first();
    let mut i: usize = 1;
    let mut neg = false;
    if i < n {
        let c0 = s.get_char(i);
        if c0 == '-' || c0 == '+' {
            neg = c0 == '-';
            i = 2;
        }
    }
    let ghost ds = s@.skip(i as int);
    proof {
        assert(rest =~= s@.skip(1));
        if i == 2 {
            assert(rest.drop_first() =~= s@.skip(2));
        }
    }
    if i == n {
        // no digits at all
        assert(ds.len() == 0);
        return None;
    }
    // 2^63, the largest magnitude that can still fit (as the negative bound).
    let bound: u64 = 9223372036854775808;
    let mut acc: u64 = 0;
    let mut j: usize = i;
    while j < n
        invariant
            i <= j <= n,
            n == s@.len(),
            i == 1 || i == 2,
            ds == s@.skip(i as int),
            rest == s@.drop_first(),
            i == 2 ==> (rest.len() > 0 && (rest[0] == '-' || rest[0] == '+') && ds
                == rest.drop_first()),
            i == 1 ==> (!(rest.len() > 0 && (rest[0] == '-' || rest[0] == '+')) && ds == rest),
            neg == (i == 2 && rest[0] == '-'),
            all_dec_digits(s@.subrange(i as int, j as int)),
            acc == digits_val(s@.subrange(i as int, j as int)),
            acc <= 9223372036854775808,
            bound == 9223372036854775808,
        decreases n - j,
    {
        let c = s.get_char(j);
        let cv = c as u32;
        if cv < 48 || cv > 57 {
            proof {
                assert(!is_dec_digit(ds[j - i]));
                assert(!all_dec_digits(ds));
                assert(int_lit_val(rest) is None);
            }
            return None;
        }
        let d: u64 = (cv - 48) as u64;
        assert(is_dec_digit(c) && digit_val(c) == d);
        let next: u128 = acc as u128 * 10 + d as u128;
        proof {
            assert(s@.subrange(i as int, j + 1).drop_last() =~= s@.subrange(i as int, j as int));
            assert(digits_val(s@.subrange(i as int, j + 1)) == acc * 10 + d);
        }
        if next > bound as u128 {
            // the value can only grow with further digits, so it is out of range
            proof {
                let pre = s@.subrange(i as int, j + 1);
                let suf = s@.skip(j + 1);
                assert(ds =~= pre + suf);
                lemma_digits_val_append(pre, suf);
                assert(digits_val(pre) == acc * 10 + d);
                assert(digits_val(ds) >= acc * 10 + d);
                assert(digits_val(ds) > 9223372036854775808);
                assert(!(int_lit_val(rest) matches Some(v) && i64::MIN <= v <= i64::MAX));
            }
            return None;
        }
        acc = next as u64;
        j += 1;
    }
    proof {
        assert(s@.subrange(i as int, n as int) =~= ds);
    }
    // all digits consumed; acc == digits_val(ds) <= 2^63
    if neg {
        if acc == bound {
            Some(i64::MIN)
        } else {
            Some(-(acc as i64))
        }
    } else {
        if acc == bound {
            // 2^63 exceeds the largest positive index
            None
        } else {
            Some(acc as i64)
        }
    }
}

/// Every natural number's decimal digits evaluate back to it, consist
/// only of digits, and begin with a digit (never a sign).
pub proof fn lemma_dec_digits_val(n: nat)
    ensures
        digits_val(dec_digits(n)) == n,
        all_dec_digits(dec_digits(n)),
        dec_digits(n).len() >= 1,
        n > 0 ==> dec_digits(n)[0] != '0',
        n < 10 ==> dec_digits(n).len() == 1,
    decreases n,
{
    if n < 10 {
        let s = dec_digits(n);
        assert(s.drop_last() =~= Seq::<char>::empty());
        assert(digits_val(Seq::<char>::empty()) == 0);
        assert(digit_val(digit_of(n)) == n);
    } else {
        lemma_dec_digits_val(n / 10);
        let s0 = dec_digits(n / 10);
        let s = dec_digits(n);
        assert(s.drop_last() =~= s0);
        assert(digits_val(s) == digits_val(s0) * 10 + digit_val(digit_of(n % 10)));
        assert(forall|i: int| 0 <= i < s.len() ==> is_dec_digit(#[trigger] s[i]));
        assert(s[0] == s0[0]);
    }
}

/// The canonical text of any integer evaluates back to it under the
/// integer-literal grammar.
pub proof fn lemma_int_chars_val(v: int)
    ensures
        int_lit_val(int_chars(v)) == Some(v),
{
    let s = int_chars(v);
    if v < 0 {
        lemma_dec_digits_val((-v) as nat);
        assert(s[0] == '-');
        assert(s.drop_first() =~= dec_digits((-v) as nat));
        assert(int_lit_val(s) == Some(-(digits_val(dec_digits((-v) as nat)) as int)));
    } else {
        lemma_dec_digits_val(v as nat);
        assert(is_dec_digit(s[0]));
        assert(s[0] != '-' && s[0] != '+');
        assert(int_lit_val(s) == Some(digits_val(dec_digits(v as nat)) as int));
    }
}

/// Round trip: parsing the canonical text of any node id yields that id.
/// Together with the contracts of `format` and `parse`, this says
/// `parse(format(id)) == Ok(id)` for every `NodeId`.
pub proof fn lemma_node_id_roundtrip(id: NodeId)
    ensures
        node_id_of(node_id_chars(id)) == Some(id),
{
    let s = node_id_chars(id);
    let v: int = match id {
        NodeId::Server(w) => w as int,
        NodeId::Client(w) => w as int,
    };
    assert(s.drop_first() =~= int_chars(v));
    lemma_int_chars_val(v);
    assert(int_lit_val(s.drop_first()) == Some(v));
    assert(i64::MIN <= v <= i64::MAX);
}

} // verus!
