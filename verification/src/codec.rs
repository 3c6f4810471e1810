//! The wire codec: the JSON framing of the relay's message vocabulary.
//!
//! The grammar is the closed tagged-union format of the protocol, one
//! compact JSON object per frame with the `type` tag first and the two
//! payload fields in either order:
//!
//! - inbound:  `{"type":"Offer","to":<string>,"sdp":<string>}`,
//!   `{"type":"Answer","to":<string>,"sdp":<string>}`, `{"type":"GetMyID"}`
//! - outbound: `{"type":"Offer","from":<string>,"sdp":<string>}`,
//!   `{"type":"Answer","from":<string>,"sdp":<string>}`,
//!   `{"type":"ID","id":<string>}`
//!
//! A `<string>` is quoted with the JSON escapes: `\"`, `\\`, `\/`, `\b`,
//! `\f`, `\n`, `\r`, `\t`, and `\uXXXX` naming a scalar value of the basic
//! plane (a surrogate half is rejected; characters beyond the basic plane
//! travel as themselves). The serializer writes `"` and `\` and the control
//! characters escaped — the short escapes where JSON has them, `\u00XX`
//! otherwise — and every other character as itself, so any payload
//! round-trips. Anything else — unparseable text, an unknown tag, missing
//! fields, a stray escape, trailing bytes — is not a frame of the protocol:
//! the parser returns `None` and the caller drops the frame without closing
//! the connection.

use crate::messages::{
    ClientAnswer, ClientAnswerView, ClientMessage, ClientMessageView, ClientOffer,
    ClientOfferView, ServerMessage, ServerMessageView,
};
use vstd::prelude::*;
use vstd::string::StrSliceExecFns;
use vstd::string::StringExecFns;

verus! {

/// The value of a hexadecimal digit; meaningful only under
/// [`is_hex_digit`].
pub open spec fn hex_val(c: char) -> int {
    if 48 <= c as u32 && c as u32 <= 57 {
        c as u32 - 48
    } else if 97 <= c as u32 && c as u32 <= 102 {
        c as u32 - 87
    } else if 65 <= c as u32 && c as u32 <= 70 {
        c as u32 - 55
    } else {
        0
    }
}

/// Whether `c` is a hexadecimal digit, of either case.
pub open spec fn is_hex_digit(c: char) -> bool {
    (48 <= c as u32 && c as u32 <= 57) || (97 <= c as u32 && c as u32 <= 102) || (65 <= c as u32
        && c as u32 <= 70)
}

/// Whether `v` is a Unicode scalar value: not a surrogate half, not past
/// the maximum code point.
pub open spec fn is_scalar_code(v: int) -> bool {
    (0 <= v && v < 0xD800) || (0xE000 <= v && v <= 0x10FFFF)
}

/// The scalar value of a character.
pub open spec fn code_of(c: char) -> int {
    c as int
}

/// The character with scalar value `v`; meaningful only under
/// [`is_scalar_code`].
pub open spec fn char_of_code(v: int) -> char {
    choose|c: char| code_of(c) == v
}

/// The character a one-letter escape stands for, if the letter is one.
pub open spec fn simple_unescape(e: char) -> Option<char> {
    if e == '"' {
        Some('"')
    } else if e == '\\' {
        Some('\\')
    } else if e == '/' {
        Some('/')
    } else if e == 'b' {
        Some('\u{8}')
    } else if e == 'f' {
        Some('\u{c}')
    } else if e == 'n' {
        Some('\n')
    } else if e == 'r' {
        Some('\r')
    } else if e == 't' {
        Some('\t')
    } else {
        None
    }
}

/// The lowercase hexadecimal digit for a value below sixteen.
pub open spec fn hex_digit_char(v: int) -> char {
    if v == 0 {
        '0'
    } else if v == 1 {
        '1'
    } else if v == 2 {
        '2'
    } else if v == 3 {
        '3'
    } else if v == 4 {
        '4'
    } else if v == 5 {
        '5'
    } else if v == 6 {
        '6'
    } else if v == 7 {
        '7'
    } else if v == 8 {
        '8'
    } else if v == 9 {
        '9'
    } else if v == 10 {
        'a'
    } else if v == 11 {
        'b'
    } else if v == 12 {
        'c'
    } else if v == 13 {
        'd'
    } else if v == 14 {
        'e'
    } else {
        'f'
    }
}

/// How one character of a payload appears inside a quoted string.
pub open spec fn escaped_char(c: char) -> Seq<char> {
    if c == '"' {
        seq!['\\', '"']
    } else if c == '\\' {
        seq!['\\', '\\']
    } else if c == '\u{8}' {
        seq!['\\', 'b']
    } else if c == '\u{c}' {
        seq!['\\', 'f']
    } else if c == '\n' {
        seq!['\\', 'n']
    } else if c == '\r' {
        seq!['\\', 'r']
    } else if c == '\t' {
        seq!['\\', 't']
    } else if (c as u32) < 32 {
        seq![
            '\\',
            'u',
            '0',
            '0',
            hex_digit_char((c as u32 / 16) as int),
            hex_digit_char((c as u32 % 16) as int),
        ]
    } else {
        seq![c]
    }
}

/// How a whole payload appears inside a quoted string.
pub open spec fn escaped(s: Seq<char>) -> Seq<char>
    decreases s.len(),
{
    if s.len() == 0 {
        Seq::empty()
    } else {
        escaped_char(s[0]) + escaped(s.drop_first())
    }
}

/// The exact frame text of an outbound message.
pub open spec fn spec_serialize_server(m: ServerMessageView) -> Seq<char> {
    match m {
        ServerMessageView::Answer(a) => "{\"type\":\"Answer\",\"from\":\""@ + escaped(a.from)
            + "\",\"sdp\":\""@ + escaped(a.sdp) + "\"}"@,
        ServerMessageView::Offer(o) => "{\"type\":\"Offer\",\"from\":\""@ + escaped(o.from)
            + "\",\"sdp\":\""@ + escaped(o.sdp) + "\"}"@,
        ServerMessageView::ID(i) => "{\"type\":\"ID\",\"id\":\""@ + escaped(i.id) + "\"}"@,
    }
}

/// Parse a quoted string's body beginning at `i` (just past the opening
/// quote), undoing the escapes. On success, the content and the index just
/// past the closing quote.
pub open spec fn spec_parse_qstring(s: Seq<char>, i: int) -> Option<(Seq<char>, int)>
    decreases s.len() - i,
{
    if i < 0 || i >= s.len() {
        None
    } else if s[i] == '"' {
        Some((Seq::empty(), i + 1))
    } else if s[i] == '\\' {
        if i + 1 >= s.len() {
            None
        } else {
            match simple_unescape(s[i + 1]) {
                Some(c) => match spec_parse_qstring(s, i + 2) {
                    Some(r) => Some((seq![c] + r.0, r.1)),
                    None => None,
                },
                None => if s[i + 1] == 'u' && i + 6 <= s.len() && is_hex_digit(s[i + 2])
                    && is_hex_digit(s[i + 3]) && is_hex_digit(s[i + 4]) && is_hex_digit(
                    s[i + 5],
                ) {
                    let v = hex_val(s[i + 2]) * 4096 + hex_val(s[i + 3]) * 256 + hex_val(s[i + 4])
                        * 16 + hex_val(s[i + 5]);
                    if is_scalar_code(v) {
                        match spec_parse_qstring(s, i + 6) {
                            Some(r) => Some((seq![char_of_code(v)] + r.0, r.1)),
                            None => None,
                        }
                    } else {
                        None
                    }
                } else {
                    None
                },
            }
        }
    } else {
        match spec_parse_qstring(s, i + 1) {
            Some(r) => Some((seq![s[i]] + r.0, r.1)),
            None => None,
        }
    }
}

/// Parse the tail of an Offer or Answer frame beginning at `i`, just past
/// the opening quote of the first payload value: the first string, the
/// `mid` text naming the second key, the second string, and the closing
/// brace ending the frame.
pub open spec fn spec_parse_two(s: Seq<char>, i: int, mid: Seq<char>) -> Option<
    (Seq<char>, Seq<char>),
> {
    match spec_parse_qstring(s, i) {
        Some(r_first) => {
            if r_first.1 + mid.len() <= s.len() && s.subrange(r_first.1, r_first.1 + mid.len())
                == mid {
                match spec_parse_qstring(s, r_first.1 + mid.len()) {
                    Some(r_second) => if r_second.1 + 1 == s.len() && s[r_second.1] == '}' {
                        Some((r_first.0, r_second.0))
                    } else {
                        None
                    },
                    None => None,
                }
            } else {
                None
            }
        },
        None => None,
    }
}

/// Whether `p` opens `s`.
pub open spec fn has_prefix(s: Seq<char>, p: Seq<char>) -> bool {
    s.len() >= p.len() && s.subrange(0, p.len() as int) == p
}

/// Which inbound message, if any, a frame is. `None` marks a malformed
/// frame, to be dropped without a response.
pub open spec fn spec_parse_client(s: Seq<char>) -> Option<ClientMessageView> {
    if s == "{\"type\":\"GetMyID\"}"@ {
        Some(ClientMessageView::GetMyID)
    } else if has_prefix(s, "{\"type\":\"Offer\",\"to\":\""@) {
        match spec_parse_two(s, "{\"type\":\"Offer\",\"to\":\""@.len() as int, ",\"sdp\":\""@) {
            Some(f) => Some(ClientMessageView::Offer(ClientOfferView { to: f.0, sdp: f.1 })),
            None => None,
        }
    } else if has_prefix(s, "{\"type\":\"Offer\",\"sdp\":\""@) {
        match spec_parse_two(s, "{\"type\":\"Offer\",\"sdp\":\""@.len() as int, ",\"to\":\""@) {
            Some(f) => Some(ClientMessageView::Offer(ClientOfferView { to: f.1, sdp: f.0 })),
            None => None,
        }
    } else if has_prefix(s, "{\"type\":\"Answer\",\"to\":\""@) {
        match spec_parse_two(s, "{\"type\":\"Answer\",\"to\":\""@.len() as int, ",\"sdp\":\""@) {
            Some(f) => Some(ClientMessageView::Answer(ClientAnswerView { to: f.0, sdp: f.1 })),
            None => None,
        }
    } else if has_prefix(s, "{\"type\":\"Answer\",\"sdp\":\""@) {
        match spec_parse_two(s, "{\"type\":\"Answer\",\"sdp\":\""@.len() as int, ",\"to\":\""@) {
            Some(f) => Some(ClientMessageView::Answer(ClientAnswerView { to: f.1, sdp: f.0 })),
            None => None,
        }
    } else {
        None
    }
}

/// Relies on `String::push`: appends one character to the end of the string.
#[verifier::external_body]
pub(crate) fn push_char(s: &mut String, c: char)
    ensures
        final(s)@ == old(s)@.push(c),
{
    s.push(c);
}

/// Relies on `char::from_u32`: `Some` holding the character with scalar
/// value `v` when `v` is one — not a surrogate half, not past the maximum
/// code point — and `None` otherwise.
#[verifier::external_body]
fn char_from_code(v: u32) -> (r: Option<char>)
    ensures
        match r {
            Some(c) => c as int == v as int,
            None => !is_scalar_code(v as int),
        },
{
    char::from_u32(v)
}

/// A character is determined by its scalar value.
proof fn lemma_char_of_code_unique(u: char, v: int)
    requires
        u as int == v,
    ensures
        char_of_code(v) == u,
{
    assert(code_of(u) == v);
    assert(exists|c: char| code_of(c) == v);
    let c2 = char_of_code(v);
    assert(code_of(c2) == v);
}

/// The value of one hexadecimal digit, if `c` is one.
fn hex_digit_value(c: char) -> (r: Option<u32>)
    ensures
        match r {
            Some(v) => is_hex_digit(c) && v == hex_val(c) && v < 16,
            None => !is_hex_digit(c),
        },
{
    let d = c as u32;
    if 48 <= d && d <= 57 {
        Some(d - 48)
    } else if 97 <= d && d <= 102 {
        Some(d - 87)
    } else if 65 <= d && d <= 70 {
        Some(d - 55)
    } else {
        None
    }
}

/// The character a one-letter escape stands for, if the letter is one.
fn simple_unescape_char(e: char) -> (r: Option<char>)
    ensures
        r == simple_unescape(e),
{
    match e {
        '"' => Some('"'),
        '\\' => Some('\\'),
        '/' => Some('/'),
        'b' => Some('\u{8}'),
        'f' => Some('\u{c}'),
        'n' => Some('\n'),
        'r' => Some('\r'),
        't' => Some('\t'),
        _ => None,
    }
}

/// Does `s` hold exactly `lit` beginning at index `i`?
fn has_lit_at(s: &str, i: usize, lit: &str) -> (r: bool)
    ensures
        r == (i + lit@.len() <= s@.len() && s@.subrange(i as int, i + lit@.len()) == lit@),
{
    let sn = s.unicode_len();
    let n = lit.unicode_len();
    if i > sn || n > sn - i {
        return false;
    }
    let mut k: usize = 0;
    while k < n
        invariant
            k <= n,
            n == lit@.len(),
            sn == s@.len(),
            i + n <= sn,
            forall|j: int| 0 <= j < k ==> s@[i + j] == lit@[j],
        decreases n - k,
    {
        if s.get_char(i + k) != lit.get_char(k) {
            proof {
                assert(s@.subrange(i as int, i + lit@.len())[k as int] == s@[i + k]);
            }
            return false;
        }
        k += 1;
    }
    proof {
        assert(s@.subrange(i as int, i + lit@.len()) =~= lit@);
    }
    true
}

/// Scan a quoted string's body beginning at `i`, undoing the escapes. The
/// executable mirror of [`spec_parse_qstring`].
fn parse_quoted_body(s: &str, i: usize) -> (r: Option<(String, usize)>)
    requires
        i <= s@.len(),
    ensures
        match r {
            Some(p) => spec_parse_qstring(s@, i as int) == Some((p.0@, p.1 as int)) && p.1
                <= s@.len(),
            None => spec_parse_qstring(s@, i as int) is None,
        },
{
    let sn = s.unicode_len();
    let mut out = String::new();
    let mut j = i;
    loop
        invariant
            i <= j <= sn,
            sn == s@.len(),
            spec_parse_qstring(s@, i as int) == (match spec_parse_qstring(s@, j as int) {
                Some(r2) => Some((out@ + r2.0, r2.1)),
                None => None::<(Seq<char>, int)>,
            }),
        decreases sn - j,
    {
        if j >= sn {
            return None;
        }
        let c = s.get_char(j);
        if c == '"' {
            proof {
                assert(out@ + Seq::<char>::empty() =~= out@);
            }
            return Some((out, j + 1));
        } else if c == '\\' {
            if j + 1 >= sn {
                return None;
            }
            let c2 = s.get_char(j + 1);
            match simple_unescape_char(c2) {
                Some(u) => {
                    let ghost pre = out@;
                    push_char(&mut out, u);
                    proof {
                        match spec_parse_qstring(s@, j + 2) {
                            Some(r2) => {
                                assert(spec_parse_qstring(s@, j as int) == Some(
                                    (seq![u] + r2.0, r2.1),
                                ));
                                assert(pre + (seq![u] + r2.0) =~= out@ + r2.0);
                            },
                            None => {
                                assert(spec_parse_qstring(s@, j as int) is None);
                            },
                        }
                    }
                    j = j + 2;
                },
                None => {
                    if !(c2 == 'u' && sn - j >= 6) {
                        return None;
                    }
                    let d1 = hex_digit_value(s.get_char(j + 2));
                    let d2 = hex_digit_value(s.get_char(j + 3));
                    let d3 = hex_digit_value(s.get_char(j + 4));
                    let d4 = hex_digit_value(s.get_char(j + 5));
                    match (d1, d2, d3, d4) {
                        (Some(v1), Some(v2), Some(v3), Some(v4)) => {
                            let v = v1 * 4096 + v2 * 256 + v3 * 16 + v4;
                            match char_from_code(v) {
                                Some(u) => {
                                    let ghost pre = out@;
                                    push_char(&mut out, u);
                                    proof {
                                        lemma_char_of_code_unique(u, v as int);
                                        match spec_parse_qstring(s@, j + 6) {
                                            Some(r2) => {
                                                assert(spec_parse_qstring(s@, j as int) == Some(
                                                    (seq![u] + r2.0, r2.1),
                                                ));
                                                assert(pre + (seq![u] + r2.0) =~= out@ + r2.0);
                                            },
                                            None => {
                                                assert(spec_parse_qstring(s@, j as int) is None);
                                            },
                                        }
                                    }
                                    j = j + 6;
                                },
                                None => {
                                    return None;
                                },
                            }
                        },
                        _ => {
                            return None;
                        },
                    }
                },
            }
        } else {
            let ghost pre = out@;
            push_char(&mut out, c);
            proof {
                match spec_parse_qstring(s@, j + 1) {
                    Some(r2) => {
                        assert(spec_parse_qstring(s@, j as int) == Some((seq![c] + r2.0, r2.1)));
                        assert(pre + (seq![c] + r2.0) =~= out@ + r2.0);
                    },
                    None => {
                        assert(spec_parse_qstring(s@, j as int) is None);
                    },
                }
            }
            j = j + 1;
        }
    }
}

/// Scan the two payload strings and the closing brace of an Offer or Answer
/// frame, with `mid` naming the second key. The executable mirror of
/// [`spec_parse_two`].
fn parse_two_strings(s: &str, i: usize, mid: &str) -> (r: Option<(String, String)>)
    requires
        i <= s@.len(),
    ensures
        match r {
            Some(p) => spec_parse_two(s@, i as int, mid@) == Some((p.0@, p.1@)),
            None => spec_parse_two(s@, i as int, mid@) is None,
        },
{
    let sn = s.unicode_len();
    match parse_quoted_body(s, i) {
        Some((first, j)) => {
            if has_lit_at(s, j, mid) {
                let mlen = mid.unicode_len();
                match parse_quoted_body(s, j + mlen) {
                    Some((second, k)) => {
                        if sn - k == 1 {
                            if s.get_char(k) == '}' {
                                Some((first, second))
                            } else {
                                None
                            }
                        } else {
                            None
                        }
                    },
                    None => None,
                }
            } else {
                None
            }
        },
        None => None,
    }
}

/// Parse one inbound frame. Returns the message a well-formed frame carries,
/// and `None` for any malformed frame, which the caller drops with no
/// response and no connection teardown.
pub fn parse_client_message(s: &str) -> (r: Option<ClientMessage>)
    ensures
        match r {
            Some(m) => spec_parse_client(s@) == Some(m@),
            None => spec_parse_client(s@) is None,
        },
{
    let sn = s.unicode_len();
    let get_lit = "{\"type\":\"GetMyID\"}";
    if sn == get_lit.unicode_len() && has_lit_at(s, 0, get_lit) {
        proof {
            assert(s@.subrange(0, s@.len() as int) =~= s@);
        }
        return Some(ClientMessage::GetMyID);
    }
    proof {
        if s@.len() == get_lit@.len() {
            assert(s@.subrange(0, s@.len() as int) =~= s@);
        }
        assert(s@ != get_lit@);
    }
    let offer_to = "{\"type\":\"Offer\",\"to\":\"";
    if has_lit_at(s, 0, offer_to) {
        return match parse_two_strings(s, offer_to.unicode_len(), ",\"sdp\":\"") {
            Some((to, sdp)) => Some(ClientMessage::Offer(ClientOffer { to, sdp })),
            None => None,
        };
    }
    let offer_sdp = "{\"type\":\"Offer\",\"sdp\":\"";
    if has_lit_at(s, 0, offer_sdp) {
        return match parse_two_strings(s, offer_sdp.unicode_len(), ",\"to\":\"") {
            Some((sdp, to)) => Some(ClientMessage::Offer(ClientOffer { to, sdp })),
            None => None,
        };
    }
    let answer_to = "{\"type\":\"Answer\",\"to\":\"";
    if has_lit_at(s, 0, answer_to) {
        return match parse_two_strings(s, answer_to.unicode_len(), ",\"sdp\":\"") {
            Some((to, sdp)) => Some(ClientMessage::Answer(ClientAnswer { to, sdp })),
            None => None,
        };
    }
    let answer_sdp = "{\"type\":\"Answer\",\"sdp\":\"";
    if has_lit_at(s, 0, answer_sdp) {
        return match parse_two_strings(s, answer_sdp.unicode_len(), ",\"to\":\"") {
            Some((sdp, to)) => Some(ClientMessage::Answer(ClientAnswer { to, sdp })),
            None => None,
        };
    }
    None
}

/// A well-formedness lemma for the serializer's pieces: escaping distributes
/// over appending one character.
proof fn lemma_escaped_push(s: Seq<char>, c: char)
    ensures
        escaped(s.push(c)) == escaped(s) + escaped_char(c),
    decreases s.len(),
{
    if s.len() == 0 {
        assert(s.push(c)[0] == c);
        assert(s.push(c).drop_first() =~= Seq::<char>::empty());
        assert(escaped(s.push(c)) == escaped_char(c) + escaped(s.push(c).drop_first()));
        assert(escaped(s) == Seq::<char>::empty());
        assert(escaped_char(c) + Seq::<char>::empty() =~= escaped_char(c));
        assert(escaped(s) + escaped_char(c) =~= escaped_char(c));
    } else {
        assert(s.push(c)[0] == s[0]);
        assert(s.push(c).drop_first() =~= s.drop_first().push(c));
        assert(escaped(s.push(c)) == escaped_char(s[0]) + escaped(s.push(c).drop_first()));
        assert(escaped(s) == escaped_char(s[0]) + escaped(s.drop_first()));
        lemma_escaped_push(s.drop_first(), c);
        assert(escaped_char(s[0]) + (escaped(s.drop_first()) + escaped_char(c)) =~= (escaped_char(
            s[0],
        ) + escaped(s.drop_first())) + escaped_char(c));
    }
}

/// The lowercase hexadecimal digit for a value below sixteen.
fn hex_char(v: u32) -> (r: char)
    requires
        v < 16,
    ensures
        r == hex_digit_char(v as int),
{
    match v {
        0 => '0',
        1 => '1',
        2 => '2',
        3 => '3',
        4 => '4',
        5 => '5',
        6 => '6',
        7 => '7',
        8 => '8',
        9 => '9',
        10 => 'a',
        11 => 'b',
        12 => 'c',
        13 => 'd',
        14 => 'e',
        _ => 'f',
    }
}

/// Append `field` to `out` with the quoting escapes applied.
fn append_escaped(out: &mut String, field: &str)
    ensures
        final(out)@ == old(out)@ + escaped(field@),
{
    let n = field.unicode_len();
    let mut k: usize = 0;
    while k < n
        invariant
            k <= n,
            n == field@.len(),
            out@ == old(out)@ + escaped(field@.take(k as int)),
        decreases n - k,
    {
        let c = field.get_char(k);
        if c == '"' || c == '\\' {
            push_char(out, '\\');
            push_char(out, c);
        } else if c == '\u{8}' {
            push_char(out, '\\');
            push_char(out, 'b');
        } else if c == '\u{c}' {
            push_char(out, '\\');
            push_char(out, 'f');
        } else if c == '\n' {
            push_char(out, '\\');
            push_char(out, 'n');
        } else if c == '\r' {
            push_char(out, '\\');
            push_char(out, 'r');
        } else if c == '\t' {
            push_char(out, '\\');
            push_char(out, 't');
        } else if (c as u32) < 32 {
            let d = c as u32;
            push_char(out, '\\');
            push_char(out, 'u');
            push_char(out, '0');
            push_char(out, '0');
            push_char(out, hex_char(d / 16));
            push_char(out, hex_char(d % 16));
        } else {
            push_char(out, c);
        }
        proof {
            lemma_escaped_push(field@.take(k as int), c);
            assert(field@.take(k + 1) =~= field@.take(k as int).push(c));
            assert(out@ =~= old(out)@ + escaped(field@.take(k + 1)));
        }
        k += 1;
    }
    proof {
        assert(field@.take(n as int) =~= field@);
    }
}

/// Write one outbound message as its frame text.
pub fn serialize_server_message(message: &ServerMessage) -> (r: String)
    ensures
        r@ == spec_serialize_server(message@),
{
    let mut out = String::new();
    match message {
        ServerMessage::Answer(a) => {
            out.append("{\"type\":\"Answer\",\"from\":\"");
            append_escaped(&mut out, a.from.as_str());
            out.append("\",\"sdp\":\"");
            append_escaped(&mut out, a.sdp.as_str());
            out.append("\"}");
        },
        ServerMessage::Offer(o) => {
            out.append("{\"type\":\"Offer\",\"from\":\"");
            append_escaped(&mut out, o.from.as_str());
            out.append("\",\"sdp\":\"");
            append_escaped(&mut out, o.sdp.as_str());
            out.append("\"}");
        },
        ServerMessage::ID(i) => {
            out.append("{\"type\":\"ID\",\"id\":\"");
            append_escaped(&mut out, i.id.as_str());
            out.append("\"}");
        },
    }
    proof {
        assert(out@ =~= spec_serialize_server(message@));
    }
    out
}

} // verus!
