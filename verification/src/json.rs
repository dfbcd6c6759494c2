//! A verified codec for the JSON subset used on the wire.
//!
//! Both vocabularies consist of flat JSON objects with at most two members
//! whose values are strings or booleans. The grammar below is defined
//! directly on byte sequences: strings may use the escapes `\"`, `\\`,
//! `\/`, `\b`, `\f`, `\n`, `\r`, `\t`, `\uXXXX` for basic-plane scalars
//! and surrogate pairs for astral characters (lone surrogates are rejected;
//! this codec itself escapes only control bytes this way), bytes of
//! multi-byte UTF-8 characters pass through unescaped, and
//! whitespace is allowed between tokens. Objects with more than two members
//! are not part of either vocabulary and are rejected.

use vstd::prelude::*;

verus! {

use vstd::utf8::encode_scalar;
use vstd::utf8::is_scalar;

/// A JSON value of the wire subset: a string (raw, unescaped bytes) or a
/// boolean.
#[derive(Debug, Clone, PartialEq)]
pub enum JsonVal {
    S(Vec<u8>),
    B(bool),
}

/// Spec-level value of a [`JsonVal`].
#[verifier::ext_equal]
pub enum JsonValSpec {
    S(Seq<u8>),
    B(bool),
}

impl View for JsonVal {
    type V = JsonValSpec;

    open spec fn view(&self) -> JsonValSpec {
        match self {
            JsonVal::S(bytes) => JsonValSpec::S(bytes@),
            JsonVal::B(b) => JsonValSpec::B(*b),
        }
    }
}

/// The members of one parsed object, in source order.
pub type FieldsSpec = Seq<(Seq<u8>, JsonValSpec)>;

/// Spec-level values of a parsed member list.
pub open spec fn fields_view(fs: Seq<(Vec<u8>, JsonVal)>) -> FieldsSpec {
    fs.map(|i: int, p: (Vec<u8>, JsonVal)| (p.0@, p.1@))
}

/// The suffix of `s` that starts at index `i`.
pub open spec fn suffix(s: Seq<u8>, i: int) -> Seq<u8>
    recommends
        0 <= i <= s.len(),
{
    s.subrange(i, s.len() as int)
}

/// JSON insignificant whitespace.
pub open spec fn is_ws(b: u8) -> bool {
    b == 0x20 || b == 0x09 || b == 0x0A || b == 0x0D
}

/// `s` without its leading whitespace.
pub open spec fn trim_ws(s: Seq<u8>) -> Seq<u8>
    decreases s.len(),
{
    if s.len() > 0 && is_ws(s[0]) {
        trim_ws(s.drop_first())
    } else {
        s
    }
}

/// A byte that stands for itself inside a JSON string.
pub open spec fn plain_byte(b: u8) -> bool {
    b >= 0x20 && b != 0x22 && b != 0x5C
}

/// A byte sequence of nothing but self-standing bytes.
pub open spec fn plain(s: Seq<u8>) -> bool {
    forall|i: int| 0 <= i < s.len() ==> plain_byte(s[i])
}

/// Numeric value of one hexadecimal digit byte.
pub open spec fn hex_digit_val(b: u8) -> Option<u8> {
    if 0x30 <= b <= 0x39 {
        Some((b - 0x30) as u8)
    } else if 0x41 <= b <= 0x46 {
        Some((b - 0x41 + 10) as u8)
    } else if 0x61 <= b <= 0x66 {
        Some((b - 0x61 + 10) as u8)
    } else {
        None
    }
}

/// Lower-case hexadecimal digit byte for a value below 16.
pub open spec fn hex_digit_of(v: u8) -> u8
    recommends
        v < 16,
{
    if v < 10 {
        (0x30 + v) as u8
    } else {
        (0x61 + v - 10) as u8
    }
}

/// How one byte is written inside a JSON string: quote and backslash get a
/// two-byte escape, control bytes a `\u00XX` escape, everything else stands
/// for itself.
pub open spec fn escape_byte(b: u8) -> Seq<u8> {
    if b == 0x22 {
        seq![0x5Cu8, 0x22u8]
    } else if b == 0x5C {
        seq![0x5Cu8, 0x5Cu8]
    } else if b < 0x20 {
        seq![0x5Cu8, 0x75u8, 0x30u8, 0x30u8, hex_digit_of(b / 16), hex_digit_of(b % 16)]
    } else {
        seq![b]
    }
}

/// String content as written between quotes.
pub open spec fn escape_bytes(s: Seq<u8>) -> Seq<u8>
    decreases s.len(),
{
    if s.len() == 0 {
        Seq::empty()
    } else {
        escape_byte(s[0]) + escape_bytes(s.drop_first())
    }
}

/// A whole JSON string: quote, escaped content, quote.
pub open spec fn json_string(s: Seq<u8>) -> Seq<u8> {
    seq![0x22u8] + escape_bytes(s) + seq![0x22u8]
}

/// A JSON string whose content needs no escaping, written verbatim.
pub open spec fn json_string_plain(s: Seq<u8>) -> Seq<u8>
    recommends
        plain(s),
{
    seq![0x22u8] + s + seq![0x22u8]
}

/// The bytes of a JSON boolean literal.
pub open spec fn bool_bytes(b: bool) -> Seq<u8> {
    if b {
        seq![0x74u8, 0x72u8, 0x75u8, 0x65u8]
    } else {
        seq![0x66u8, 0x61u8, 0x6Cu8, 0x73u8, 0x65u8]
    }
}

/// One `"key":value` member.
pub open spec fn json_member(k: Seq<u8>, vb: Seq<u8>) -> Seq<u8> {
    seq![0x22u8] + k + seq![0x22u8, 0x3Au8] + vb
}

/// An object of one member.
pub open spec fn json_obj1(k: Seq<u8>, vb: Seq<u8>) -> Seq<u8> {
    seq![0x7Bu8] + json_member(k, vb) + seq![0x7Du8]
}

/// An object of two members.
pub open spec fn json_obj2(k1: Seq<u8>, vb1: Seq<u8>, k2: Seq<u8>, vb2: Seq<u8>) -> Seq<u8> {
    seq![0x7Bu8] + json_member(k1, vb1) + seq![0x2Cu8] + json_member(k2, vb2) + seq![0x7Du8]
}

/// Decodes one escape, entered just after the backslash. Returns the content
/// bytes (the UTF-8 encoding of what the escape stands for) and the
/// remaining input. `\uXXXX` is accepted for basic-plane scalars, and a
/// high-surrogate escape followed by a low-surrogate escape stands for one
/// astral character; lone surrogates are rejected.
pub open spec fn parse_escape(s: Seq<u8>) -> Option<(Seq<u8>, Seq<u8>)> {
    if s.len() == 0 {
        None
    } else if s[0] == 0x22 {
        Some((seq![0x22u8], s.drop_first()))
    } else if s[0] == 0x5C {
        Some((seq![0x5Cu8], s.drop_first()))
    } else if s[0] == 0x2F {
        Some((seq![0x2Fu8], s.drop_first()))
    } else if s[0] == 0x62 {
        Some((seq![0x08u8], s.drop_first()))
    } else if s[0] == 0x66 {
        Some((seq![0x0Cu8], s.drop_first()))
    } else if s[0] == 0x6E {
        Some((seq![0x0Au8], s.drop_first()))
    } else if s[0] == 0x72 {
        Some((seq![0x0Du8], s.drop_first()))
    } else if s[0] == 0x74 {
        Some((seq![0x09u8], s.drop_first()))
    } else if s[0] == 0x75 {
        if s.len() >= 5 {
            match (hex_digit_val(s[1]), hex_digit_val(s[2]), hex_digit_val(s[3]), hex_digit_val(
                s[4],
            )) {
                (Some(a), Some(b), Some(c), Some(d)) => {
                    let code = ((4096 * (a as int) + 256 * (b as int) + 16 * (c as int) + (
                    d as int)) as u32);
                    if is_scalar(code) {
                        Some((encode_scalar(code), s.skip(5)))
                    } else if 0xD800 <= code <= 0xDBFF && s.len() >= 11 && s[5] == 0x5C && s[6]
                        == 0x75 {
                        match (hex_digit_val(s[7]), hex_digit_val(s[8]), hex_digit_val(s[9]),
                        hex_digit_val(s[10])) {
                            (Some(e), Some(f), Some(g), Some(h)) => {
                                let lo = ((4096 * (e as int) + 256 * (f as int) + 16 * (g as int)
                                    + (h as int)) as u32);
                                if 0xDC00 <= lo <= 0xDFFF {
                                    let scalar = ((0x10000 + 0x400 * ((code - 0xD800) as int) + ((
                                    lo - 0xDC00) as int)) as u32);
                                    Some((encode_scalar(scalar), s.skip(11)))
                                } else {
                                    None
                                }
                            },
                            _ => None,
                        }
                    } else {
                        None
                    }
                },
                _ => None,
            }
        } else {
            None
        }
    } else {
        None
    }
}

/// Parses string content, entered just after the opening quote, up to and
/// including the closing quote. Returns the raw (unescaped) content bytes
/// and the remaining input. Unescaped control bytes are rejected.
pub open spec fn parse_str_body(s: Seq<u8>) -> Option<(Seq<u8>, Seq<u8>)>
    decreases s.len(),
{
    if s.len() == 0 {
        None
    } else if s[0] == 0x22 {
        Some((Seq::empty(), s.drop_first()))
    } else if s[0] == 0x5C {
        match parse_escape(s.drop_first()) {
            Some((c, r)) => match parse_str_body(r) {
                Some((t, r2)) => Some((c + t, r2)),
                None => None,
            },
            None => None,
        }
    } else if s[0] < 0x20 {
        None
    } else {
        match parse_str_body(s.drop_first()) {
            Some((t, r2)) => Some((seq![s[0]] + t, r2)),
            None => None,
        }
    }
}

/// Parses a boolean literal.
pub open spec fn parse_bool(s: Seq<u8>) -> Option<(bool, Seq<u8>)> {
    if s.len() >= 4 && s[0] == 0x74 && s[1] == 0x72 && s[2] == 0x75 && s[3] == 0x65 {
        Some((true, s.skip(4)))
    } else if s.len() >= 5 && s[0] == 0x66 && s[1] == 0x61 && s[2] == 0x6C && s[3] == 0x73 && s[4]
        == 0x65 {
        Some((false, s.skip(5)))
    } else {
        None
    }
}

/// Parses one value of the subset: a string or a boolean.
pub open spec fn parse_value(s: Seq<u8>) -> Option<(JsonValSpec, Seq<u8>)> {
    if s.len() > 0 && s[0] == 0x22 {
        match parse_str_body(s.drop_first()) {
            Some((c, r)) => Some((JsonValSpec::S(c), r)),
            None => None,
        }
    } else {
        match parse_bool(s) {
            Some((b, r)) => Some((JsonValSpec::B(b), r)),
            None => None,
        }
    }
}

/// Parses one `"key" : value` member, entered with leading whitespace
/// already trimmed.
pub open spec fn parse_member(s: Seq<u8>) -> Option<((Seq<u8>, JsonValSpec), Seq<u8>)> {
    if s.len() > 0 && s[0] == 0x22 {
        match parse_str_body(s.drop_first()) {
            Some((k, r)) => {
                let r1 = trim_ws(r);
                if r1.len() > 0 && r1[0] == 0x3A {
                    match parse_value(trim_ws(r1.drop_first())) {
                        Some((v, r2)) => Some(((k, v), r2)),
                        None => None,
                    }
                } else {
                    None
                }
            },
            None => None,
        }
    } else {
        None
    }
}

/// Parses one object of at most two members (larger objects are outside
/// both wire vocabularies and rejected). Returns the members in source
/// order and the remaining input.
pub open spec fn parse_object(s: Seq<u8>) -> Option<(FieldsSpec, Seq<u8>)> {
    if s.len() > 0 && s[0] == 0x7B {
        let r0 = trim_ws(s.drop_first());
        if r0.len() > 0 && r0[0] == 0x7D {
            Some((Seq::empty(), r0.drop_first()))
        } else {
            match parse_member(r0) {
                Some((m1, r1)) => {
                    let r2 = trim_ws(r1);
                    if r2.len() > 0 && r2[0] == 0x7D {
                        Some((seq![m1], r2.drop_first()))
                    } else if r2.len() > 0 && r2[0] == 0x2C {
                        match parse_member(trim_ws(r2.drop_first())) {
                            Some((m2, r3)) => {
                                let r4 = trim_ws(r3);
                                if r4.len() > 0 && r4[0] == 0x7D {
                                    Some((seq![m1, m2], r4.drop_first()))
                                } else {
                                    None
                                }
                            },
                            None => None,
                        }
                    } else {
                        None
                    }
                },
                None => None,
            }
        }
    } else {
        None
    }
}

/// Parses a whole document: one object with nothing but whitespace around
/// it.
pub open spec fn parse_doc(s: Seq<u8>) -> Option<FieldsSpec> {
    match parse_object(trim_ws(s)) {
        Some((fs, r)) => if trim_ws(r).len() == 0 {
            Some(fs)
        } else {
            None
        },
        None => None,
    }
}

/// `vb` parses as the value `v` and consumes exactly itself, whatever
/// follows it in the input.
pub open spec fn parses_to_value(vb: Seq<u8>, v: JsonValSpec) -> bool {
    forall|t: Seq<u8>| #[trigger] parse_value(vb + t) == Some::<(JsonValSpec, Seq<u8>)>((v, t))
}

/// A string written without escapes parses back to its own content.
pub proof fn lemma_parse_plain_string(k: Seq<u8>, t: Seq<u8>)
    requires
        plain(k),
    ensures
        parse_str_body(k + seq![0x22u8] + t) == Some::<(Seq<u8>, Seq<u8>)>((k, t)),
    decreases k.len(),
{
    let s = k + seq![0x22u8] + t;
    if k.len() == 0 {
        assert(s[0] == 0x22);
        assert(s.drop_first() =~= t);
    } else {
        assert(plain_byte(k[0]));
        lemma_parse_plain_string(k.drop_first(), t);
        assert(s.drop_first() =~= k.drop_first() + seq![0x22u8] + t);
        assert(seq![k[0]] + k.drop_first() =~= k);
    }
}

/// Escaped string content parses back to exactly the original bytes.
#[verifier::rlimit(60)]
pub proof fn lemma_parse_escaped_string(u: Seq<u8>, t: Seq<u8>)
    ensures
        parse_str_body(escape_bytes(u) + seq![0x22u8] + t) == Some::<(Seq<u8>, Seq<u8>)>((u, t)),
    decreases u.len(),
{
    let s = escape_bytes(u) + seq![0x22u8] + t;
    if u.len() == 0 {
        assert(s[0] == 0x22);
        assert(s.drop_first() =~= t);
    } else {
        let b = u[0];
        let u1 = u.drop_first();
        lemma_parse_escaped_string(u1, t);
        let s1 = escape_bytes(u1) + seq![0x22u8] + t;
        assert(escape_bytes(u) == escape_byte(b) + escape_bytes(u1));
        assert(seq![b] + u1 =~= u);
        if b == 0x22 || b == 0x5C {
            assert(s =~= seq![0x5Cu8, b] + s1);
            assert(s[0] == 0x5C);
            assert(s.drop_first() =~= seq![b] + s1);
            let e = seq![b] + s1;
            assert(e[0] == b);
            assert(e.drop_first() =~= s1);
            assert(parse_escape(e) == Some::<(Seq<u8>, Seq<u8>)>((seq![b], s1)));
        } else if b < 0x20 {
            let h1 = hex_digit_of(b / 16);
            let h2 = hex_digit_of(b % 16);
            assert(s =~= seq![0x5Cu8, 0x75u8, 0x30u8, 0x30u8, h1, h2] + s1);
            assert(s[0] == 0x5C);
            let e = seq![0x75u8, 0x30u8, 0x30u8, h1, h2] + s1;
            assert(s.drop_first() =~= e);
            assert(e[0] == 0x75 && e[1] == 0x30 && e[2] == 0x30 && e[3] == h1 && e[4] == h2);
            assert(e.len() >= 5);
            assert(b / 16 < 16 && b % 16 < 16);
            lemma_hex_digit_round_trip(b / 16);
            lemma_hex_digit_round_trip(b % 16);
            assert(hex_digit_val(0x30u8) == Some(0u8));
            let code = ((4096 * (0 as int) + 256 * (0 as int) + 16 * ((b / 16) as int) + ((b
                % 16) as int)) as u32);
            assert(code == b) by {
                assert(16 * ((b / 16) as int) + ((b % 16) as int) == b) by (nonlinear_arith);
            }
            assert(is_scalar(code));
            assert(b < 0x20 ==> ((b as u32) & 0x7F) as u8 == b) by (bit_vector);
            assert(encode_scalar(code) =~= seq![b]);
            assert(e.skip(5) =~= s1);
            assert(parse_escape(e) == Some::<(Seq<u8>, Seq<u8>)>((seq![b], s1)));
        } else {
            assert(plain_byte(b));
            assert(s =~= seq![b] + s1);
            assert(s[0] == b);
            assert(s.drop_first() =~= s1);
        }
    }
}

/// The two hexadecimal digit tables invert each other.
pub proof fn lemma_hex_digit_round_trip(v: u8)
    requires
        v < 16,
    ensures
        hex_digit_val(hex_digit_of(v)) == Some(v),
{
}

/// A whole JSON string parses as the string value of its content.
pub proof fn lemma_string_parses_to(u: Seq<u8>)
    ensures
        parses_to_value(json_string(u), JsonValSpec::S(u)),
        json_string(u).len() > 0 && json_string(u)[0] == 0x22,
{
    assert forall|t: Seq<u8>| #[trigger] parse_value(json_string(u) + t) == Some::<
        (JsonValSpec, Seq<u8>),
    >((JsonValSpec::S(u), t)) by {
        let s = json_string(u) + t;
        assert(s[0] == 0x22);
        assert(s.drop_first() =~= escape_bytes(u) + seq![0x22u8] + t);
        lemma_parse_escaped_string(u, t);
    }
}

/// A plainly written JSON string parses as the string value of its content.
pub proof fn lemma_plain_string_parses_to(k: Seq<u8>)
    requires
        plain(k),
    ensures
        parses_to_value(json_string_plain(k), JsonValSpec::S(k)),
        json_string_plain(k).len() > 0 && json_string_plain(k)[0] == 0x22,
{
    assert forall|t: Seq<u8>| #[trigger] parse_value(json_string_plain(k) + t) == Some::<
        (JsonValSpec, Seq<u8>),
    >((JsonValSpec::S(k), t)) by {
        let s = json_string_plain(k) + t;
        assert(s[0] == 0x22);
        assert(s.drop_first() =~= k + seq![0x22u8] + t);
        lemma_parse_plain_string(k, t);
    }
}

/// A boolean literal parses as its boolean value.
pub proof fn lemma_bool_parses_to(b: bool)
    ensures
        parses_to_value(bool_bytes(b), JsonValSpec::B(b)),
        bool_bytes(b).len() > 0 && bool_bytes(b)[0] != 0x22 && !is_ws(bool_bytes(b)[0]),
{
    assert forall|t: Seq<u8>| #[trigger] parse_value(bool_bytes(b) + t) == Some::<
        (JsonValSpec, Seq<u8>),
    >((JsonValSpec::B(b), t)) by {
        let s = bool_bytes(b) + t;
        if b {
            assert(s[0] == 0x74 && s[1] == 0x72 && s[2] == 0x75 && s[3] == 0x65);
            assert(s.skip(4) =~= t);
        } else {
            assert(s[0] == 0x66 && s[1] == 0x61 && s[2] == 0x6C && s[3] == 0x73 && s[4] == 0x65);
            assert(s.skip(5) =~= t);
        }
    }
}

/// One canonical member parses as its key/value pair, whatever follows.
pub proof fn lemma_parse_member(k: Seq<u8>, vb: Seq<u8>, v: JsonValSpec, t: Seq<u8>)
    requires
        plain(k),
        parses_to_value(vb, v),
        vb.len() > 0 && !is_ws(vb[0]),
    ensures
        parse_member(json_member(k, vb) + t) == Some::<((Seq<u8>, JsonValSpec), Seq<u8>)>((
            (k, v),
            t,
        )),
{
    let s = json_member(k, vb) + t;
    assert(s[0] == 0x22);
    assert(s.drop_first() =~= k + seq![0x22u8] + (seq![0x3Au8] + vb + t));
    lemma_parse_plain_string(k, seq![0x3Au8] + vb + t);
    let r = seq![0x3Au8] + vb + t;
    assert(r[0] == 0x3A && !is_ws(r[0]));
    assert(trim_ws(r) == r);
    assert(r.drop_first() =~= vb + t);
    assert((vb + t)[0] == vb[0]);
    assert(trim_ws(vb + t) == vb + t);
    assert(parse_value(vb + t) == Some::<(JsonValSpec, Seq<u8>)>((v, t)));
}

/// A canonical one-member object parses as that single member, whatever
/// follows the closing brace.
pub proof fn lemma_parse_obj1(k: Seq<u8>, vb: Seq<u8>, v: JsonValSpec, t: Seq<u8>)
    requires
        plain(k),
        parses_to_value(vb, v),
        vb.len() > 0 && !is_ws(vb[0]),
    ensures
        parse_object(json_obj1(k, vb) + t) == Some::<(FieldsSpec, Seq<u8>)>((seq![(k, v)], t)),
{
    let s = json_obj1(k, vb) + t;
    assert(s[0] == 0x7B);
    let r0 = json_member(k, vb) + (seq![0x7Du8] + t);
    assert(s.drop_first() =~= r0);
    assert(r0[0] == 0x22 && !is_ws(r0[0]));
    assert(trim_ws(r0) == r0);
    lemma_parse_member(k, vb, v, seq![0x7Du8] + t);
    let r1 = seq![0x7Du8] + t;
    assert(r1[0] == 0x7D && !is_ws(r1[0]));
    assert(trim_ws(r1) == r1);
    assert(r1.drop_first() =~= t);
}

/// A canonical two-member object parses as those two members in order,
/// whatever follows the closing brace.
pub proof fn lemma_parse_obj2(
    k1: Seq<u8>,
    vb1: Seq<u8>,
    v1: JsonValSpec,
    k2: Seq<u8>,
    vb2: Seq<u8>,
    v2: JsonValSpec,
    t: Seq<u8>,
)
    requires
        plain(k1),
        plain(k2),
        parses_to_value(vb1, v1),
        parses_to_value(vb2, v2),
        vb1.len() > 0 && !is_ws(vb1[0]),
        vb2.len() > 0 && !is_ws(vb2[0]),
    ensures
        parse_object(json_obj2(k1, vb1, k2, vb2) + t) == Some::<(FieldsSpec, Seq<u8>)>((
            seq![(k1, v1), (k2, v2)],
            t,
        )),
{
    let s = json_obj2(k1, vb1, k2, vb2) + t;
    assert(s[0] == 0x7B);
    let t1 = seq![0x2Cu8] + json_member(k2, vb2) + seq![0x7Du8] + t;
    let r0 = json_member(k1, vb1) + t1;
    assert(s.drop_first() =~= r0);
    assert(r0[0] == 0x22 && !is_ws(r0[0]));
    assert(trim_ws(r0) == r0);
    lemma_parse_member(k1, vb1, v1, t1);
    assert(t1[0] == 0x2C && !is_ws(t1[0]) && t1[0] != 0x7D);
    assert(trim_ws(t1) == t1);
    let t2 = seq![0x7Du8] + t;
    let r2 = json_member(k2, vb2) + t2;
    assert(t1.drop_first() =~= r2);
    assert(r2[0] == 0x22 && !is_ws(r2[0]));
    assert(trim_ws(r2) == r2);
    lemma_parse_member(k2, vb2, v2, t2);
    assert(t2[0] == 0x7D && !is_ws(t2[0]));
    assert(trim_ws(t2) == t2);
    assert(t2.drop_first() =~= t);
}

/// A canonical one-member object is a complete document.
pub proof fn lemma_parse_doc_obj1(k: Seq<u8>, vb: Seq<u8>, v: JsonValSpec)
    requires
        plain(k),
        parses_to_value(vb, v),
        vb.len() > 0 && !is_ws(vb[0]),
    ensures
        parse_doc(json_obj1(k, vb)) == Some::<FieldsSpec>(seq![(k, v)]),
{
    let d = json_obj1(k, vb);
    assert(d[0] == 0x7B && !is_ws(d[0]));
    assert(trim_ws(d) == d);
    lemma_parse_obj1(k, vb, v, Seq::empty());
    assert(d + Seq::<u8>::empty() =~= d);
    assert(trim_ws(Seq::<u8>::empty()).len() == 0);
}

/// A canonical two-member object is a complete document.
pub proof fn lemma_parse_doc_obj2(
    k1: Seq<u8>,
    vb1: Seq<u8>,
    v1: JsonValSpec,
    k2: Seq<u8>,
    vb2: Seq<u8>,
    v2: JsonValSpec,
)
    requires
        plain(k1),
        plain(k2),
        parses_to_value(vb1, v1),
        parses_to_value(vb2, v2),
        vb1.len() > 0 && !is_ws(vb1[0]),
        vb2.len() > 0 && !is_ws(vb2[0]),
    ensures
        parse_doc(json_obj2(k1, vb1, k2, vb2)) == Some::<FieldsSpec>(seq![(k1, v1), (k2, v2)]),
{
    let d = json_obj2(k1, vb1, k2, vb2);
    assert(d[0] == 0x7B && !is_ws(d[0]));
    assert(trim_ws(d) == d);
    lemma_parse_obj2(k1, vb1, v1, k2, vb2, v2, Seq::empty());
    assert(d + Seq::<u8>::empty() =~= d);
    assert(trim_ws(Seq::<u8>::empty()).len() == 0);
}

/// Facts about the suffix the executable parser is standing on.
proof fn lemma_suffix_step(s: Seq<u8>, i: int)
    requires
        0 <= i < s.len(),
    ensures
        suffix(s, i).len() == s.len() - i,
        suffix(s, i)[0] == s[i],
        suffix(s, i).drop_first() =~= suffix(s, i + 1),
{
}

/// Appends all of `src` to `dst`.
pub fn push_bytes(dst: &mut Vec<u8>, src: &Vec<u8>)
    ensures
        final(dst)@ == old(dst)@ + src@,
{
    let mut k: usize = 0;
    while k < src.len()
        invariant
            k <= src@.len(),
            dst@ == old(dst)@ + src@.subrange(0, k as int),
        decreases src@.len() - k,
    {
        dst.push(src[k]);
        proof {
            assert(dst@ =~= old(dst)@ + src@.subrange(0, k + 1 as int));
        }
        k = k + 1;
    }
    proof {
        assert(src@.subrange(0, src@.len() as int) =~= src@);
    }
}

/// Lower-case hexadecimal digit for a value below 16.
fn hex_digit_exec(v: u8) -> (r: u8)
    requires
        v < 16,
    ensures
        r == hex_digit_of(v),
{
    if v < 10 {
        0x30 + v
    } else {
        0x61 + v - 10
    }
}

/// Numeric value of one hexadecimal digit byte.
fn hex_val_exec(b: u8) -> (r: Option<u8>)
    ensures
        r == hex_digit_val(b),
{
    if 0x30 <= b && b <= 0x39 {
        Some(b - 0x30)
    } else if 0x41 <= b && b <= 0x46 {
        Some(b - 0x41 + 10)
    } else if 0x61 <= b && b <= 0x66 {
        Some(b - 0x61 + 10)
    } else {
        None
    }
}

/// Appending one byte extends the escaped content by that byte's escape.
proof fn lemma_escape_bytes_push(a: Seq<u8>, x: u8)
    ensures
        escape_bytes(a.push(x)) == escape_bytes(a) + escape_byte(x),
    decreases a.len(),
{
    if a.len() == 0 {
        assert(a.push(x)[0] == x);
        assert(a.push(x).drop_first() =~= Seq::<u8>::empty());
        assert(escape_bytes(Seq::<u8>::empty()) =~= Seq::<u8>::empty());
        assert(escape_bytes(a) =~= Seq::<u8>::empty());
        assert(escape_bytes(a.push(x)) =~= escape_byte(x) + escape_bytes(Seq::<u8>::empty()));
        assert(escape_byte(x) + Seq::<u8>::empty() =~= escape_byte(x));
        assert(Seq::<u8>::empty() + escape_byte(x) =~= escape_byte(x));
    } else {
        lemma_escape_bytes_push(a.drop_first(), x);
        assert(a.push(x)[0] == a[0]);
        assert(a.push(x).drop_first() =~= a.drop_first().push(x));
        assert(escape_byte(a[0]) + (escape_bytes(a.drop_first()) + escape_byte(x)) =~= (escape_byte(
            a[0],
        ) + escape_bytes(a.drop_first())) + escape_byte(x));
    }
}

/// Appends a whole JSON string for `content`, escaping as needed.
pub fn push_json_string(out: &mut Vec<u8>, content: &[u8])
    ensures
        final(out)@ == old(out)@ + json_string(content@),
{
    out.push(0x22);
    let mut k: usize = 0;
    while k < content.len()
        invariant
            k <= content@.len(),
            out@ == old(out)@ + seq![0x22u8] + escape_bytes(content@.subrange(0, k as int)),
        decreases content@.len() - k,
    {
        let b = content[k];
        proof {
            assert(content@.subrange(0, k + 1 as int) =~= content@.subrange(0, k as int).push(
                content@[k as int],
            ));
            lemma_escape_bytes_push(content@.subrange(0, k as int), content@[k as int]);
        }
        if b == 0x22 {
            out.push(0x5C);
            out.push(0x22);
        } else if b == 0x5C {
            out.push(0x5C);
            out.push(0x5C);
        } else if b < 0x20 {
            out.push(0x5C);
            out.push(0x75);
            out.push(0x30);
            out.push(0x30);
            out.push(hex_digit_exec(b / 16));
            out.push(hex_digit_exec(b % 16));
        } else {
            out.push(b);
        }
        proof {
            assert(out@ =~= old(out)@ + seq![0x22u8] + escape_bytes(
                content@.subrange(0, k + 1 as int),
            ));
        }
        k = k + 1;
    }
    out.push(0x22);
    proof {
        assert(content@.subrange(0, content@.len() as int) =~= content@);
        assert(out@ =~= old(out)@ + json_string(content@));
    }
}

/// Appends `"content"`, writing the content verbatim.
pub fn push_plain_string(out: &mut Vec<u8>, content: &Vec<u8>)
    requires
        plain(content@),
    ensures
        final(out)@ == old(out)@ + json_string_plain(content@),
{
    out.push(0x22);
    push_bytes(out, content);
    out.push(0x22);
    proof {
        assert(out@ =~= old(out)@ + json_string_plain(content@));
    }
}

/// Appends a boolean literal.
pub fn push_bool(out: &mut Vec<u8>, b: bool)
    ensures
        final(out)@ == old(out)@ + bool_bytes(b),
{
    if b {
        out.push(0x74);
        out.push(0x72);
        out.push(0x75);
        out.push(0x65);
    } else {
        out.push(0x66);
        out.push(0x61);
        out.push(0x6C);
        out.push(0x73);
        out.push(0x65);
    }
    proof {
        assert(out@ =~= old(out)@ + bool_bytes(b));
    }
}

/// Advances past whitespace: afterwards the suffix at the result is the
/// trimmed suffix at `i`.
fn skip_ws_exec(s: &Vec<u8>, i: usize) -> (r: usize)
    requires
        i <= s@.len(),
    ensures
        i <= r <= s@.len(),
        trim_ws(suffix(s@, i as int)) == suffix(s@, r as int),
{
    let mut j = i;
    loop
        invariant
            i <= j <= s@.len(),
            trim_ws(suffix(s@, i as int)) == trim_ws(suffix(s@, j as int)),
        decreases s@.len() - j,
    {
        if j >= s.len() {
            proof {
                assert(suffix(s@, j as int).len() == 0);
            }
            return j;
        }
        proof {
            lemma_suffix_step(s@, j as int);
        }
        let b = s[j];
        if b == 0x20 || b == 0x09 || b == 0x0A || b == 0x0D {
            j = j + 1;
        } else {
            return j;
        }
    }
}

/// Content accumulated so far, prepended to whatever string content is
/// still to be parsed.
pub open spec fn str_body_with_acc(acc: Seq<u8>, s: Seq<u8>) -> Option<(Seq<u8>, Seq<u8>)> {
    match parse_str_body(s) {
        Some((t, r)) => Some((acc + t, r)),
        None => None,
    }
}

/// Folding newly decoded content bytes into the accumulator commutes with
/// parsing the rest of the string.
proof fn lemma_str_acc_extend(acc: Seq<u8>, c: Seq<u8>, big: Seq<u8>, sml: Seq<u8>)
    requires
        parse_str_body(big) == (match parse_str_body(sml) {
            Some((t, r)) => Some::<(Seq<u8>, Seq<u8>)>((c + t, r)),
            None => None::<(Seq<u8>, Seq<u8>)>,
        }),
    ensures
        str_body_with_acc(acc, big) == str_body_with_acc(acc + c, sml),
{
    match parse_str_body(sml) {
        Some((t, r)) => {
            assert(acc + (c + t) =~= (acc + c) + t);
        },
        None => {},
    }
}

/// The UTF-8 encoding of one scalar.
fn encode_scalar_exec(code: u32) -> (r: Vec<u8>)
    requires
        is_scalar(code),
    ensures
        r@ == encode_scalar(code),
{
    if code <= 0x7F {
        let r = vec![(code & 0x7F) as u8];
        proof {
            assert(r@ =~= encode_scalar(code));
        }
        r
    } else if code <= 0x7FF {
        let r = vec![0xC0u8 | ((code >> 6) & 0x1F) as u8, 0x80u8 | (code & 0x3F) as u8];
        proof {
            assert(r@ =~= encode_scalar(code));
        }
        r
    } else if code <= 0xFFFF {
        let r = vec![
            0xE0u8 | ((code >> 12) & 0x0F) as u8,
            0x80u8 | ((code >> 6) & 0x3F) as u8,
            0x80u8 | (code & 0x3F) as u8,
        ];
        proof {
            assert(r@ =~= encode_scalar(code));
        }
        r
    } else {
        let r = vec![
            0xF0u8 | ((code >> 18) & 0x7) as u8,
            0x80u8 | ((code >> 12) & 0x3F) as u8,
            0x80u8 | ((code >> 6) & 0x3F) as u8,
            0x80u8 | (code & 0x3F) as u8,
        ];
        proof {
            assert(r@ =~= encode_scalar(code));
        }
        r
    }
}

/// Decodes one escape, entered just after the backslash.
fn parse_escape_exec(s: &Vec<u8>, i: usize) -> (r: Option<(Vec<u8>, usize)>)
    requires
        i <= s@.len(),
    ensures
        match r {
            Some((c, j)) => i <= j <= s@.len() && parse_escape(suffix(s@, i as int)) == Some::<
                (Seq<u8>, Seq<u8>),
            >((c@, suffix(s@, j as int))),
            None => parse_escape(suffix(s@, i as int)) is None,
        },
{
    if i >= s.len() {
        return None;
    }
    proof {
        lemma_suffix_step(s@, i as int);
    }
    let b = s[i];
    if b == 0x22 {
        Some((vec![0x22u8], i + 1))
    } else if b == 0x5C {
        Some((vec![0x5Cu8], i + 1))
    } else if b == 0x2F {
        Some((vec![0x2Fu8], i + 1))
    } else if b == 0x62 {
        Some((vec![0x08u8], i + 1))
    } else if b == 0x66 {
        Some((vec![0x0Cu8], i + 1))
    } else if b == 0x6E {
        Some((vec![0x0Au8], i + 1))
    } else if b == 0x72 {
        Some((vec![0x0Du8], i + 1))
    } else if b == 0x74 {
        Some((vec![0x09u8], i + 1))
    } else if b == 0x75 {
        if s.len() - i >= 5 {
            proof {
                assert(suffix(s@, i as int)[1] == s@[i + 1]);
                assert(suffix(s@, i as int)[2] == s@[i + 2]);
                assert(suffix(s@, i as int)[3] == s@[i + 3]);
                assert(suffix(s@, i as int)[4] == s@[i + 4]);
            }
            let h1 = hex_val_exec(s[i + 1]);
            let h2 = hex_val_exec(s[i + 2]);
            let h3 = hex_val_exec(s[i + 3]);
            let h4 = hex_val_exec(s[i + 4]);
            match (h1, h2, h3, h4) {
                (Some(a), Some(bb), Some(c), Some(d)) => {
                    let code: u32 = 4096 * (a as u32) + 256 * (bb as u32) + 16 * (c as u32) + (
                    d as u32);
                    if code < 0xD800 || code > 0xDFFF {
                        proof {
                            assert(suffix(s@, i as int).skip(5) =~= suffix(s@, i + 5 as int));
                            assert(is_scalar(code));
                        }
                        Some((encode_scalar_exec(code), i + 5))
                    } else if code <= 0xDBFF {
                        proof {
                            assert(!is_scalar(code));
                        }
                        if s.len() - i >= 11 && s[i + 5] == 0x5C && s[i + 6] == 0x75 {
                            proof {
                                assert(suffix(s@, i as int)[5] == s@[i + 5]);
                                assert(suffix(s@, i as int)[6] == s@[i + 6]);
                                assert(suffix(s@, i as int)[7] == s@[i + 7]);
                                assert(suffix(s@, i as int)[8] == s@[i + 8]);
                                assert(suffix(s@, i as int)[9] == s@[i + 9]);
                                assert(suffix(s@, i as int)[10] == s@[i + 10]);
                            }
                            let h5 = hex_val_exec(s[i + 7]);
                            let h6 = hex_val_exec(s[i + 8]);
                            let h7 = hex_val_exec(s[i + 9]);
                            let h8 = hex_val_exec(s[i + 10]);
                            match (h5, h6, h7, h8) {
                                (Some(e), Some(f), Some(g), Some(h)) => {
                                    let lo: u32 = 4096 * (e as u32) + 256 * (f as u32) + 16 * (
                                    g as u32) + (h as u32);
                                    if 0xDC00 <= lo && lo <= 0xDFFF {
                                        let scalar: u32 = 0x10000 + 0x400 * (code - 0xD800) + (lo
                                            - 0xDC00);
                                        proof {
                                            assert(is_scalar(scalar));
                                            assert(suffix(s@, i as int).skip(11) =~= suffix(
                                                s@,
                                                i + 11 as int,
                                            ));
                                        }
                                        Some((encode_scalar_exec(scalar), i + 11))
                                    } else {
                                        None
                                    }
                                },
                                _ => None,
                            }
                        } else {
                            None
                        }
                    } else {
                        proof {
                            assert(!is_scalar(code));
                        }
                        None
                    }
                },
                _ => None,
            }
        } else {
            None
        }
    } else {
        None
    }
}

/// Parses string content, entered just after the opening quote.
fn parse_str_body_exec(s: &Vec<u8>, i: usize) -> (r: Option<(Vec<u8>, usize)>)
    requires
        i <= s@.len(),
    ensures
        match r {
            Some((c, j)) => i <= j <= s@.len() && parse_str_body(suffix(s@, i as int)) == Some::<
                (Seq<u8>, Seq<u8>),
            >((c@, suffix(s@, j as int))),
            None => parse_str_body(suffix(s@, i as int)) is None,
        },
{
    let ghost s0 = suffix(s@, i as int);
    let mut acc: Vec<u8> = Vec::new();
    let mut j: usize = i;
    loop
        invariant
            i <= j <= s@.len(),
            s0 == suffix(s@, i as int),
            str_body_with_acc(acc@, suffix(s@, j as int)) == parse_str_body(s0),
        decreases s@.len() - j,
    {
        if j >= s.len() {
            proof {
                assert(suffix(s@, j as int).len() == 0);
            }
            return None;
        }
        proof {
            lemma_suffix_step(s@, j as int);
        }
        let b = s[j];
        if b == 0x22 {
            proof {
                assert(acc@ + Seq::<u8>::empty() =~= acc@);
            }
            return Some((acc, j + 1));
        } else if b == 0x5C {
            match parse_escape_exec(s, j + 1) {
                Some((c, j2)) => {
                    proof {
                        lemma_str_acc_extend(acc@, c@, suffix(s@, j as int), suffix(s@, j2 as int));
                    }
                    push_bytes(&mut acc, &c);
                    j = j2;
                },
                None => {
                    return None;
                },
            }
        } else if b < 0x20 {
            return None;
        } else {
            proof {
                lemma_str_acc_extend(
                    acc@,
                    seq![b],
                    suffix(s@, j as int),
                    suffix(s@, j + 1 as int),
                );
                assert(acc@ + seq![b] =~= acc@.push(b));
            }
            acc.push(b);
            j = j + 1;
        }
    }
}

/// Parses a boolean literal.
fn parse_bool_exec(s: &Vec<u8>, i: usize) -> (r: Option<(bool, usize)>)
    requires
        i <= s@.len(),
    ensures
        match r {
            Some((b, j)) => i <= j <= s@.len() && parse_bool(suffix(s@, i as int)) == Some::<
                (bool, Seq<u8>),
            >((b, suffix(s@, j as int))),
            None => parse_bool(suffix(s@, i as int)) is None,
        },
{
    let n = s.len();
    proof {
        let sf = suffix(s@, i as int);
        assert forall|k: int| 0 <= k < sf.len() implies sf[k] == s@[i + k] by {}
    }
    if n - i >= 4 && s[i] == 0x74 && s[i + 1] == 0x72 && s[i + 2] == 0x75 && s[i + 3] == 0x65 {
        proof {
            assert(suffix(s@, i as int).skip(4) =~= suffix(s@, i + 4 as int));
        }
        Some((true, i + 4))
    } else if n - i >= 5 && s[i] == 0x66 && s[i + 1] == 0x61 && s[i + 2] == 0x6C && s[i + 3] == 0x73
        && s[i + 4] == 0x65 {
        proof {
            assert(suffix(s@, i as int).skip(5) =~= suffix(s@, i + 5 as int));
        }
        Some((false, i + 5))
    } else {
        None
    }
}

/// Parses one value: a string or a boolean.
fn parse_value_exec(s: &Vec<u8>, i: usize) -> (r: Option<(JsonVal, usize)>)
    requires
        i <= s@.len(),
    ensures
        match r {
            Some((v, j)) => i <= j <= s@.len() && parse_value(suffix(s@, i as int)) == Some::<
                (JsonValSpec, Seq<u8>),
            >((v@, suffix(s@, j as int))),
            None => parse_value(suffix(s@, i as int)) is None,
        },
{
    if i < s.len() && s[i] == 0x22 {
        proof {
            lemma_suffix_step(s@, i as int);
        }
        match parse_str_body_exec(s, i + 1) {
            Some((c, j)) => Some((JsonVal::S(c), j)),
            None => None,
        }
    } else {
        proof {
            if (i as int) < s@.len() {
                lemma_suffix_step(s@, i as int);
            }
        }
        match parse_bool_exec(s, i) {
            Some((b, j)) => Some((JsonVal::B(b), j)),
            None => None,
        }
    }
}

/// Parses one `"key" : value` member, entered past leading whitespace.
fn parse_member_exec(s: &Vec<u8>, i: usize) -> (r: Option<((Vec<u8>, JsonVal), usize)>)
    requires
        i <= s@.len(),
    ensures
        match r {
            Some((m, j)) => i <= j <= s@.len() && parse_member(suffix(s@, i as int)) == Some::<
                ((Seq<u8>, JsonValSpec), Seq<u8>),
            >(((m.0@, m.1@), suffix(s@, j as int))),
            None => parse_member(suffix(s@, i as int)) is None,
        },
{
    if i < s.len() && s[i] == 0x22 {
        proof {
            lemma_suffix_step(s@, i as int);
        }
        match parse_str_body_exec(s, i + 1) {
            Some((k, j1)) => {
                let j2 = skip_ws_exec(s, j1);
                if j2 < s.len() && s[j2] == 0x3A {
                    proof {
                        lemma_suffix_step(s@, j2 as int);
                    }
                    let j3 = skip_ws_exec(s, j2 + 1);
                    match parse_value_exec(s, j3) {
                        Some((v, j4)) => Some(((k, v), j4)),
                        None => None,
                    }
                } else {
                    proof {
                        if (j2 as int) < s@.len() {
                            lemma_suffix_step(s@, j2 as int);
                        }
                    }
                    None
                }
            },
            None => None,
        }
    } else {
        proof {
            if (i as int) < s@.len() {
                lemma_suffix_step(s@, i as int);
            }
        }
        None
    }
}

/// Parses a whole document into its member list.
#[verifier::rlimit(100)]
pub fn parse_json(body: &Vec<u8>) -> (r: Option<Vec<(Vec<u8>, JsonVal)>>)
    ensures
        match r {
            Some(fs) => parse_doc(body@) == Some(fields_view(fs@)) && fs@.len() <= 2,
            None => parse_doc(body@) is None,
        },
{
    proof {
        assert(suffix(body@, 0) =~= body@);
    }
    let i0 = skip_ws_exec(body, 0);
    if !(i0 < body.len() && body[i0] == 0x7B) {
        proof {
            if (i0 as int) < body@.len() {
                lemma_suffix_step(body@, i0 as int);
            }
        }
        return None;
    }
    proof {
        lemma_suffix_step(body@, i0 as int);
    }
    let i1 = skip_ws_exec(body, i0 + 1);
    let mut fields: Vec<(Vec<u8>, JsonVal)> = Vec::new();
    if i1 < body.len() && body[i1] == 0x7D {
        proof {
            lemma_suffix_step(body@, i1 as int);
        }
        let i2 = skip_ws_exec(body, i1 + 1);
        if i2 == body.len() {
            proof {
                assert(fields_view(fields@) =~= Seq::<(Seq<u8>, JsonValSpec)>::empty());
            }
            return Some(fields);
        } else {
            return None;
        }
    }
    proof {
        if (i1 as int) < body@.len() {
            lemma_suffix_step(body@, i1 as int);
        }
    }
    let (m1, j1) = match parse_member_exec(body, i1) {
        Some(m) => m,
        None => {
            return None;
        },
    };
    let ghost gm1 = (m1.0@, m1.1@);
    let j2 = skip_ws_exec(body, j1);
    if j2 < body.len() && body[j2] == 0x7D {
        proof {
            lemma_suffix_step(body@, j2 as int);
        }
        let j3 = skip_ws_exec(body, j2 + 1);
        fields.push(m1);
        if j3 == body.len() {
            proof {
                assert(fields_view(fields@) =~= seq![gm1]);
            }
            return Some(fields);
        } else {
            return None;
        }
    }
    if j2 < body.len() && body[j2] == 0x2C {
        proof {
            lemma_suffix_step(body@, j2 as int);
        }
        let j3 = skip_ws_exec(body, j2 + 1);
        let (m2, j4) = match parse_member_exec(body, j3) {
            Some(m) => m,
            None => {
                return None;
            },
        };
        let ghost gm2 = (m2.0@, m2.1@);
        let j5 = skip_ws_exec(body, j4);
        if j5 < body.len() && body[j5] == 0x7D {
            proof {
                lemma_suffix_step(body@, j5 as int);
            }
            let j6 = skip_ws_exec(body, j5 + 1);
            fields.push(m1);
            fields.push(m2);
            if j6 == body.len() {
                proof {
                    assert(fields_view(fields@) =~= seq![gm1, gm2]);
                }
                return Some(fields);
            } else {
                return None;
            }
        } else {
            proof {
                if (j5 as int) < body@.len() {
                    lemma_suffix_step(body@, j5 as int);
                }
            }
            return None;
        }
    }
    proof {
        if (j2 as int) < body@.len() {
            lemma_suffix_step(body@, j2 as int);
        }
    }
    None
}

} // verus!
