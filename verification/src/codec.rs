//! Encoding and decoding of the four wire vocabularies as JSON documents.
//!
//! Every message is a flat object with a `type` tag: browser-inbound
//! `init`/`navigation`, browser-outbound `ack`, daemon-inbound `heartbeat`,
//! and daemon-outbound `heartbeat`/`navigation`. Unknown tags, missing or
//! extra members, and malformed bodies are all a [`ParseError`].

use vstd::prelude::*;

verus! {

use vstd::utf8::decode_utf8;
use vstd::utf8::encode_utf8;
use vstd::utf8::encode_utf8_decode_utf8;
use vstd::utf8::encode_utf8_valid_utf8;
use vstd::utf8::valid_utf8;

use crate::json::FieldsSpec;
use crate::json::JsonVal;
use crate::json::JsonValSpec;
use crate::json::bool_bytes;
use crate::json::fields_view;
use crate::json::json_obj1;
use crate::json::json_obj2;
use crate::json::json_string;
use crate::json::json_string_plain;
use crate::json::lemma_bool_parses_to;
use crate::json::lemma_parse_doc_obj1;
use crate::json::lemma_parse_doc_obj2;
use crate::json::lemma_plain_string_parses_to;
use crate::json::lemma_string_parses_to;
use crate::json::parse_doc;
use crate::json::parse_json;
use crate::json::plain;
use crate::json::plain_byte;
use crate::json::push_bool;
use crate::json::push_json_string;
use crate::json::push_plain_string;
use crate::models::AdvisorMsg;
use crate::models::AdvisorMsgSpec;
use crate::models::OverwatchMsg;
use crate::models::ParseError;
use crate::models::RxBrowserMsg;
use crate::models::RxBrowserMsgSpec;
use crate::models::TxBrowserMsg;

/// The member key `type`.
pub open spec fn key_type() -> Seq<u8> {
    seq![0x74u8, 0x79u8, 0x70u8, 0x65u8]
}

/// The member key `incognito`.
pub open spec fn key_incognito() -> Seq<u8> {
    seq![0x69u8, 0x6Eu8, 0x63u8, 0x6Fu8, 0x67u8, 0x6Eu8, 0x69u8, 0x74u8, 0x6Fu8]
}

/// The member key `url`.
pub open spec fn key_url() -> Seq<u8> {
    seq![0x75u8, 0x72u8, 0x6Cu8]
}

/// The tag `init`.
pub open spec fn tag_init() -> Seq<u8> {
    seq![0x69u8, 0x6Eu8, 0x69u8, 0x74u8]
}

/// The tag `navigation`.
pub open spec fn tag_navigation() -> Seq<u8> {
    seq![0x6Eu8, 0x61u8, 0x76u8, 0x69u8, 0x67u8, 0x61u8, 0x74u8, 0x69u8, 0x6Fu8, 0x6Eu8]
}

/// The tag `ack`.
pub open spec fn tag_ack() -> Seq<u8> {
    seq![0x61u8, 0x63u8, 0x6Bu8]
}

/// The tag `heartbeat`.
pub open spec fn tag_heartbeat() -> Seq<u8> {
    seq![0x68u8, 0x65u8, 0x61u8, 0x72u8, 0x74u8, 0x62u8, 0x65u8, 0x61u8, 0x74u8]
}

/// All keys and tags are written without escapes, and no two tags are the
/// same word.
pub proof fn lemma_vocab_plain()
    ensures
        plain(key_type()),
        plain(key_incognito()),
        plain(key_url()),
        plain(tag_init()),
        plain(tag_navigation()),
        plain(tag_ack()),
        plain(tag_heartbeat()),
        key_type().len() == 4,
        key_incognito().len() == 9,
        key_url().len() == 3,
        tag_init().len() == 4,
        tag_navigation().len() == 10,
        tag_ack().len() == 3,
        tag_heartbeat().len() == 9,
{
    assert forall|i: int| 0 <= i < key_type().len() implies plain_byte(key_type()[i]) by {}
    assert forall|i: int| 0 <= i < key_incognito().len() implies plain_byte(
        key_incognito()[i],
    ) by {}
    assert forall|i: int| 0 <= i < key_url().len() implies plain_byte(key_url()[i]) by {}
    assert forall|i: int| 0 <= i < tag_init().len() implies plain_byte(tag_init()[i]) by {}
    assert forall|i: int| 0 <= i < tag_navigation().len() implies plain_byte(
        tag_navigation()[i],
    ) by {}
    assert forall|i: int| 0 <= i < tag_ack().len() implies plain_byte(tag_ack()[i]) by {}
    assert forall|i: int| 0 <= i < tag_heartbeat().len() implies plain_byte(
        tag_heartbeat()[i],
    ) by {}
}

/// The browser-inbound message named by a tag value and the remaining
/// member.
pub open spec fn rx_of_tagged(tag: JsonValSpec, f: (Seq<u8>, JsonValSpec)) -> Option<
    RxBrowserMsgSpec,
> {
    match tag {
        JsonValSpec::S(tb) => {
            if tb == tag_init() && f.0 == key_incognito() {
                match f.1 {
                    JsonValSpec::B(b) => Some(RxBrowserMsgSpec::Init { incognito: b }),
                    JsonValSpec::S(_) => None,
                }
            } else if tb == tag_navigation() && f.0 == key_url() {
                match f.1 {
                    JsonValSpec::S(ub) => if valid_utf8(ub) {
                        Some(RxBrowserMsgSpec::Navigation { url: decode_utf8(ub) })
                    } else {
                        None
                    },
                    JsonValSpec::B(_) => None,
                }
            } else {
                None
            }
        },
        JsonValSpec::B(_) => None,
    }
}

/// The browser-inbound message denoted by a member list.
pub open spec fn rx_of_fields(fs: FieldsSpec) -> Option<RxBrowserMsgSpec> {
    if fs.len() == 2 {
        if fs[0].0 == key_type() {
            rx_of_tagged(fs[0].1, fs[1])
        } else if fs[1].0 == key_type() {
            rx_of_tagged(fs[1].1, fs[0])
        } else {
            None
        }
    } else {
        None
    }
}

/// The browser-inbound message denoted by a frame body, if any.
pub open spec fn rx_decoded(body: Seq<u8>) -> Option<RxBrowserMsgSpec> {
    match parse_doc(body) {
        Some(fs) => rx_of_fields(fs),
        None => None,
    }
}

/// The daemon-outbound message named by a tag value and the remaining
/// member.
pub open spec fn adv_of_tagged(tag: JsonValSpec, f: (Seq<u8>, JsonValSpec)) -> Option<
    AdvisorMsgSpec,
> {
    match tag {
        JsonValSpec::S(tb) => {
            if tb == tag_heartbeat() && f.0 == key_incognito() {
                match f.1 {
                    JsonValSpec::B(b) => Some(AdvisorMsgSpec::Heartbeat { incognito: b }),
                    JsonValSpec::S(_) => None,
                }
            } else if tb == tag_navigation() && f.0 == key_url() {
                match f.1 {
                    JsonValSpec::S(ub) => if valid_utf8(ub) {
                        Some(AdvisorMsgSpec::Navigation { url: decode_utf8(ub) })
                    } else {
                        None
                    },
                    JsonValSpec::B(_) => None,
                }
            } else {
                None
            }
        },
        JsonValSpec::B(_) => None,
    }
}

/// The daemon-outbound message denoted by a member list.
pub open spec fn adv_of_fields(fs: FieldsSpec) -> Option<AdvisorMsgSpec> {
    if fs.len() == 2 {
        if fs[0].0 == key_type() {
            adv_of_tagged(fs[0].1, fs[1])
        } else if fs[1].0 == key_type() {
            adv_of_tagged(fs[1].1, fs[0])
        } else {
            None
        }
    } else {
        None
    }
}

/// The daemon-outbound message denoted by a frame body, if any.
pub open spec fn adv_decoded(body: Seq<u8>) -> Option<AdvisorMsgSpec> {
    match parse_doc(body) {
        Some(fs) => adv_of_fields(fs),
        None => None,
    }
}

/// The browser-outbound message denoted by a member list.
pub open spec fn tx_of_fields(fs: FieldsSpec) -> Option<TxBrowserMsg> {
    if fs.len() == 1 && fs[0].0 == key_type() && fs[0].1 == JsonValSpec::S(tag_ack()) {
        Some(TxBrowserMsg::Ack {  })
    } else {
        None
    }
}

/// The browser-outbound message denoted by a frame body, if any.
pub open spec fn tx_decoded(body: Seq<u8>) -> Option<TxBrowserMsg> {
    match parse_doc(body) {
        Some(fs) => tx_of_fields(fs),
        None => None,
    }
}

/// The daemon-inbound message denoted by a member list.
pub open spec fn ow_of_fields(fs: FieldsSpec) -> Option<OverwatchMsg> {
    if fs.len() == 1 && fs[0].0 == key_type() && fs[0].1 == JsonValSpec::S(tag_heartbeat()) {
        Some(OverwatchMsg::Heartbeat {  })
    } else {
        None
    }
}

/// The daemon-inbound message denoted by a frame body, if any.
pub open spec fn ow_decoded(body: Seq<u8>) -> Option<OverwatchMsg> {
    match parse_doc(body) {
        Some(fs) => ow_of_fields(fs),
        None => None,
    }
}

/// The canonical body this library writes for a browser-inbound message.
pub open spec fn rx_json(m: RxBrowserMsgSpec) -> Seq<u8> {
    match m {
        RxBrowserMsgSpec::Init { incognito } => json_obj2(
            key_type(),
            json_string_plain(tag_init()),
            key_incognito(),
            bool_bytes(incognito),
        ),
        RxBrowserMsgSpec::Navigation { url } => json_obj2(
            key_type(),
            json_string_plain(tag_navigation()),
            key_url(),
            json_string(encode_utf8(url)),
        ),
    }
}

/// The canonical body of the acknowledgement message.
pub open spec fn tx_json(m: TxBrowserMsg) -> Seq<u8> {
    json_obj1(key_type(), json_string_plain(tag_ack()))
}

/// The canonical body of the daemon heartbeat query.
pub open spec fn ow_json(m: OverwatchMsg) -> Seq<u8> {
    json_obj1(key_type(), json_string_plain(tag_heartbeat()))
}

/// The canonical body this library writes for a daemon-outbound message.
pub open spec fn adv_json(m: AdvisorMsgSpec) -> Seq<u8> {
    match m {
        AdvisorMsgSpec::Heartbeat { incognito } => json_obj2(
            key_type(),
            json_string_plain(tag_heartbeat()),
            key_incognito(),
            bool_bytes(incognito),
        ),
        AdvisorMsgSpec::Navigation { url } => json_obj2(
            key_type(),
            json_string_plain(tag_navigation()),
            key_url(),
            json_string(encode_utf8(url)),
        ),
    }
}

/// Relies on `String::from_utf8`: returns the string whose UTF-8 encoding
/// is exactly the given bytes, and an error exactly when the bytes are not
/// valid UTF-8.
#[verifier::external_body]
fn bytes_to_string(bytes: Vec<u8>) -> (r: Result<String, ParseError>)
    ensures
        match r {
            Ok(s) => valid_utf8(bytes@) && s@ == decode_utf8(bytes@),
            Err(e) => !valid_utf8(bytes@) && e == ParseError,
        },
{
    match String::from_utf8(bytes) {
        Ok(s) => Ok(s),
        Err(_) => Err(ParseError),
    }
}

/// The member key `type` as bytes.
fn kw_type() -> (r: Vec<u8>)
    ensures
        r@ == key_type(),
{
    let r = vec![0x74u8, 0x79u8, 0x70u8, 0x65u8];
    proof {
        assert(r@ =~= key_type());
    }
    r
}

/// The member key `incognito` as bytes.
fn kw_incognito() -> (r: Vec<u8>)
    ensures
        r@ == key_incognito(),
{
    let r = vec![0x69u8, 0x6Eu8, 0x63u8, 0x6Fu8, 0x67u8, 0x6Eu8, 0x69u8, 0x74u8, 0x6Fu8];
    proof {
        assert(r@ =~= key_incognito());
    }
    r
}

/// The member key `url` as bytes.
fn kw_url() -> (r: Vec<u8>)
    ensures
        r@ == key_url(),
{
    let r = vec![0x75u8, 0x72u8, 0x6Cu8];
    proof {
        assert(r@ =~= key_url());
    }
    r
}

/// The tag `init` as bytes.
fn kw_init() -> (r: Vec<u8>)
    ensures
        r@ == tag_init(),
{
    let r = vec![0x69u8, 0x6Eu8, 0x69u8, 0x74u8];
    proof {
        assert(r@ =~= tag_init());
    }
    r
}

/// The tag `navigation` as bytes.
fn kw_navigation() -> (r: Vec<u8>)
    ensures
        r@ == tag_navigation(),
{
    let r = vec![0x6Eu8, 0x61u8, 0x76u8, 0x69u8, 0x67u8, 0x61u8, 0x74u8, 0x69u8, 0x6Fu8, 0x6Eu8];
    proof {
        assert(r@ =~= tag_navigation());
    }
    r
}

/// The tag `ack` as bytes.
fn kw_ack() -> (r: Vec<u8>)
    ensures
        r@ == tag_ack(),
{
    let r = vec![0x61u8, 0x63u8, 0x6Bu8];
    proof {
        assert(r@ =~= tag_ack());
    }
    r
}

/// The tag `heartbeat` as bytes.
fn kw_heartbeat() -> (r: Vec<u8>)
    ensures
        r@ == tag_heartbeat(),
{
    let r = vec![0x68u8, 0x65u8, 0x61u8, 0x72u8, 0x74u8, 0x62u8, 0x65u8, 0x61u8, 0x74u8];
    proof {
        assert(r@ =~= tag_heartbeat());
    }
    r
}

/// Byte-wise equality of two buffers.
fn bytes_eq(a: &Vec<u8>, b: &Vec<u8>) -> (r: bool)
    ensures
        r == (a@ == b@),
{
    if a.len() != b.len() {
        return false;
    }
    let mut i: usize = 0;
    while i < a.len()
        invariant
            i <= a@.len(),
            a@.len() == b@.len(),
            forall|k: int| 0 <= k < i ==> a@[k] == b@[k],
        decreases a@.len() - i,
    {
        if a[i] != b[i] {
            return false;
        }
        i = i + 1;
    }
    proof {
        assert(a@ =~= b@);
    }
    true
}

/// Decodes a browser-inbound frame body.
pub fn decode_rx(body: &Vec<u8>) -> (r: Result<RxBrowserMsg, ParseError>)
    ensures
        match r {
            Ok(m) => rx_decoded(body@) == Some(m@),
            Err(e) => rx_decoded(body@) is None && e == ParseError,
        },
{
    proof {
        lemma_vocab_plain();
    }
    let mut fields = match parse_json(body) {
        Some(fs) => fs,
        None => {
            return Err(ParseError);
        },
    };
    let ghost gfs = fields_view(fields@);
    if fields.len() != 2 {
        return Err(ParseError);
    }
    let (k1, v1) = fields.pop().unwrap();
    let (k0, v0) = fields.pop().unwrap();
    proof {
        assert(gfs[0] == (k0@, v0@));
        assert(gfs[1] == (k1@, v1@));
    }
    let tkw = kw_type();
    let k0_is_type = bytes_eq(&k0, &tkw);
    let k1_is_type = bytes_eq(&k1, &tkw);
    let (tagv, fk, fv) = if k0_is_type {
        (v0, k1, v1)
    } else if k1_is_type {
        (v1, k0, v0)
    } else {
        return Err(ParseError);
    };
    let ghost gf = if k0_is_type {
        gfs[1]
    } else {
        gfs[0]
    };
    let tag = match tagv {
        JsonVal::S(tb) => tb,
        JsonVal::B(_) => {
            return Err(ParseError);
        },
    };
    if bytes_eq(&tag, &kw_init()) {
        if bytes_eq(&fk, &kw_incognito()) {
            match fv {
                JsonVal::B(b) => Ok(RxBrowserMsg::Init { incognito: b }),
                JsonVal::S(_) => Err(ParseError),
            }
        } else {
            Err(ParseError)
        }
    } else if bytes_eq(&tag, &kw_navigation()) {
        if bytes_eq(&fk, &kw_url()) {
            match fv {
                JsonVal::S(ub) => {
                    let ghost gub = ub@;
                    match bytes_to_string(ub) {
                        Ok(s) => Ok(RxBrowserMsg::Navigation { url: s }),
                        Err(_) => Err(ParseError),
                    }
                },
                JsonVal::B(_) => Err(ParseError),
            }
        } else {
            Err(ParseError)
        }
    } else {
        Err(ParseError)
    }
}

/// Decodes a daemon-outbound frame body.
pub fn decode_adv(body: &Vec<u8>) -> (r: Result<AdvisorMsg, ParseError>)
    ensures
        match r {
            Ok(m) => adv_decoded(body@) == Some(m@),
            Err(e) => adv_decoded(body@) is None && e == ParseError,
        },
{
    proof {
        lemma_vocab_plain();
    }
    let mut fields = match parse_json(body) {
        Some(fs) => fs,
        None => {
            return Err(ParseError);
        },
    };
    let ghost gfs = fields_view(fields@);
    if fields.len() != 2 {
        return Err(ParseError);
    }
    let (k1, v1) = fields.pop().unwrap();
    let (k0, v0) = fields.pop().unwrap();
    proof {
        assert(gfs[0] == (k0@, v0@));
        assert(gfs[1] == (k1@, v1@));
    }
    let tkw = kw_type();
    let k0_is_type = bytes_eq(&k0, &tkw);
    let k1_is_type = bytes_eq(&k1, &tkw);
    let (tagv, fk, fv) = if k0_is_type {
        (v0, k1, v1)
    } else if k1_is_type {
        (v1, k0, v0)
    } else {
        return Err(ParseError);
    };
    let tag = match tagv {
        JsonVal::S(tb) => tb,
        JsonVal::B(_) => {
            return Err(ParseError);
        },
    };
    if bytes_eq(&tag, &kw_heartbeat()) {
        if bytes_eq(&fk, &kw_incognito()) {
            match fv {
                JsonVal::B(b) => Ok(AdvisorMsg::Heartbeat { incognito: b }),
                JsonVal::S(_) => Err(ParseError),
            }
        } else {
            Err(ParseError)
        }
    } else if bytes_eq(&tag, &kw_navigation()) {
        if bytes_eq(&fk, &kw_url()) {
            match fv {
                JsonVal::S(ub) => {
                    match bytes_to_string(ub) {
                        Ok(s) => Ok(AdvisorMsg::Navigation { url: s }),
                        Err(_) => Err(ParseError),
                    }
                },
                JsonVal::B(_) => Err(ParseError),
            }
        } else {
            Err(ParseError)
        }
    } else {
        Err(ParseError)
    }
}

/// Decodes a browser-outbound frame body.
pub fn decode_tx(body: &Vec<u8>) -> (r: Result<TxBrowserMsg, ParseError>)
    ensures
        match r {
            Ok(m) => tx_decoded(body@) == Some(m),
            Err(e) => tx_decoded(body@) is None && e == ParseError,
        },
{
    proof {
        lemma_vocab_plain();
    }
    let mut fields = match parse_json(body) {
        Some(fs) => fs,
        None => {
            return Err(ParseError);
        },
    };
    let ghost gfs = fields_view(fields@);
    if fields.len() != 1 {
        return Err(ParseError);
    }
    let (k0, v0) = fields.pop().unwrap();
    proof {
        assert(gfs[0] == (k0@, v0@));
    }
    if !bytes_eq(&k0, &kw_type()) {
        return Err(ParseError);
    }
    match v0 {
        JsonVal::S(tb) => {
            if bytes_eq(&tb, &kw_ack()) {
                Ok(TxBrowserMsg::Ack {  })
            } else {
                Err(ParseError)
            }
        },
        JsonVal::B(_) => Err(ParseError),
    }
}

/// Decodes a daemon-inbound frame body.
pub fn decode_ow(body: &Vec<u8>) -> (r: Result<OverwatchMsg, ParseError>)
    ensures
        match r {
            Ok(m) => ow_decoded(body@) == Some(m),
            Err(e) => ow_decoded(body@) is None && e == ParseError,
        },
{
    proof {
        lemma_vocab_plain();
    }
    let mut fields = match parse_json(body) {
        Some(fs) => fs,
        None => {
            return Err(ParseError);
        },
    };
    let ghost gfs = fields_view(fields@);
    if fields.len() != 1 {
        return Err(ParseError);
    }
    let (k0, v0) = fields.pop().unwrap();
    proof {
        assert(gfs[0] == (k0@, v0@));
    }
    if !bytes_eq(&k0, &kw_type()) {
        return Err(ParseError);
    }
    match v0 {
        JsonVal::S(tb) => {
            if bytes_eq(&tb, &kw_heartbeat()) {
                Ok(OverwatchMsg::Heartbeat {  })
            } else {
                Err(ParseError)
            }
        },
        JsonVal::B(_) => Err(ParseError),
    }
}

/// Encodes a browser-inbound message as its canonical body.
pub fn encode_rx(m: &RxBrowserMsg) -> (r: Vec<u8>)
    ensures
        r@ == rx_json(m@),
{
    proof {
        lemma_vocab_plain();
    }
    let mut out: Vec<u8> = Vec::new();
    out.push(0x7B);
    match m {
        RxBrowserMsg::Init { incognito } => {
            let tk = kw_type();
            let tag = kw_init();
            let ik = kw_incognito();
            push_plain_string(&mut out, &tk);
            out.push(0x3A);
            push_plain_string(&mut out, &tag);
            out.push(0x2C);
            push_plain_string(&mut out, &ik);
            out.push(0x3A);
            push_bool(&mut out, *incognito);
            out.push(0x7D);
            proof {
                assert(out@ =~= rx_json(m@));
            }
        },
        RxBrowserMsg::Navigation { url } => {
            let tk = kw_type();
            let tag = kw_navigation();
            let uk = kw_url();
            push_plain_string(&mut out, &tk);
            out.push(0x3A);
            push_plain_string(&mut out, &tag);
            out.push(0x2C);
            push_plain_string(&mut out, &uk);
            out.push(0x3A);
            push_json_string(&mut out, url.as_str().as_bytes());
            out.push(0x7D);
            proof {
                assert(out@ =~= rx_json(m@));
            }
        },
    }
    out
}

/// Encodes the acknowledgement message as its canonical body.
pub fn encode_tx(m: &TxBrowserMsg) -> (r: Vec<u8>)
    ensures
        r@ == tx_json(*m),
{
    proof {
        lemma_vocab_plain();
    }
    let mut out: Vec<u8> = Vec::new();
    out.push(0x7B);
    let tk = kw_type();
    let tag = kw_ack();
    push_plain_string(&mut out, &tk);
    out.push(0x3A);
    push_plain_string(&mut out, &tag);
    out.push(0x7D);
    proof {
        assert(out@ =~= tx_json(*m));
    }
    out
}

/// Encodes the daemon heartbeat query as its canonical body.
pub fn encode_ow(m: &OverwatchMsg) -> (r: Vec<u8>)
    ensures
        r@ == ow_json(*m),
{
    proof {
        lemma_vocab_plain();
    }
    let mut out: Vec<u8> = Vec::new();
    out.push(0x7B);
    let tk = kw_type();
    let tag = kw_heartbeat();
    push_plain_string(&mut out, &tk);
    out.push(0x3A);
    push_plain_string(&mut out, &tag);
    out.push(0x7D);
    proof {
        assert(out@ =~= ow_json(*m));
    }
    out
}

/// Encodes a daemon-outbound message as its canonical body.
pub fn encode_adv(m: &AdvisorMsg) -> (r: Vec<u8>)
    ensures
        r@ == adv_json(m@),
{
    proof {
        lemma_vocab_plain();
    }
    let mut out: Vec<u8> = Vec::new();
    out.push(0x7B);
    match m {
        AdvisorMsg::Heartbeat { incognito } => {
            let tk = kw_type();
            let tag = kw_heartbeat();
            let ik = kw_incognito();
            push_plain_string(&mut out, &tk);
            out.push(0x3A);
            push_plain_string(&mut out, &tag);
            out.push(0x2C);
            push_plain_string(&mut out, &ik);
            out.push(0x3A);
            push_bool(&mut out, *incognito);
            out.push(0x7D);
            proof {
                assert(out@ =~= adv_json(m@));
            }
        },
        AdvisorMsg::Navigation { url } => {
            let tk = kw_type();
            let tag = kw_navigation();
            let uk = kw_url();
            push_plain_string(&mut out, &tk);
            out.push(0x3A);
            push_plain_string(&mut out, &tag);
            out.push(0x2C);
            push_plain_string(&mut out, &uk);
            out.push(0x3A);
            push_json_string(&mut out, url.as_str().as_bytes());
            out.push(0x7D);
            proof {
                assert(out@ =~= adv_json(m@));
            }
        },
    }
    out
}

/// Round trip of the browser-inbound vocabulary: every message decodes back
/// from its own canonical encoding.
#[verifier::rlimit(60)]
pub proof fn lemma_rx_round_trip(m: RxBrowserMsgSpec)
    ensures
        rx_decoded(rx_json(m)) == Some(m),
{
    lemma_vocab_plain();
    match m {
        RxBrowserMsgSpec::Init { incognito } => {
            lemma_plain_string_parses_to(tag_init());
            lemma_bool_parses_to(incognito);
            lemma_parse_doc_obj2(
                key_type(),
                json_string_plain(tag_init()),
                JsonValSpec::S(tag_init()),
                key_incognito(),
                bool_bytes(incognito),
                JsonValSpec::B(incognito),
            );
        },
        RxBrowserMsgSpec::Navigation { url } => {
            lemma_plain_string_parses_to(tag_navigation());
            lemma_string_parses_to(encode_utf8(url));
            lemma_parse_doc_obj2(
                key_type(),
                json_string_plain(tag_navigation()),
                JsonValSpec::S(tag_navigation()),
                key_url(),
                json_string(encode_utf8(url)),
                JsonValSpec::S(encode_utf8(url)),
            );
            encode_utf8_valid_utf8(url);
            encode_utf8_decode_utf8(url);
        },
    }
}

/// Round trip of the acknowledgement message.
pub proof fn lemma_tx_round_trip(m: TxBrowserMsg)
    ensures
        tx_decoded(tx_json(m)) == Some(m),
{
    lemma_vocab_plain();
    lemma_plain_string_parses_to(tag_ack());
    lemma_parse_doc_obj1(key_type(), json_string_plain(tag_ack()), JsonValSpec::S(tag_ack()));
    match m {
        TxBrowserMsg::Ack {  } => {},
    }
}

/// Round trip of the daemon heartbeat query.
pub proof fn lemma_ow_round_trip(m: OverwatchMsg)
    ensures
        ow_decoded(ow_json(m)) == Some(m),
{
    lemma_vocab_plain();
    lemma_plain_string_parses_to(tag_heartbeat());
    lemma_parse_doc_obj1(
        key_type(),
        json_string_plain(tag_heartbeat()),
        JsonValSpec::S(tag_heartbeat()),
    );
    match m {
        OverwatchMsg::Heartbeat {  } => {},
    }
}

/// Round trip of the daemon-outbound vocabulary.
#[verifier::rlimit(60)]
pub proof fn lemma_adv_round_trip(m: AdvisorMsgSpec)
    ensures
        adv_decoded(adv_json(m)) == Some(m),
{
    lemma_vocab_plain();
    match m {
        AdvisorMsgSpec::Heartbeat { incognito } => {
            lemma_plain_string_parses_to(tag_heartbeat());
            lemma_bool_parses_to(incognito);
            lemma_parse_doc_obj2(
                key_type(),
                json_string_plain(tag_heartbeat()),
                JsonValSpec::S(tag_heartbeat()),
                key_incognito(),
                bool_bytes(incognito),
                JsonValSpec::B(incognito),
            );
        },
        AdvisorMsgSpec::Navigation { url } => {
            lemma_plain_string_parses_to(tag_navigation());
            lemma_string_parses_to(encode_utf8(url));
            lemma_parse_doc_obj2(
                key_type(),
                json_string_plain(tag_navigation()),
                JsonValSpec::S(tag_navigation()),
                key_url(),
                json_string(encode_utf8(url)),
                JsonValSpec::S(encode_utf8(url)),
            );
            encode_utf8_valid_utf8(url);
            encode_utf8_decode_utf8(url);
        },
    }
}

} // verus!
