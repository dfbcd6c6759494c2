use resistance_advisor::codec::{
    decode_adv, decode_ow, decode_rx, decode_tx, encode_adv, encode_ow, encode_rx, encode_tx,
};
use resistance_advisor::models::{
    AdvisorMsg, OverwatchMsg, ParseError, RxBrowserMsg, TxBrowserMsg,
};

#[test]
fn decode_init_frame_body() {
    let body = b"{\"type\":\"init\",\"incognito\":true}".to_vec();
    assert_eq!(decode_rx(&body), Ok(RxBrowserMsg::Init { incognito: true }));
    let body = b"{\"type\":\"init\",\"incognito\":false}".to_vec();
    assert_eq!(decode_rx(&body), Ok(RxBrowserMsg::Init { incognito: false }));
}

#[test]
fn decode_navigation_frame_body() {
    let body = b"{\"type\":\"navigation\",\"url\":\"https://example.com\"}".to_vec();
    assert_eq!(
        decode_rx(&body),
        Ok(RxBrowserMsg::Navigation { url: "https://example.com".to_string() })
    );
}

#[test]
fn decode_accepts_swapped_member_order() {
    let body = b"{\"incognito\":false,\"type\":\"init\"}".to_vec();
    assert_eq!(decode_rx(&body), Ok(RxBrowserMsg::Init { incognito: false }));
    let body = b"{\"url\":\"x\",\"type\":\"navigation\"}".to_vec();
    assert_eq!(decode_rx(&body), Ok(RxBrowserMsg::Navigation { url: "x".to_string() }));
}

#[test]
fn decode_accepts_whitespace() {
    let body = b" \t{ \"type\" : \"init\" ,\r\n \"incognito\" : true }\n".to_vec();
    assert_eq!(decode_rx(&body), Ok(RxBrowserMsg::Init { incognito: true }));
    let body = b"  {\"type\":\"heartbeat\"}  ".to_vec();
    assert_eq!(decode_ow(&body), Ok(OverwatchMsg::Heartbeat {}));
}

#[test]
fn decode_handles_string_escapes() {
    let body = b"{\"type\":\"navigation\",\"url\":\"a\\\"b\\\\c\\/d\\u0041\\n\\t\"}".to_vec();
    assert_eq!(
        decode_rx(&body),
        Ok(RxBrowserMsg::Navigation { url: "a\"b\\c/dA\n\t".to_string() })
    );
}

#[test]
fn decode_handles_unicode_escapes() {
    // One-, two- and three-byte scalars written as \uXXXX escapes.
    let body = b"{\"type\":\"navigation\",\"url\":\"\\u0041\\u00e9\\u20ac\"}".to_vec();
    assert_eq!(
        decode_rx(&body),
        Ok(RxBrowserMsg::Navigation { url: "A\u{e9}\u{20ac}".to_string() })
    );
    // Surrogate code points are not scalars and are rejected.
    let body = b"{\"type\":\"navigation\",\"url\":\"\\ud800\"}".to_vec();
    assert_eq!(decode_rx(&body), Err(ParseError));
    // Too few hexadecimal digits.
    let body = b"{\"type\":\"navigation\",\"url\":\"\\u00\"}".to_vec();
    assert_eq!(decode_rx(&body), Err(ParseError));
}

#[test]
fn decode_handles_surrogate_pair_escapes() {
    // An astral character written as a high/low surrogate pair.
    let body = b"{\"type\":\"navigation\",\"url\":\"\\ud83d\\ude00!\"}".to_vec();
    assert_eq!(
        decode_rx(&body),
        Ok(RxBrowserMsg::Navigation { url: "\u{1f600}!".to_string() })
    );
    // A lone low surrogate is rejected.
    let body = b"{\"type\":\"navigation\",\"url\":\"\\udc00\"}".to_vec();
    assert_eq!(decode_rx(&body), Err(ParseError));
    // A high surrogate followed by anything but a low surrogate is rejected.
    let body = b"{\"type\":\"navigation\",\"url\":\"\\ud83d\\u0041\"}".to_vec();
    assert_eq!(decode_rx(&body), Err(ParseError));
    let body = b"{\"type\":\"navigation\",\"url\":\"\\ud83dxx\"}".to_vec();
    assert_eq!(decode_rx(&body), Err(ParseError));
}

#[test]
fn decode_keeps_multibyte_characters() {
    let body = "{\"type\":\"navigation\",\"url\":\"https://exämple.com/π\"}"
        .as_bytes()
        .to_vec();
    assert_eq!(
        decode_rx(&body),
        Ok(RxBrowserMsg::Navigation { url: "https://exämple.com/π".to_string() })
    );
}

#[test]
fn encode_ack_is_canonical() {
    assert_eq!(encode_tx(&TxBrowserMsg::Ack {}), b"{\"type\":\"ack\"}".to_vec());
}

#[test]
fn encode_heartbeat_reply_is_canonical() {
    assert_eq!(
        encode_adv(&AdvisorMsg::Heartbeat { incognito: true }),
        b"{\"type\":\"heartbeat\",\"incognito\":true}".to_vec()
    );
    assert_eq!(
        encode_adv(&AdvisorMsg::Heartbeat { incognito: false }),
        b"{\"type\":\"heartbeat\",\"incognito\":false}".to_vec()
    );
}

#[test]
fn encode_navigation_is_canonical() {
    assert_eq!(
        encode_adv(&AdvisorMsg::Navigation { url: "https://example.com".to_string() }),
        b"{\"type\":\"navigation\",\"url\":\"https://example.com\"}".to_vec()
    );
}

#[test]
fn encode_heartbeat_query_is_canonical() {
    assert_eq!(encode_ow(&OverwatchMsg::Heartbeat {}), b"{\"type\":\"heartbeat\"}".to_vec());
}

#[test]
fn encode_escapes_url_characters() {
    let msg = AdvisorMsg::Navigation { url: "a\"b\\c\nd".to_string() };
    assert_eq!(
        encode_adv(&msg),
        b"{\"type\":\"navigation\",\"url\":\"a\\\"b\\\\c\\u000ad\"}".to_vec()
    );
}

#[test]
fn round_trip_every_browser_variant() {
    for msg in [
        RxBrowserMsg::Init { incognito: true },
        RxBrowserMsg::Init { incognito: false },
        RxBrowserMsg::Navigation { url: "https://example.com".to_string() },
        RxBrowserMsg::Navigation { url: String::new() },
        RxBrowserMsg::Navigation { url: "astral \u{1f980} char".to_string() },
        RxBrowserMsg::Navigation { url: "quote\" slash\\ ctrl\u{1} tab\t ünïcode π".to_string() },
    ] {
        assert_eq!(decode_rx(&encode_rx(&msg)), Ok(msg));
    }
}

#[test]
fn round_trip_every_advisor_variant() {
    for msg in [
        AdvisorMsg::Heartbeat { incognito: true },
        AdvisorMsg::Heartbeat { incognito: false },
        AdvisorMsg::Navigation { url: "wss://overwatch/socket?q=1&r=2".to_string() },
        AdvisorMsg::Navigation { url: "\u{0}\u{1f}\"\\".to_string() },
    ] {
        assert_eq!(decode_adv(&encode_adv(&msg)), Ok(msg));
    }
}

#[test]
fn round_trip_ack_and_heartbeat() {
    assert_eq!(decode_tx(&encode_tx(&TxBrowserMsg::Ack {})), Ok(TxBrowserMsg::Ack {}));
    assert_eq!(decode_ow(&encode_ow(&OverwatchMsg::Heartbeat {})), Ok(OverwatchMsg::Heartbeat {}));
}

#[test]
fn malformed_bodies_are_parse_errors() {
    let cases: Vec<Vec<u8>> = vec![
        b"".to_vec(),
        b"{".to_vec(),
        b"{}".to_vec(),
        b"null".to_vec(),
        b"\"init\"".to_vec(),
        b"{\"type\":\"init\"}".to_vec(),
        b"{\"type\":\"bogus\",\"incognito\":true}".to_vec(),
        b"{\"type\":\"init\",\"incognito\":1}".to_vec(),
        b"{\"type\":\"init\",\"incognito\":true,\"extra\":true}".to_vec(),
        b"{\"type\":\"init\",\"url\":\"x\"}".to_vec(),
        b"{\"type\":\"navigation\",\"incognito\":true}".to_vec(),
        b"{\"type\":true,\"incognito\":true}".to_vec(),
        b"{\"type\":\"init\",\"incognito\":true} trailing".to_vec(),
        b"{\"type\":\"init\" \"incognito\":true}".to_vec(),
        b"{\"type\":\"navigation\",\"url\":\"unterminated}".to_vec(),
        b"{\"type\":\"navigation\",\"url\":\"bad\\q\"}".to_vec(),
    ];
    for body in cases {
        assert_eq!(decode_rx(&body), Err(ParseError), "accepted: {:?}", body);
    }
}

#[test]
fn invalid_utf8_in_url_is_a_parse_error() {
    let mut body = b"{\"type\":\"navigation\",\"url\":\"".to_vec();
    body.push(0xFF);
    body.extend_from_slice(b"\"}");
    assert_eq!(decode_rx(&body), Err(ParseError));
}

#[test]
fn daemon_vocabulary_rejects_unknown_tags() {
    assert_eq!(decode_ow(&b"{\"type\":\"init\"}".to_vec()), Err(ParseError));
    assert_eq!(decode_ow(&b"{\"type\":\"heartbeat\",\"x\":true}".to_vec()), Err(ParseError));
    assert_eq!(decode_tx(&b"{\"type\":\"nack\"}".to_vec()), Err(ParseError));
}
