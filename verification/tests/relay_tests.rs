use std::sync::mpsc;

use resistance_advisor::frame::encode_frame;
use resistance_advisor::models::{AdvisorMsg, ChannelClosed, RxBrowserMsg};
use resistance_advisor::relay::{
    ack_frame, browser_outbound, encode_advisor_frame, process_browser_frame,
    process_overwatch_frame, SocketHandler,
};
use resistance_advisor::state::IncognitoFlag;

fn handler() -> (SocketHandler, mpsc::Receiver<AdvisorMsg>) {
    let (sender, receiver) = mpsc::channel();
    (SocketHandler::new(sender, IncognitoFlag::new()), receiver)
}

#[test]
fn flag_starts_cleared_and_follows_sets() {
    let flag = IncognitoFlag::new();
    assert!(!flag.get());
    flag.set(true);
    assert!(flag.get());
    flag.set(false);
    assert!(!flag.get());
}

#[test]
fn outbound_message_keeps_the_url() {
    let msg = RxBrowserMsg::Navigation { url: "https://example.com/a?b=c".to_string() };
    assert_eq!(
        browser_outbound(&msg),
        Some(AdvisorMsg::Navigation { url: "https://example.com/a?b=c".to_string() })
    );
    assert_eq!(browser_outbound(&RxBrowserMsg::Init { incognito: true }), None);
    assert_eq!(browser_outbound(&RxBrowserMsg::Init { incognito: false }), None);
}

#[test]
fn send_queues_in_order() {
    let (socket, receiver) = handler();
    socket.send(AdvisorMsg::Navigation { url: "a".to_string() }).unwrap();
    socket.send(AdvisorMsg::Heartbeat { incognito: true }).unwrap();
    assert_eq!(receiver.recv().unwrap(), AdvisorMsg::Navigation { url: "a".to_string() });
    assert_eq!(receiver.recv().unwrap(), AdvisorMsg::Heartbeat { incognito: true });
}

#[test]
fn send_fails_once_receiver_is_gone() {
    let (socket, receiver) = handler();
    drop(receiver);
    assert_eq!(
        socket.send(AdvisorMsg::Navigation { url: "a".to_string() }),
        Err(ChannelClosed)
    );
}

#[test]
fn init_frame_sets_flag_and_is_acknowledged() {
    let (socket, _receiver) = handler();
    let body = b"{\"type\":\"init\",\"incognito\":true}".to_vec();
    let (ack, sent) = process_browser_frame(&socket, &body).unwrap();
    assert_eq!(ack, ack_frame());
    assert_eq!(sent, Ok(()));
    assert!(socket.incognito_allowed.get());

    let body = b"{\"type\":\"init\",\"incognito\":false}".to_vec();
    assert_eq!(process_browser_frame(&socket, &body), Some((ack_frame(), Ok(()))));
    assert!(!socket.incognito_allowed.get());
}

#[test]
fn ack_frame_is_the_framed_canonical_ack() {
    assert_eq!(ack_frame(), encode_frame(&b"{\"type\":\"ack\"}".to_vec()));
}

#[test]
fn navigation_frames_relay_in_arrival_order() {
    let (socket, receiver) = handler();
    let a = b"{\"type\":\"navigation\",\"url\":\"a\"}".to_vec();
    let b = b"{\"type\":\"navigation\",\"url\":\"b\"}".to_vec();
    assert!(process_browser_frame(&socket, &a).is_some());
    assert!(process_browser_frame(&socket, &b).is_some());
    assert_eq!(receiver.recv().unwrap(), AdvisorMsg::Navigation { url: "a".to_string() });
    assert_eq!(receiver.recv().unwrap(), AdvisorMsg::Navigation { url: "b".to_string() });
}

#[test]
fn malformed_browser_frame_is_dropped_silently() {
    let (socket, receiver) = handler();
    socket.incognito_allowed.set(true);
    let body = b"{\"type\":\"bogus\"}".to_vec();
    assert_eq!(process_browser_frame(&socket, &body), None);
    // No acknowledgement, no relayed message, no state change.
    assert!(socket.incognito_allowed.get());
    assert!(receiver.try_recv().is_err());
    // The loop goes on: the next valid frame is handled normally.
    let body = b"{\"type\":\"navigation\",\"url\":\"x\"}".to_vec();
    assert!(process_browser_frame(&socket, &body).is_some());
    assert_eq!(receiver.recv().unwrap(), AdvisorMsg::Navigation { url: "x".to_string() });
}

#[test]
fn closed_channel_still_earns_an_acknowledgement() {
    let (socket, receiver) = handler();
    drop(receiver);
    let body = b"{\"type\":\"navigation\",\"url\":\"x\"}".to_vec();
    assert_eq!(
        process_browser_frame(&socket, &body),
        Some((ack_frame(), Err(ChannelClosed)))
    );
}

#[test]
fn heartbeat_is_answered_with_current_flag() {
    let flag = IncognitoFlag::new();
    let body = b"{\"type\":\"heartbeat\"}".to_vec();
    assert_eq!(
        process_overwatch_frame(&body, &flag),
        Some(AdvisorMsg::Heartbeat { incognito: false })
    );
    flag.set(true);
    assert_eq!(
        process_overwatch_frame(&body, &flag),
        Some(AdvisorMsg::Heartbeat { incognito: true })
    );
}

#[test]
fn init_then_heartbeat_reports_the_init_value() {
    let (socket, _receiver) = handler();
    let init = b"{\"type\":\"init\",\"incognito\":true}".to_vec();
    assert!(process_browser_frame(&socket, &init).is_some());
    let heartbeat = b"{\"type\":\"heartbeat\"}".to_vec();
    assert_eq!(
        process_overwatch_frame(&heartbeat, &socket.incognito_allowed),
        Some(AdvisorMsg::Heartbeat { incognito: true })
    );
}

#[test]
fn malformed_daemon_frame_gets_no_reply() {
    let flag = IncognitoFlag::new();
    assert_eq!(process_overwatch_frame(&b"{\"type\":\"init\"}".to_vec(), &flag), None);
    assert_eq!(process_overwatch_frame(&b"not json".to_vec(), &flag), None);
    // The loop goes on afterwards.
    assert!(process_overwatch_frame(&b"{\"type\":\"heartbeat\"}".to_vec(), &flag).is_some());
}

#[test]
fn advisor_frames_are_framed_canonical_bodies() {
    let reply = AdvisorMsg::Heartbeat { incognito: true };
    assert_eq!(
        encode_advisor_frame(&reply),
        Some(encode_frame(&b"{\"type\":\"heartbeat\",\"incognito\":true}".to_vec()))
    );
    let nav = AdvisorMsg::Navigation { url: "https://example.com".to_string() };
    assert_eq!(
        encode_advisor_frame(&nav),
        Some(encode_frame(&b"{\"type\":\"navigation\",\"url\":\"https://example.com\"}".to_vec()))
    );
}
