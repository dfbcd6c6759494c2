//! The relay logic: what each inbound frame does to the shared state, what
//! is acknowledged, and what is queued for the daemon.
//!
//! The step and run functions below are the specification the process
//! wiring is held to: the browser loop applies [`process_browser_frame`] to
//! each frame read from standard input, and the daemon receive loop applies
//! [`process_overwatch_frame`] to each frame read from the socket.

use vstd::prelude::*;

verus! {

use crate::codec::adv_json;
use crate::codec::encode_adv;
use crate::codec::encode_tx;
use crate::codec::decode_ow;
use crate::codec::decode_rx;
use crate::codec::lemma_rx_round_trip;
use crate::codec::lemma_vocab_plain;
use crate::codec::ow_decoded;
use crate::codec::rx_decoded;
use crate::codec::rx_json;
use crate::codec::tx_json;
use crate::frame::encode_frame;
use crate::frame::frame_of;
use crate::models::AdvisorMsg;
use crate::models::AdvisorMsgSpec;
use crate::models::ChannelClosed;
use crate::models::OverwatchMsg;
use crate::models::RxBrowserMsg;
use crate::models::RxBrowserMsgSpec;
use crate::models::TxBrowserMsg;
use crate::state::IncognitoFlag;

/// The sending end of the relay channel.
#[verifier::external_type_specification]
#[verifier::external_body]
#[verifier::reject_recursive_types(T)]
pub struct ExSender<T>(std::sync::mpsc::Sender<T>);

/// Relies on `std::sync::mpsc::Sender::send`: queues the message for the
/// receiving end, keeping the send order of this sender, and fails exactly
/// when the receiving end has been dropped.
#[verifier::external_body]
fn channel_send(sender: &std::sync::mpsc::Sender<AdvisorMsg>, msg: AdvisorMsg) -> (r: Result<
    (),
    ChannelClosed,
>)
    ensures
        r matches Err(e) ==> e == ChannelClosed,
{
    match sender.send(msg) {
        Ok(()) => Ok(()),
        Err(_) => Err(ChannelClosed),
    }
}

/// The browser-side view of the daemon transport: the relay channel's
/// sending end, and the shared incognito flag.
pub struct SocketHandler {
    sender: std::sync::mpsc::Sender<AdvisorMsg>,
    pub incognito_allowed: IncognitoFlag,
}

impl SocketHandler {
    /// Wires a handler from the relay channel's sending end and the shared
    /// incognito flag. The channel's receiving end belongs to the writer
    /// loop that drains it to the daemon socket.
    pub fn new(
        sender: std::sync::mpsc::Sender<AdvisorMsg>,
        incognito_allowed: IncognitoFlag,
    ) -> SocketHandler {
        SocketHandler { sender, incognito_allowed }
    }

    /// Queues one daemon-bound message on the relay channel; never blocks.
    /// Fails exactly as the channel does, when the receiving end is gone.
    pub fn send(&self, msg: AdvisorMsg) -> (r: Result<(), ChannelClosed>)
        ensures
            r matches Err(e) ==> e == ChannelClosed,
    {
        channel_send(&self.sender, msg)
    }
}

/// What one decoded browser message does: the new flag value, and the
/// daemon-bound message to relay, if any.
pub open spec fn browser_step(m: RxBrowserMsgSpec, incognito: bool) -> (bool, Option<
    AdvisorMsgSpec,
>) {
    match m {
        RxBrowserMsgSpec::Init { incognito: b } => (b, None),
        RxBrowserMsgSpec::Navigation { url } => (
            incognito,
            Some(AdvisorMsgSpec::Navigation { url }),
        ),
    }
}

/// What one browser frame body does: a malformed body is dropped and
/// changes nothing; a valid one steps the state and earns one
/// acknowledgement.
pub open spec fn frame_step(body: Seq<u8>, incognito: bool) -> (bool, Seq<AdvisorMsgSpec>, nat) {
    match rx_decoded(body) {
        Some(m) => {
            let (s2, out) = browser_step(m, incognito);
            match out {
                Some(a) => (s2, seq![a], 1nat),
                None => (s2, Seq::empty(), 1nat),
            }
        },
        None => (incognito, Seq::empty(), 0nat),
    }
}

/// What the daemon receive loop replies to one decoded daemon message,
/// given the flag value it read: a heartbeat is answered with exactly that
/// value.
pub open spec fn overwatch_step(m: OverwatchMsg, incognito: bool) -> Option<AdvisorMsgSpec> {
    match m {
        OverwatchMsg::Heartbeat {  } => Some(AdvisorMsgSpec::Heartbeat { incognito }),
    }
}

/// Everything a finished run of the browser loop has done: the final flag
/// value, the daemon-bound messages in queue order, and how many
/// acknowledgements went out.
#[verifier::ext_equal]
pub struct RelayRun {
    pub incognito: bool,
    pub relayed: Seq<AdvisorMsgSpec>,
    pub acks: nat,
}

/// The browser loop folded over a sequence of frame bodies, in the order
/// they were read.
pub open spec fn run_browser(incognito: bool, bodies: Seq<Seq<u8>>) -> RelayRun
    decreases bodies.len(),
{
    if bodies.len() == 0 {
        RelayRun { incognito, relayed: Seq::empty(), acks: 0 }
    } else {
        let (s2, out, a) = frame_step(bodies[0], incognito);
        let rest = run_browser(s2, bodies.drop_first());
        RelayRun { incognito: rest.incognito, relayed: out + rest.relayed, acks: a + rest.acks }
    }
}

/// How many bodies of a sequence are syntactically valid browser messages.
pub open spec fn valid_count(bodies: Seq<Seq<u8>>) -> nat
    decreases bodies.len(),
{
    if bodies.len() == 0 {
        0
    } else {
        (if rx_decoded(bodies[0]) is Some {
            1nat
        } else {
            0nat
        }) + valid_count(bodies.drop_first())
    }
}

/// The navigation events of a sequence of bodies, in arrival order.
pub open spec fn navigations_of(bodies: Seq<Seq<u8>>) -> Seq<AdvisorMsgSpec>
    decreases bodies.len(),
{
    if bodies.len() == 0 {
        Seq::empty()
    } else {
        (match rx_decoded(bodies[0]) {
            Some(RxBrowserMsgSpec::Navigation { url }) => seq![AdvisorMsgSpec::Navigation { url }],
            _ => Seq::empty(),
        }) + navigations_of(bodies.drop_first())
    }
}

/// A valid `init` frame body.
pub open spec fn is_valid_init(body: Seq<u8>) -> bool {
    rx_decoded(body) matches Some(RxBrowserMsgSpec::Init { .. })
}

/// Acknowledgement law: a run of the browser loop acknowledges exactly its
/// syntactically valid frames, one `Ack` per valid frame, emitted as each
/// frame is handled (so in arrival order); malformed frames earn none.
pub proof fn lemma_run_acks(incognito: bool, bodies: Seq<Seq<u8>>)
    ensures
        run_browser(incognito, bodies).acks == valid_count(bodies),
    decreases bodies.len(),
{
    if bodies.len() > 0 {
        let (s2, out, a) = frame_step(bodies[0], incognito);
        lemma_run_acks(s2, bodies.drop_first());
    }
}

/// Ordering law: a run queues for the daemon exactly the valid navigation
/// events, in the order their frames arrived, whatever else the run does.
pub proof fn lemma_run_relays_in_order(incognito: bool, bodies: Seq<Seq<u8>>)
    ensures
        run_browser(incognito, bodies).relayed == navigations_of(bodies),
    decreases bodies.len(),
{
    if bodies.len() > 0 {
        let (s2, out, a) = frame_step(bodies[0], incognito);
        lemma_run_relays_in_order(s2, bodies.drop_first());
    }
}

/// A run over concatenated input is the second run started from the first
/// run's final state.
pub proof fn lemma_run_append(incognito: bool, a: Seq<Seq<u8>>, b: Seq<Seq<u8>>)
    ensures
        run_browser(incognito, a + b).incognito == run_browser(
            run_browser(incognito, a).incognito,
            b,
        ).incognito,
    decreases a.len(),
{
    if a.len() == 0 {
        assert(a + b =~= b);
    } else {
        let (s2, out, k) = frame_step(a[0], incognito);
        assert((a + b)[0] == a[0]);
        assert((a + b).drop_first() =~= a.drop_first() + b);
        lemma_run_append(s2, a.drop_first(), b);
    }
}

/// Frames that carry no valid `init` leave the flag alone.
pub proof fn lemma_no_init_keeps_state(incognito: bool, bodies: Seq<Seq<u8>>)
    requires
        forall|i: int| 0 <= i < bodies.len() ==> !is_valid_init(#[trigger] bodies[i]),
    ensures
        run_browser(incognito, bodies).incognito == incognito,
    decreases bodies.len(),
{
    if bodies.len() > 0 {
        assert(!is_valid_init(bodies[0]));
        let (s2, out, k) = frame_step(bodies[0], incognito);
        assert(s2 == incognito);
        assert(forall|i: int|
            0 <= i < bodies.drop_first().len() ==> !is_valid_init(
                #[trigger] bodies.drop_first()[i],
            ));
        lemma_no_init_keeps_state(incognito, bodies.drop_first());
    }
}

/// Shared-state law: once a valid `init{b}` frame is processed, the flag
/// holds `b` until the next valid `init`, so every heartbeat answered in
/// between reports `b` (see [`overwatch_step`]).
pub proof fn lemma_state_after_init(
    incognito: bool,
    pre: Seq<Seq<u8>>,
    b: bool,
    post: Seq<Seq<u8>>,
)
    requires
        forall|i: int| 0 <= i < post.len() ==> !is_valid_init(#[trigger] post[i]),
    ensures
        run_browser(
            incognito,
            pre + seq![rx_json(RxBrowserMsgSpec::Init { incognito: b })] + post,
        ).incognito == b,
{
    let init_body = rx_json(RxBrowserMsgSpec::Init { incognito: b });
    let tail = seq![init_body] + post;
    assert(pre + seq![init_body] + post =~= pre + tail);
    lemma_run_append(incognito, pre, tail);
    let s1 = run_browser(incognito, pre).incognito;
    lemma_rx_round_trip(RxBrowserMsgSpec::Init { incognito: b });
    assert(tail[0] == init_body);
    assert(tail.drop_first() =~= post);
    let (s2, out, k) = frame_step(init_body, s1);
    assert(s2 == b);
    lemma_no_init_keeps_state(b, post);
}

/// The daemon-bound message a browser message gives rise to: the relay half
/// of [`browser_step`]. A navigation is relayed with its url unchanged; an
/// `init` sends nothing.
pub fn browser_outbound(msg: &RxBrowserMsg) -> (r: Option<AdvisorMsg>)
    ensures
        msg@ matches RxBrowserMsgSpec::Navigation { url } ==> (r matches Some(a) && a@
            == AdvisorMsgSpec::Navigation { url }),
        msg@ matches RxBrowserMsgSpec::Init { .. } ==> r is None,
        forall|incognito: bool|
            #[trigger] browser_step(msg@, incognito).1 == (match r {
                Some(a) => Some(a@),
                None => None,
            }),
{
    match msg {
        RxBrowserMsg::Init { incognito: _ } => None,
        RxBrowserMsg::Navigation { url } => Some(AdvisorMsg::Navigation { url: url.clone() }),
    }
}

/// Applies one decoded browser message: `init` stores its value in the
/// shared flag and never fails, `navigation` is queued for the daemon as
/// [`browser_outbound`] builds it. Queueing fails only with
/// `ChannelClosed`, and only for a navigation.
pub fn handle_browser_msg(msg: RxBrowserMsg, socket: &SocketHandler) -> (r: Result<
    (),
    ChannelClosed,
>)
    ensures
        r matches Err(e) ==> e == ChannelClosed && msg@ matches RxBrowserMsgSpec::Navigation {
            ..
        },
        msg@ matches RxBrowserMsgSpec::Init { .. } ==> r is Ok,
{
    match &msg {
        RxBrowserMsg::Init { incognito } => {
            socket.incognito_allowed.set(*incognito);
        },
        RxBrowserMsg::Navigation { url: _ } => {},
    }
    match browser_outbound(&msg) {
        Some(out) => socket.send(out),
        None => Ok(()),
    }
}

/// The complete acknowledgement frame, as written after every valid browser
/// frame.
pub fn ack_frame() -> (r: Vec<u8>)
    ensures
        r@ == frame_of(tx_json(TxBrowserMsg::Ack {  })),
{
    let body = encode_tx(&TxBrowserMsg::Ack {  });
    proof {
        lemma_vocab_plain();
        assert(tx_json(TxBrowserMsg::Ack {  }).len() == 14);
    }
    encode_frame(&body)
}

/// Handles one browser frame body: a valid frame steps the shared state,
/// queues any navigation event, and earns exactly one acknowledgement
/// frame, even when the relay channel is closed (that failure is reported
/// beside the acknowledgement, for the caller to log); an `init` frame
/// never touches the channel, so for it queueing cannot fail; a malformed
/// frame is dropped and earns none.
pub fn process_browser_frame(socket: &SocketHandler, body: &Vec<u8>) -> (r: Option<
    (Vec<u8>, Result<(), ChannelClosed>),
>)
    ensures
        match r {
            Some((ack, sent)) => {
                &&& rx_decoded(body@) is Some
                &&& ack@ == frame_of(tx_json(TxBrowserMsg::Ack {  }))
                &&& (sent matches Err(e) ==> e == ChannelClosed
                    && rx_decoded(body@) matches Some(RxBrowserMsgSpec::Navigation { .. }))
            },
            None => rx_decoded(body@) is None,
        },
        rx_decoded(body@) matches Some(RxBrowserMsgSpec::Init { .. }) ==> (r matches Some(p)
            && p.1 is Ok),
{
    let msg = match decode_rx(body) {
        Ok(m) => m,
        Err(_) => {
            return None;
        },
    };
    let sent = handle_browser_msg(msg, socket);
    Some((ack_frame(), sent))
}

/// The reply to one decoded daemon message for a given flag value.
pub fn handle_overwatch_msg(msg: OverwatchMsg, incognito: bool) -> (r: AdvisorMsg)
    ensures
        Some(r@) == overwatch_step(msg, incognito),
{
    match msg {
        OverwatchMsg::Heartbeat {  } => AdvisorMsg::Heartbeat { incognito },
    }
}

/// Handles one daemon frame body: a heartbeat is answered with the current
/// value of the shared flag; a malformed body gets no reply and is dropped.
pub fn process_overwatch_frame(body: &Vec<u8>, incognito_allowed: &IncognitoFlag) -> (r: Option<
    AdvisorMsg,
>)
    ensures
        match r {
            Some(m) => ow_decoded(body@) is Some && m@ matches AdvisorMsgSpec::Heartbeat { .. },
            None => ow_decoded(body@) is None,
        },
{
    match decode_ow(body) {
        Ok(msg) => {
            let incognito = incognito_allowed.get();
            Some(handle_overwatch_msg(msg, incognito))
        },
        Err(_) => None,
    }
}

/// Builds the complete frame for a daemon-bound message: the one write the
/// transport makes per message. Nothing is built only when the body cannot
/// fit a frame's 32-bit length.
pub fn encode_advisor_frame(msg: &AdvisorMsg) -> (r: Option<Vec<u8>>)
    ensures
        match r {
            Some(f) => f@ == frame_of(adv_json(msg@)),
            None => adv_json(msg@).len() > u32::MAX,
        },
{
    let body = encode_adv(msg);
    if body.len() <= u32::MAX as usize {
        Some(encode_frame(&body))
    } else {
        None
    }
}

} // verus!
