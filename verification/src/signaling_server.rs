//! What the signaling server does with the frames of its sockets.
//!
//! The server keeps one table of peers: the name that a peer goes by, and the handle of the
//! outgoing queue of the socket on which that name was last claimed. A text frame is passed
//! on unchanged to the peer that it is addressed to.

use vstd::prelude::*;

use crate::table::{kept, Table};
use crate::utils::{opt_chars, SignalMessage, SignalMessageView};

verus! {

/// Seconds between two pings to every peer.
pub const PING_INTERVAL: u64 = 5;

/// The port that the server listens on.
pub const PORT: u16 = 3000;

/// What the server remembers of one socket.
pub struct Session {
    /// The handle of the socket's outgoing queue.
    pub sender: u64,
    /// The name that goes out of the table when the socket closes.
    pub current_peer: Option<String>,
}

/// A frame that came in on a socket.
pub enum Frame {
    /// A text, with the message that it is, if it is one.
    Text { text: String, message: Option<SignalMessage> },
    Ping { payload: Vec<u8> },
    Pong,
    Close,
    Binary,
}

/// Where a text goes.
pub enum Relay {
    /// To nobody.
    Nothing,
    /// To the queue `sender`, which belongs to the peer `to`.
    Deliver { to: String, sender: u64, text: String },
    /// To nobody: no peer goes by the name `to`.
    Absent { to: String },
}

/// What a [`Relay`] says.
#[verifier::ext_equal]
pub enum RelayView {
    Nothing,
    Deliver { to: Seq<char>, sender: u64, text: Seq<char> },
    Absent { to: Seq<char> },
}

impl View for Relay {
    type V = RelayView;

    open spec fn view(&self) -> RelayView {
        match *self {
            Relay::Nothing => RelayView::Nothing,
            Relay::Deliver { to, sender, text } => RelayView::Deliver {
                to: to@,
                sender,
                text: text@,
            },
            Relay::Absent { to } => RelayView::Absent { to: to@ },
        }
    }
}

/// What is to be done about a frame.
pub enum Reaction {
    /// Read the next frame.
    Continue,
    /// Pass a text on and read the next frame.
    Pass(Relay),
    /// Send a pong with this payload to the socket itself, and go on only if its queue takes it.
    Reply { payload: Vec<u8> },
    /// Stop reading.
    Stop,
}

/// The name that a message claims for the socket that it came in on: an offer always claims
/// its sender's, a registration only where the socket has no name yet.
pub open spec fn claimed_name(
    current: Option<Seq<char>>,
    message: SignalMessageView,
) -> Option<Seq<char>> {
    match message {
        SignalMessageView::Offer { from, .. } => Some(from),
        SignalMessageView::Register { from } => if current is None {
            Some(from)
        } else {
            None
        },
        _ => None,
    }
}

/// The socket's name after a message.
pub open spec fn current_after(
    current: Option<Seq<char>>,
    message: SignalMessageView,
) -> Option<Seq<char>> {
    match claimed_name(current, message) {
        Some(name) => Some(name),
        None => current,
    }
}

/// The peers after a message on the socket whose queue is `sender`.
pub open spec fn peers_after(
    peers: Map<Seq<char>, u64>,
    sender: u64,
    current: Option<Seq<char>>,
    message: SignalMessageView,
) -> Map<Seq<char>, u64> {
    match claimed_name(current, message) {
        Some(name) => peers.insert(name, sender),
        None => peers,
    }
}

/// Whom a message is for.
pub open spec fn addressee(message: SignalMessageView) -> Option<Seq<char>> {
    match message {
        SignalMessageView::Offer { offer_to, .. } => Some(offer_to),
        SignalMessageView::Answer { answer_to, .. } => Some(answer_to),
        SignalMessageView::Candidate { to, .. } => Some(to),
        SignalMessageView::Video { to, .. } => Some(to),
        _ => None,
    }
}

/// Where a text goes, given the peers.
pub open spec fn delivery(
    peers: Map<Seq<char>, u64>,
    message: SignalMessageView,
    text: Seq<char>,
) -> RelayView {
    match addressee(message) {
        None => RelayView::Nothing,
        Some(to) => if peers.dom().contains(to) {
            RelayView::Deliver { to, sender: peers[to], text }
        } else {
            RelayView::Absent { to }
        },
    }
}

impl Session {
    /// A socket without a name.
    pub fn new(sender: u64) -> (session: Session)
        ensures
            session.sender == sender,
            session.current_peer is None,
    {
        Session { sender, current_peer: None }
    }

    /// The socket's name.
    pub open spec fn current(&self) -> Option<Seq<char>> {
        opt_chars(self.current_peer)
    }
}

/// Looks the addressee of a text up.
fn deliver_to(peers: &Table, to: &String, text: String) -> (relay: Relay)
    requires
        peers.wf(),
    ensures
        relay@ == (if peers@.dom().contains(to@) {
            RelayView::Deliver { to: to@, sender: peers@[to@], text: text@ }
        } else {
            RelayView::Absent { to: to@ }
        }),
{
    match peers.get(to) {
        Some(sender) => Relay::Deliver { to: to.clone(), sender, text },
        None => Relay::Absent { to: to.clone() },
    }
}

/// The text goes unchanged to the queue of the peer `to`, and nowhere where there is none.
pub open spec fn passed_on(
    peers: Map<Seq<char>, u64>,
    to: Seq<char>,
    text: Seq<char>,
    relay: Relay,
) -> bool {
    &&& peers.dom().contains(to) ==> relay is Deliver && relay->Deliver_to@ == to
        && relay->Deliver_sender == peers[to] && relay->Deliver_text@ == text
    &&& !peers.dom().contains(to) ==> relay is Absent && relay->Absent_to@ == to
}

/// Handles a text that is a message: first binds the socket to the name that the message
/// claims, then says where the text goes.
pub fn handle_message(
    peers: &mut Table,
    session: &mut Session,
    text: String,
    message: &SignalMessage,
) -> (relay: Relay)
    requires
        old(peers).wf(),
    ensures
        final(peers).wf(),
        final(peers)@ == peers_after(
            old(peers)@,
            old(session).sender,
            old(session).current(),
            message@,
        ),
        final(session).sender == old(session).sender,
        final(session).current() == current_after(old(session).current(), message@),
        relay@ == delivery(final(peers)@, message@, text@),
        match *message {
            SignalMessage::Register { from } => {
                &&& relay is Nothing
                &&& old(session).current_peer is None ==> final(peers)@ == old(peers)@.insert(
                    from@,
                    old(session).sender,
                ) && final(session).current_peer is Some && final(session).current_peer->0@
                    == from@
                &&& old(session).current_peer is Some ==> final(peers)@ == old(peers)@
                    && final(session).current_peer is Some && final(session).current_peer->0@
                    == old(session).current_peer->0@
            },
            SignalMessage::Offer { from, offer_to, .. } => {
                &&& final(peers)@ == old(peers)@.insert(from@, old(session).sender)
                &&& final(session).current_peer is Some
                &&& final(session).current_peer->0@ == from@
                &&& passed_on(final(peers)@, offer_to@, text@, relay)
            },
            SignalMessage::Answer { answer_to, .. } => {
                &&& final(peers)@ == old(peers)@
                &&& *final(session) == *old(session)
                &&& passed_on(old(peers)@, answer_to@, text@, relay)
            },
            SignalMessage::Candidate { to, .. } => {
                &&& final(peers)@ == old(peers)@
                &&& *final(session) == *old(session)
                &&& passed_on(old(peers)@, to@, text@, relay)
            },
            SignalMessage::Video { to, .. } => {
                &&& final(peers)@ == old(peers)@
                &&& *final(session) == *old(session)
                &&& passed_on(old(peers)@, to@, text@, relay)
            },
            SignalMessage::Ping { .. } => {
                &&& relay is Nothing
                &&& final(peers)@ == old(peers)@
                &&& *final(session) == *old(session)
            },
        },
{
    match message {
        SignalMessage::Register { from } => {
            if session.current_peer.is_none() {
                peers.insert(from.clone(), session.sender);
                session.current_peer = Some(from.clone());
            }
            Relay::Nothing
        },
        SignalMessage::Offer { from, offer_to, .. } => {
            session.current_peer = Some(from.clone());
            peers.insert(from.clone(), session.sender);
            deliver_to(peers, offer_to, text)
        },
        SignalMessage::Answer { answer_to, .. } => deliver_to(peers, answer_to, text),
        SignalMessage::Candidate { to, .. } => deliver_to(peers, to, text),
        SignalMessage::Video { to, .. } => deliver_to(peers, to, text),
        SignalMessage::Ping { .. } => Relay::Nothing,
    }
}

/// Handles a frame. Only a text that is a message can change the peers or the session.
pub fn handle_frame(peers: &mut Table, session: &mut Session, frame: Frame) -> (reaction: Reaction)
    requires
        old(peers).wf(),
    ensures
        final(peers).wf(),
        match frame {
            Frame::Text { text, message: Some(message) } => {
                &&& final(peers)@ == peers_after(
                    old(peers)@,
                    old(session).sender,
                    old(session).current(),
                    message@,
                )
                &&& final(session).sender == old(session).sender
                &&& final(session).current() == current_after(old(session).current(), message@)
                &&& reaction matches Reaction::Pass(relay) && relay@ == delivery(
                    final(peers)@,
                    message@,
                    text@,
                )
            },
            _ => {
                &&& *final(peers) == *old(peers)
                &&& *final(session) == *old(session)
                &&& match frame {
                    Frame::Ping { payload } => reaction == (Reaction::Reply { payload }),
                    Frame::Close => reaction is Stop,
                    _ => reaction is Continue,
                }
            },
        },
{
    match frame {
        Frame::Text { text, message: Some(message) } => {
            Reaction::Pass(handle_message(peers, session, text, &message))
        },
        Frame::Text { message: None, .. } => Reaction::Continue,
        Frame::Ping { payload } => Reaction::Reply { payload },
        Frame::Pong => Reaction::Continue,
        Frame::Close => Reaction::Stop,
        Frame::Binary => Reaction::Continue,
    }
}

/// What is to be done once a pong was handed to the socket's queue; `sent` says whether the
/// queue took it.
pub fn after_reply(sent: bool) -> (reaction: Reaction)
    ensures
        sent ==> reaction is Continue,
        !sent ==> reaction is Stop,
{
    if sent {
        Reaction::Continue
    } else {
        Reaction::Stop
    }
}

/// Forgets a socket that is gone: the name that it goes by leaves the table. Returns that name.
pub fn disconnect(peers: &mut Table, session: &mut Session) -> (removed: Option<String>)
    requires
        old(peers).wf(),
    ensures
        final(peers).wf(),
        final(peers)@ == (match old(session).current() {
            Some(id) => old(peers)@.remove(id),
            None => old(peers)@,
        }),
        final(session).sender == old(session).sender,
        final(session).current() is None,
        final(session).current_peer is None,
        opt_chars(removed) == old(session).current(),
        removed is Some <==> old(session).current_peer is Some,
        old(session).current_peer matches Some(id) ==> final(peers)@ == old(peers)@.remove(id@)
            && removed->0@ == id@,
        old(session).current_peer is None ==> final(peers)@ == old(peers)@,
{
    match session.current_peer.take() {
        Some(id) => {
            let _ = peers.remove(&id);
            Some(id)
        },
        None => None,
    }
}

/// The text that every peer is sent once per interval.
pub fn ping_text() -> (text: String)
    ensures
        text@ == "{ \"t\": \"ping\"}"@,
{
    "{ \"t\": \"ping\"}".to_string()
}

/// A message that is addressed to a known peer is delivered to that peer's queue with its text
/// unchanged, whoever sends it, whatever else it says and whatever the peer is called. This holds
/// of offers, answers, candidates and video requests alike.
pub proof fn addressed_message_is_delivered(
    peers: Map<Seq<char>, u64>,
    to: Seq<char>,
    from: Seq<char>,
    sdp: Seq<char>,
    candidate: Seq<char>,
    sdp_mid: Option<Seq<char>>,
    sdp_mline_index: Option<u16>,
    text: Seq<char>,
)
    requires
        peers.dom().contains(to),
    ensures
        delivery(peers, SignalMessageView::Offer { sdp, from, offer_to: to }, text) == (
        RelayView::Deliver { to, sender: peers[to], text }),
        delivery(peers, SignalMessageView::Answer { sdp, from, answer_to: to }, text) == (
        RelayView::Deliver { to, sender: peers[to], text }),
        delivery(
            peers,
            SignalMessageView::Candidate { candidate, sdp_mid, sdp_mline_index, from, to },
            text,
        ) == (RelayView::Deliver { to, sender: peers[to], text }),
        delivery(peers, SignalMessageView::Video { from, to }, text) == (RelayView::Deliver {
            to,
            sender: peers[to],
            text,
        }),
{
}

/// A message that is addressed to a name which nobody has is not delivered, and the name is
/// reported.
pub proof fn message_to_nobody_is_not_delivered(
    peers: Map<Seq<char>, u64>,
    to: Seq<char>,
    from: Seq<char>,
    sdp: Seq<char>,
    candidate: Seq<char>,
    sdp_mid: Option<Seq<char>>,
    sdp_mline_index: Option<u16>,
    text: Seq<char>,
)
    requires
        !peers.dom().contains(to),
    ensures
        delivery(peers, SignalMessageView::Offer { sdp, from, offer_to: to }, text) == (
        RelayView::Absent { to }),
        delivery(peers, SignalMessageView::Answer { sdp, from, answer_to: to }, text) == (
        RelayView::Absent { to }),
        delivery(
            peers,
            SignalMessageView::Candidate { candidate, sdp_mid, sdp_mline_index, from, to },
            text,
        ) == (RelayView::Absent { to }),
        delivery(peers, SignalMessageView::Video { from, to }, text) == (RelayView::Absent { to }),
{
}

/// Registrations and pings are for the server alone.
pub proof fn message_without_addressee_goes_nowhere(
    peers: Map<Seq<char>, u64>,
    message: SignalMessageView,
    text: Seq<char>,
)
    requires
        message is Register || message is Ping,
    ensures
        delivery(peers, message, text) == RelayView::Nothing,
{
}

/// Whom a message binds to its socket. An offer binds its sender's name, in place of the name
/// that the socket had; a registration binds its name where the socket has none; nothing else
/// binds a name.
pub proof fn message_binds_its_sender(
    peers: Map<Seq<char>, u64>,
    sender: u64,
    current: Option<Seq<char>>,
    from: Seq<char>,
    sdp: Seq<char>,
    offer_to: Seq<char>,
    other: SignalMessageView,
)
    requires
        !(other is Offer),
        !(other is Register),
    ensures
        ({
            let offer = SignalMessageView::Offer { sdp, from, offer_to };
            let registration = SignalMessageView::Register { from };
            &&& peers_after(peers, sender, current, offer) == peers.insert(from, sender)
            &&& current_after(current, offer) == Some(from)
            &&& peers_after(peers, sender, None, registration) == peers.insert(from, sender)
            &&& current_after(None, registration) == Some(from)
            &&& current is Some ==> peers_after(peers, sender, current, registration) == peers
                && current_after(current, registration) == current
            &&& peers_after(peers, sender, current, other) == peers
            &&& current_after(current, other) == current
        }),
{
}

/// A socket's name is seen as it is.
pub proof fn session_is_seen_as_it_is(session: Session)
    ensures
        session.current() is Some <==> session.current_peer is Some,
        session.current_peer is Some ==> session.current() == Some(session.current_peer->0@),
{
}

/// A relay is seen as it is.
pub proof fn relay_is_seen_as_it_is(relay: Relay)
    ensures
        relay is Nothing <==> relay@ is Nothing,
        relay is Deliver <==> relay@ is Deliver,
        relay is Absent <==> relay@ is Absent,
        relay is Deliver ==> relay@->Deliver_to == relay->Deliver_to@ && relay@->Deliver_sender
            == relay->Deliver_sender && relay@->Deliver_text == relay->Deliver_text@,
        relay is Absent ==> relay@->Absent_to == relay->Absent_to@,
{
}

/// Peers are pinged every five seconds.
pub proof fn pings_are_frequent()
    ensures
        PING_INTERVAL == 5,
{
}

/// Once a viewer has sent an offer, an answer, a candidate or a video request addressed to
/// that viewer is delivered to the viewer's socket, whoever sends it.
pub proof fn reply_reaches_the_offerer(
    peers: Map<Seq<char>, u64>,
    viewer: u64,
    viewer_current: Option<Seq<char>>,
    offer: SignalMessageView,
    other: u64,
    other_current: Option<Seq<char>>,
    reply: SignalMessageView,
    text: Seq<char>,
)
    requires
        offer is Offer,
        reply is Answer || reply is Candidate || reply is Video,
        addressee(reply) == Some(offer->Offer_from),
    ensures
        ({
            let offered = peers_after(peers, viewer, viewer_current, offer);
            let replied = peers_after(offered, other, other_current, reply);
            delivery(replied, reply, text) == RelayView::Deliver {
                to: offer->Offer_from,
                sender: viewer,
                text,
            }
        }),
{
}

/// Once a peer without a name has registered, whatever is addressed to its name reaches its
/// socket until some socket claims that name anew.
pub proof fn registered_peer_is_reached(
    peers: Map<Seq<char>, u64>,
    registrant: u64,
    registration: SignalMessageView,
    other: u64,
    other_current: Option<Seq<char>>,
    message: SignalMessageView,
    text: Seq<char>,
)
    requires
        registration is Register,
        addressee(message) == Some(registration->Register_from),
        claimed_name(other_current, message) != Some(registration->Register_from),
    ensures
        ({
            let registered = peers_after(peers, registrant, None, registration);
            let sent = peers_after(registered, other, other_current, message);
            delivery(sent, message, text) == RelayView::Deliver {
                to: registration->Register_from,
                sender: registrant,
                text,
            }
        }),
{
}

/// A socket that has a name keeps it, and the peers stay as they are, whatever it registers
/// as.
pub proof fn named_socket_cannot_register(
    peers: Map<Seq<char>, u64>,
    sender: u64,
    current: Option<Seq<char>>,
    message: SignalMessageView,
)
    requires
        current is Some,
        message is Register,
    ensures
        peers_after(peers, sender, current, message) == peers,
        current_after(current, message) == current,
{
}

/// After a message, the name that the socket claimed leads to the socket, and no other name
/// has changed.
pub proof fn claim_binds_one_name(
    peers: Map<Seq<char>, u64>,
    sender: u64,
    current: Option<Seq<char>>,
    message: SignalMessageView,
)
    ensures
        ({
            let after = peers_after(peers, sender, current, message);
            let claimed = claimed_name(current, message);
            &&& claimed matches Some(name) ==> after.dom().contains(name) && after[name] == sender
                && current_after(current, message) == Some(name)
            &&& forall|name: Seq<char>|
                claimed != Some(name) ==> (#[trigger] after.dom().contains(name)
                    == peers.dom().contains(name)) && (peers.dom().contains(name) ==> after[name]
                    == peers[name])
        }),
{
}

/// A name that left with its socket is not reached any more.
pub proof fn departed_name_is_absent(
    peers: Map<Seq<char>, u64>,
    name: Seq<char>,
    message: SignalMessageView,
    text: Seq<char>,
)
    requires
        addressee(message) == Some(name),
    ensures
        delivery(peers.remove(name), message, text) == (RelayView::Absent { to: name }),
{
}

/// A socket that claims a name which nobody had, and then closes, leaves the peers as they
/// were.
pub proof fn leaving_undoes_the_claim(
    peers: Map<Seq<char>, u64>,
    sender: u64,
    current: Option<Seq<char>>,
    message: SignalMessageView,
    name: Seq<char>,
)
    requires
        claimed_name(current, message) == Some(name),
        !peers.dom().contains(name),
    ensures
        current_after(current, message) == Some(name),
        peers_after(peers, sender, current, message).remove(name) == peers,
{
    assert(peers_after(peers, sender, current, message).remove(name) =~= peers);
}

/// A round of pings that reach everybody changes nothing.
pub proof fn live_peers_stay(entries: Seq<(Seq<char>, u64)>, delivered: Seq<bool>)
    requires
        delivered.len() == entries.len(),
        forall|i: int| 0 <= i < delivered.len() ==> #[trigger] delivered[i],
    ensures
        kept(entries, delivered) == entries,
{
    lemma_all_kept(entries, delivered);
}

proof fn lemma_all_kept(entries: Seq<(Seq<char>, u64)>, keep: Seq<bool>)
    requires
        entries.len() <= keep.len(),
        forall|i: int| 0 <= i < keep.len() ==> #[trigger] keep[i],
    ensures
        kept(entries, keep) == entries,
    decreases entries.len(),
{
    if entries.len() > 0 {
        lemma_all_kept(entries.drop_last(), keep);
        assert(keep[entries.len() - 1]);
        assert(kept(entries, keep) =~= entries);
    } else {
        assert(kept(entries, keep) =~= entries);
    }
}

/// What can happen to the table of peers.
pub enum PeerEvent {
    /// A message comes in on the socket whose queue is `sender` and whose name is `current`.
    Message { sender: u64, current: Option<Seq<char>>, message: SignalMessageView },
    /// The socket whose name is `current` closes.
    Closed { current: Option<Seq<char>> },
    /// A round of pings does not reach these names.
    Unreached { names: Set<Seq<char>> },
}

/// The peers after an event.
pub open spec fn peers_after_event(
    peers: Map<Seq<char>, u64>,
    event: PeerEvent,
) -> Map<Seq<char>, u64> {
    match event {
        PeerEvent::Message { sender, current, message } => peers_after(
            peers,
            sender,
            current,
            message,
        ),
        PeerEvent::Closed { current } => match current {
            Some(id) => peers.remove(id),
            None => peers,
        },
        PeerEvent::Unreached { names } => peers.remove_keys(names),
    }
}

/// The peers after some events.
pub open spec fn peers_after_events(
    peers: Map<Seq<char>, u64>,
    events: Seq<PeerEvent>,
) -> Map<Seq<char>, u64>
    decreases events.len(),
{
    if events.len() == 0 {
        peers
    } else {
        peers_after_event(peers_after_events(peers, events.drop_last()), events.last())
    }
}

/// Whether an event can change what a name leads to.
pub open spec fn concerns(event: PeerEvent, name: Seq<char>) -> bool {
    match event {
        PeerEvent::Message { current, message, .. } => claimed_name(current, message) == Some(name),
        PeerEvent::Closed { current } => current == Some(name),
        PeerEvent::Unreached { names } => names.contains(name),
    }
}

/// A name leads to the same socket until some socket claims it, a socket of that name closes,
/// or a ping does not get through.
pub proof fn name_lasts(
    peers: Map<Seq<char>, u64>,
    events: Seq<PeerEvent>,
    name: Seq<char>,
)
    requires
        forall|i: int| 0 <= i < events.len() ==> !concerns(#[trigger] events[i], name),
    ensures
        peers_after_events(peers, events).dom().contains(name) == peers.dom().contains(name),
        peers.dom().contains(name) ==> peers_after_events(peers, events)[name] == peers[name],
    decreases events.len(),
{
    if events.len() > 0 {
        let init = events.drop_last();
        assert forall|i: int| 0 <= i < init.len() implies !concerns(#[trigger] init[i], name) by {
            assert(init[i] == events[i]);
        }
        name_lasts(peers, init, name);
        assert(!concerns(events[events.len() - 1], name));
    }
}

} // verus!
