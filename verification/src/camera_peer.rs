//! What the camera does with the messages of the signaling server.

use vstd::prelude::*;

use crate::signaling_server::{delivery, peers_after, RelayView};
use crate::utils::{opt_chars, SignalMessage, SignalMessageView};
use crate::viewers::{room_is_made, Viewers, ViewersView, MAX_VIEWERS};

verus! {

/// The name that the camera goes by at the signaling server.
pub const CAMERA_PEER: &'static str = "camera_peer";

/// Where the camera finds the signaling server.
pub const SERVER_URL: &'static str = "ws://127.0.0.1:3000/ws";

/// The payload type under which H.264 is registered besides the default codecs.
pub const H264_PAYLOAD_TYPE: u8 = 109;

/// `webrtc`'s session description.
#[verifier::external_type_specification]
#[verifier::external_body]
pub struct ExSessionDescription(
    webrtc::peer_connection::sdp::session_description::RTCSessionDescription,
);

/// `webrtc`'s error.
#[verifier::external_type_specification]
#[verifier::external_body]
pub struct ExWebrtcError(webrtc::Error);

/// The offer that `webrtc` makes of a session description's text; `None` where the text is no
/// session description.
pub uninterp spec fn parsed_offer(sdp: Seq<char>) -> Option<
    webrtc::peer_connection::sdp::session_description::RTCSessionDescription,
>;

/// Calls `RTCSessionDescription::offer`, which keeps the text, marks it as an offer and parses
/// it. Claims that the outcome depends on the text alone: the description under the name
/// `parsed_offer` on success, none there on failure. Nothing is said of which error comes back.
#[verifier::external_body]
fn parse_offer(sdp: String) -> (parsed: Result<
    webrtc::peer_connection::sdp::session_description::RTCSessionDescription,
    webrtc::Error,
>)
    ensures
        parsed matches Ok(description) ==> parsed_offer(sdp@) == Some(description),
        parsed is Err ==> parsed_offer(sdp@) is None,
{
    webrtc::peer_connection::sdp::session_description::RTCSessionDescription::offer(sdp)
}

/// The offer that a viewer's session description is; `None` where it is none.
pub fn remote_offer(sdp: String) -> (offer: Option<
    webrtc::peer_connection::sdp::session_description::RTCSessionDescription,
>)
    ensures
        offer == parsed_offer(sdp@),
{
    match parse_offer(sdp) {
        Ok(description) => Some(description),
        Err(_) => None,
    }
}

/// A codec that a track is encoded with.
pub struct CodecSettings {
    pub mime_type: String,
    pub clock_rate: u32,
    pub channels: u16,
    pub sdp_fmtp_line: String,
}

/// The codec of the video track.
pub fn video_codec() -> (codec: CodecSettings)
    ensures
        codec.mime_type@ == "video/H264"@,
        codec.clock_rate == 90000,
        codec.channels == 0,
        codec.sdp_fmtp_line@
            == "level-asymmetry-allowed=1;packetization-mode=1;profile-level-id=42e01f"@,
{
    CodecSettings {
        mime_type: "video/H264".to_string(),
        clock_rate: 90000,
        channels: 0,
        sdp_fmtp_line:
            "level-asymmetry-allowed=1;packetization-mode=1;profile-level-id=42e01f".to_string(),
    }
}

/// The codec of the audio track.
pub fn audio_codec() -> (codec: CodecSettings)
    ensures
        codec.mime_type@ == "audio/opus"@,
        codec.clock_rate == 48000,
        codec.channels == 2,
        codec.sdp_fmtp_line@ == Seq::<char>::empty(),
{
    CodecSettings {
        mime_type: "audio/opus".to_string(),
        clock_rate: 48000,
        channels: 2,
        sdp_fmtp_line: String::new(),
    }
}

/// An ICE candidate as it is handed to a connection.
pub struct IceCandidate {
    pub candidate: String,
    pub sdp_mid: Option<String>,
    pub sdp_mline_index: Option<u16>,
    pub username_fragment: Option<String>,
}

/// The message with which the camera makes itself known.
pub fn register_message() -> (message: SignalMessage)
    ensures
        message@ == (SignalMessageView::Register { from: CAMERA_PEER@ }),
{
    SignalMessage::Register { from: CAMERA_PEER.to_string() }
}

/// The answer to the offer of the viewer `to`.
pub fn answer_message(sdp: String, to: String) -> (message: SignalMessage)
    ensures
        message@ == (SignalMessageView::Answer { sdp: sdp@, from: CAMERA_PEER@, answer_to: to@ }),
{
    SignalMessage::Answer { sdp, from: CAMERA_PEER.to_string(), answer_to: to }
}

/// The message that carries a candidate of the camera to the viewer `to`. There is none where
/// the connection has no further candidate, or none that can be written down.
pub fn candidate_message(found: Option<IceCandidate>, to: String) -> (message: Option<
    SignalMessage,
>)
    ensures
        match found {
            Some(ice) => message matches Some(m) && m@ == (SignalMessageView::Candidate {
                candidate: ice.candidate@,
                sdp_mid: opt_chars(ice.sdp_mid),
                sdp_mline_index: ice.sdp_mline_index,
                from: CAMERA_PEER@,
                to: to@,
            }),
            None => message is None,
        },
{
    match found {
        Some(ice) => Some(
            SignalMessage::Candidate {
                candidate: ice.candidate,
                sdp_mid: ice.sdp_mid,
                sdp_mline_index: ice.sdp_mline_index,
                from: CAMERA_PEER.to_string(),
                to,
            },
        ),
        None => None,
    }
}

/// What came in on the camera's socket.
pub enum SocketEvent {
    /// A text, with the message that it is, if it is one.
    Text { message: Option<SignalMessage> },
    Close,
    /// A frame of another kind, or a failed read.
    Other,
}

/// What is to be done about an event on the camera's socket.
pub enum CameraAction {
    /// Read on.
    Continue,
    /// Stop reading.
    Stop,
    /// Close the connections `to_close`, in this order; then set up a connection for the viewer
    /// `from` with the session description `sdp`, and let the viewer in.
    Serve { to_close: Vec<u64>, from: String, sdp: String },
    /// Hand a candidate of the viewer `from` to the viewer's connection.
    AddCandidate { connection: u64, from: String, candidate: IceCandidate },
    /// A candidate of `from`, which has no connection: read on.
    UnknownViewer { from: String },
}

/// What a message makes the camera do.
pub open spec fn action_for(
    viewers: ViewersView,
    message: SignalMessageView,
    action: CameraAction,
) -> bool {
    match message {
        SignalMessageView::Offer { sdp, from, .. } => {
            action matches CameraAction::Serve { to_close, from: f, sdp: s } && to_close@
                == viewers.closed_for(from) && f@ == from && s@ == sdp
        },
        SignalMessageView::Candidate { candidate, from, .. } => if viewers.connections.dom().contains(
            from,
        ) {
            action matches CameraAction::AddCandidate { connection, from: f, candidate: ice }
                && connection == viewers.connections[from] && f@ == from && ice.candidate@
                == candidate && ice.sdp_mid is None && ice.sdp_mline_index is None
                && ice.username_fragment is None
        } else {
            action matches CameraAction::UnknownViewer { from: f } && f@ == from
        },
        _ => action is Continue,
    }
}

/// The viewers after a message: an offer makes room for its sender.
pub open spec fn viewers_after(
    viewers: ViewersView,
    message: SignalMessageView,
) -> ViewersView {
    match message {
        SignalMessageView::Offer { from, .. } => viewers.with_room_for(from),
        _ => viewers,
    }
}

/// Handles an event on the camera's socket. A text that is no message is passed over. After an
/// offer its sender can be let in.
pub fn handle_event(viewers: &mut Viewers, event: SocketEvent) -> (action: CameraAction)
    requires
        old(viewers).wf(),
    ensures
        final(viewers).wf(),
        match event {
            SocketEvent::Text { message: Some(message) } => {
                &&& final(viewers)@ == viewers_after(old(viewers)@, message@)
                &&& action_for(old(viewers)@, message@, action)
                &&& message@ matches SignalMessageView::Offer { from, .. }
                    ==> !final(viewers)@.connections.dom().contains(from)
                    && final(viewers)@.order.len() < MAX_VIEWERS
            },
            SocketEvent::Close => final(viewers)@ == old(viewers)@ && action is Stop,
            _ => final(viewers)@ == old(viewers)@ && action is Continue,
        },
        event matches SocketEvent::Text { message: Some(SignalMessage::Offer { sdp, from, .. }) }
            ==> {
            let before = old(viewers)@;
            let after = final(viewers)@;
            &&& action matches CameraAction::Serve { to_close, from: f, sdp: s } && f@ == from@
                && s@ == sdp@ && (before.connections.dom().contains(from@) ==> to_close@
                == seq![before.connections[from@]] && after.order == before.order.remove(
                before.order.index_of(from@),
            )) && (!before.connections.dom().contains(from@) && before.order.len()
                == MAX_VIEWERS ==> to_close@ == seq![before.connections[before.order[0]]]
                && after.order == before.order.remove(0)) && (
            !before.connections.dom().contains(from@) && before.order.len() < MAX_VIEWERS
                ==> to_close@ == Seq::<u64>::empty() && after == before) && (forall|
                id: Seq<char>,
            | #[trigger]
                before.connections.dom().contains(id) && !after.connections.dom().contains(id)
                    ==> to_close@.contains(before.connections[id])) && (forall|c: u64| #[trigger]
                to_close@.contains(c) ==> exists|id: Seq<char>| #[trigger]
                    before.connections.dom().contains(id) && !after.connections.dom().contains(id)
                        && before.connections[id] == c)
            &&& forall|id: Seq<char>| #[trigger]
                after.connections.dom().contains(id) ==> before.connections.dom().contains(id)
                    && after.connections[id] == before.connections[id]
        },
        event matches SocketEvent::Text {
            message: Some(SignalMessage::Candidate { candidate, from, .. }),
        } ==> final(viewers)@ == old(viewers)@ && if old(viewers)@.connections.dom().contains(
            from@,
        ) {
            action matches CameraAction::AddCandidate { connection, from: f, candidate: ice }
                && connection == old(viewers)@.connections[from@] && f@ == from@
                && ice.candidate@ == candidate@ && ice.sdp_mid is None
                && ice.sdp_mline_index is None && ice.username_fragment is None
        } else {
            action matches CameraAction::UnknownViewer { from: f } && f@ == from@
        },
        event matches SocketEvent::Text { message: Some(message) } && !(message is Offer)
            && !(message is Candidate) ==> final(viewers)@ == old(viewers)@ && action is Continue,
{
    let message = match event {
        SocketEvent::Text { message: Some(message) } => message,
        SocketEvent::Text { message: None } => return CameraAction::Continue,
        SocketEvent::Close => return CameraAction::Stop,
        SocketEvent::Other => return CameraAction::Continue,
    };
    match message {
        SignalMessage::Offer { sdp, from, .. } => {
            let to_close = viewers.make_room(&from);
            CameraAction::Serve { to_close, from, sdp }
        },
        SignalMessage::Candidate { candidate, from, .. } => {
            match viewers.connection(&from) {
                Some(connection) => CameraAction::AddCandidate {
                    connection,
                    from,
                    candidate: IceCandidate {
                        candidate,
                        sdp_mid: None,
                        sdp_mline_index: None,
                        username_fragment: None,
                    },
                },
                None => CameraAction::UnknownViewer { from },
            }
        },
        _ => CameraAction::Continue,
    }
}

/// An offer has the camera serve its sender with the offered description, and close the
/// connections of exactly those viewers that it takes out: the sender's own earlier one, or that
/// of the viewer served longest where a newcomer finds the table full, or none.
pub proof fn offer_is_served(
    viewers: ViewersView,
    sdp: Seq<char>,
    from: Seq<char>,
    offer_to: Seq<char>,
    action: CameraAction,
)
    requires
        viewers.consistent(),
        viewers.order.len() <= MAX_VIEWERS,
        action_for(viewers, SignalMessageView::Offer { sdp, from, offer_to }, action),
    ensures
        action is Serve,
        action->Serve_from@ == from,
        action->Serve_sdp@ == sdp,
        ({
            let after = viewers_after(viewers, SignalMessageView::Offer { sdp, from, offer_to });
            let closed = action->Serve_to_close@;
            &&& viewers.connections.dom().contains(from) ==> closed
                == seq![viewers.connections[from]] && after.connections
                == viewers.connections.remove(from)
            &&& !viewers.connections.dom().contains(from) && viewers.order.len() == MAX_VIEWERS
                ==> closed == seq![viewers.connections[viewers.order[0]]] && after.connections
                == viewers.connections.remove(viewers.order[0])
            &&& !viewers.connections.dom().contains(from) && viewers.order.len() < MAX_VIEWERS
                ==> closed == Seq::<u64>::empty() && after == viewers
            &&& forall|id: Seq<char>| #[trigger]
                viewers.connections.dom().contains(id) && !after.connections.dom().contains(id)
                    ==> closed.contains(viewers.connections[id])
        }),
{
    room_is_made(viewers, from);
}

/// A candidate goes, as it was sent, to the connection of its sender; the candidate of somebody
/// who is not served goes nowhere. Nobody's place changes.
pub proof fn candidate_goes_to_its_senders_connection(
    viewers: ViewersView,
    candidate: Seq<char>,
    sdp_mid: Option<Seq<char>>,
    sdp_mline_index: Option<u16>,
    from: Seq<char>,
    to: Seq<char>,
    action: CameraAction,
)
    requires
        action_for(
            viewers,
            SignalMessageView::Candidate { candidate, sdp_mid, sdp_mline_index, from, to },
            action,
        ),
    ensures
        viewers.connections.dom().contains(from) ==> action is AddCandidate
            && action->AddCandidate_connection == viewers.connections[from]
            && action->AddCandidate_from@ == from
            && action->AddCandidate_candidate.candidate@ == candidate
            && action->AddCandidate_candidate.sdp_mid is None
            && action->AddCandidate_candidate.sdp_mline_index is None
            && action->AddCandidate_candidate.username_fragment is None,
        !viewers.connections.dom().contains(from) ==> action is UnknownViewer
            && action->UnknownViewer_from@ == from,
        viewers_after(
            viewers,
            SignalMessageView::Candidate { candidate, sdp_mid, sdp_mline_index, from, to },
        ) == viewers,
{
}

/// Messages that are neither offers nor candidates are passed over.
pub proof fn other_messages_are_passed_over(
    viewers: ViewersView,
    message: SignalMessageView,
    action: CameraAction,
)
    requires
        !(message is Offer),
        !(message is Candidate),
        action_for(viewers, message, action),
    ensures
        action is Continue,
        viewers_after(viewers, message) == viewers,
{
}

/// The camera goes by the name that viewers address, looks for the server where it listens, and
/// registers H.264 under a payload type that is free for dynamic use.
pub proof fn camera_is_where_viewers_expect_it()
    ensures
        CAMERA_PEER@ == "camera_peer"@,
        SERVER_URL@ == "ws://127.0.0.1:3000/ws"@,
        crate::signaling_server::PORT == 3000,
        H264_PAYLOAD_TYPE == 109,
        96 <= H264_PAYLOAD_TYPE <= 127,
{
}

/// A candidate of a viewer that has been let in goes to the connection that was made for that
/// viewer.
pub proof fn candidate_follows_its_viewer(
    viewers: ViewersView,
    from: Seq<char>,
    connection: u64,
    message: SignalMessageView,
    action: CameraAction,
)
    requires
        message is Candidate,
        message->Candidate_from == from,
        action_for(viewers.with_viewer(from, connection), message, action),
    ensures
        action is AddCandidate,
        action->AddCandidate_connection == connection,
        action->AddCandidate_candidate.candidate@ == message->Candidate_candidate,
{
}

/// An offer that a viewer addresses to the registered camera reaches the camera, and the answer
/// and the candidates that the camera addresses to the viewer reach the viewer. The viewer must
/// not go by the camera's own name.
pub proof fn offer_and_answer_meet(
    peers: Map<Seq<char>, u64>,
    camera: u64,
    camera_current: Option<Seq<char>>,
    viewer: u64,
    viewer_current: Option<Seq<char>>,
    from: Seq<char>,
    sdp: Seq<char>,
    answer_sdp: Seq<char>,
    candidate: SignalMessageView,
    text: Seq<char>,
)
    requires
        peers.dom().contains(CAMERA_PEER@),
        peers[CAMERA_PEER@] == camera,
        from != CAMERA_PEER@,
        candidate is Candidate,
        candidate->Candidate_to == from,
    ensures
        ({
            let offer = SignalMessageView::Offer { sdp, from, offer_to: CAMERA_PEER@ };
            let answer = SignalMessageView::Answer {
                sdp: answer_sdp,
                from: CAMERA_PEER@,
                answer_to: from,
            };
            let offered = peers_after(peers, viewer, viewer_current, offer);
            let answered = peers_after(offered, camera, camera_current, answer);
            let trickled = peers_after(answered, camera, camera_current, candidate);
            &&& delivery(offered, offer, text) == RelayView::Deliver {
                to: CAMERA_PEER@,
                sender: camera,
                text,
            }
            &&& delivery(answered, answer, text) == RelayView::Deliver {
                to: from,
                sender: viewer,
                text,
            }
            &&& delivery(trickled, candidate, text) == RelayView::Deliver {
                to: from,
                sender: viewer,
                text,
            }
        }),
{
}

} // verus!
