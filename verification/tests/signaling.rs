use rusty_cam::camera_peer::{
    answer_message, audio_codec, candidate_message, handle_event, register_message, remote_offer,
    video_codec, CameraAction, IceCandidate, SocketEvent,
};
use rusty_cam::signaling_server::{
    after_reply, disconnect, handle_frame, handle_message, ping_text, Frame, Reaction, Relay,
    Session,
};
use rusty_cam::table::Table;
use rusty_cam::utils::{to_json, SignalMessage};
use rusty_cam::viewers::Viewers;

fn offer(from: &str, to: &str) -> SignalMessage {
    SignalMessage::Offer { sdp: "sdp".to_string(), from: from.to_string(), offer_to: to.to_string() }
}

fn send(peers: &mut Table, session: &mut Session, message: &SignalMessage) -> Relay {
    handle_message(peers, session, "the text".to_string(), message)
}

fn delivered_to(relay: Relay) -> Option<u64> {
    match relay {
        Relay::Deliver { sender, text, .. } => {
            assert_eq!(text, "the text");
            Some(sender)
        }
        _ => None,
    }
}

#[test]
fn offer_reaches_the_camera_and_the_answer_the_viewer() {
    let mut peers = Table::new();
    let mut camera = Session::new(1);
    let mut viewer = Session::new(2);
    assert!(matches!(send(&mut peers, &mut camera, &register_message()), Relay::Nothing));
    let relay = send(&mut peers, &mut viewer, &offer("v", "camera_peer"));
    assert_eq!(delivered_to(relay), Some(1));
    let answer = answer_message("reply".to_string(), "v".to_string());
    assert_eq!(delivered_to(send(&mut peers, &mut camera, &answer)), Some(2));
    let candidate = SignalMessage::Candidate {
        candidate: "c".to_string(),
        sdp_mid: None,
        sdp_mline_index: None,
        from: "camera_peer".to_string(),
        to: "v".to_string(),
    };
    assert_eq!(delivered_to(send(&mut peers, &mut camera, &candidate)), Some(2));
    let video = SignalMessage::Video { from: "v".to_string(), to: "camera_peer".to_string() };
    assert_eq!(delivered_to(send(&mut peers, &mut viewer, &video)), Some(1));
}

#[test]
fn message_for_an_unknown_peer_goes_nowhere() {
    let mut peers = Table::new();
    let mut viewer = Session::new(2);
    match send(&mut peers, &mut viewer, &offer("v", "camera_peer")) {
        Relay::Absent { to } => assert_eq!(to, "camera_peer"),
        _ => panic!("delivered"),
    }
    assert_eq!(peers.get(&"v".to_string()), Some(2));
    assert_eq!(viewer.current_peer, Some("v".to_string()));
}

#[test]
fn offer_to_oneself_comes_back() {
    let mut peers = Table::new();
    let mut viewer = Session::new(9);
    assert_eq!(delivered_to(send(&mut peers, &mut viewer, &offer("v", "v"))), Some(9));
}

#[test]
fn only_the_first_registration_counts() {
    let mut peers = Table::new();
    let mut session = Session::new(1);
    send(&mut peers, &mut session, &SignalMessage::Register { from: "a".to_string() });
    send(&mut peers, &mut session, &SignalMessage::Register { from: "b".to_string() });
    assert_eq!(session.current_peer, Some("a".to_string()));
    assert_eq!(peers.get(&"a".to_string()), Some(1));
    assert_eq!(peers.get(&"b".to_string()), None);
    assert_eq!(peers.len(), 1);
}

#[test]
fn offer_claims_a_name_over_a_registration() {
    let mut peers = Table::new();
    let mut session = Session::new(1);
    send(&mut peers, &mut session, &SignalMessage::Register { from: "a".to_string() });
    send(&mut peers, &mut session, &offer("b", "x"));
    assert_eq!(session.current_peer, Some("b".to_string()));
    assert_eq!(peers.get(&"a".to_string()), Some(1));
    assert_eq!(peers.get(&"b".to_string()), Some(1));
}

#[test]
fn name_moves_to_the_socket_that_claims_it() {
    let mut peers = Table::new();
    let mut first = Session::new(1);
    let mut second = Session::new(2);
    send(&mut peers, &mut first, &offer("v", "x"));
    send(&mut peers, &mut second, &offer("v", "x"));
    assert_eq!(peers.get(&"v".to_string()), Some(2));
    assert_eq!(peers.len(), 1);
}

#[test]
fn name_leaves_with_its_socket() {
    let mut peers = Table::new();
    let mut viewer = Session::new(2);
    let mut other = Session::new(3);
    send(&mut peers, &mut viewer, &offer("v", "x"));
    send(&mut peers, &mut other, &offer("w", "x"));
    assert_eq!(disconnect(&mut peers, &mut viewer), Some("v".to_string()));
    assert_eq!(viewer.current_peer, None);
    assert_eq!(peers.get(&"v".to_string()), None);
    assert_eq!(peers.get(&"w".to_string()), Some(3));
    let answer = answer_message("r".to_string(), "v".to_string());
    assert!(matches!(send(&mut peers, &mut other, &answer), Relay::Absent { .. }));
}

#[test]
fn socket_without_a_name_leaves_nothing_behind() {
    let mut peers = Table::new();
    let mut viewer = Session::new(2);
    let mut silent = Session::new(3);
    send(&mut peers, &mut viewer, &offer("v", "x"));
    assert_eq!(disconnect(&mut peers, &mut silent), None);
    assert_eq!(peers.get(&"v".to_string()), Some(2));
}

#[test]
fn untouched_name_lasts_through_other_traffic() {
    let mut peers = Table::new();
    let mut camera = Session::new(1);
    send(&mut peers, &mut camera, &register_message());
    for handle in 2u64..6 {
        let mut viewer = Session::new(handle);
        send(&mut peers, &mut viewer, &offer("v", "camera_peer"));
        disconnect(&mut peers, &mut viewer);
    }
    assert_eq!(peers.get(&"camera_peer".to_string()), Some(1));
    assert_eq!(peers.len(), 1);
}

#[test]
fn pings_are_answered_in_kind() {
    let mut peers = Table::new();
    let mut session = Session::new(1);
    match handle_frame(&mut peers, &mut session, Frame::Ping { payload: vec![1, 2, 3] }) {
        Reaction::Reply { payload } => assert_eq!(payload, vec![1, 2, 3]),
        _ => panic!("no reply"),
    }
    assert!(matches!(after_reply(true), Reaction::Continue));
    assert!(matches!(after_reply(false), Reaction::Stop));
}

#[test]
fn other_frames_change_nothing() {
    let mut peers = Table::new();
    let mut session = Session::new(1);
    let noise = Frame::Text { text: "noise".to_string(), message: None };
    assert!(matches!(handle_frame(&mut peers, &mut session, noise), Reaction::Continue));
    assert!(matches!(handle_frame(&mut peers, &mut session, Frame::Pong), Reaction::Continue));
    assert!(matches!(handle_frame(&mut peers, &mut session, Frame::Binary), Reaction::Continue));
    assert!(matches!(handle_frame(&mut peers, &mut session, Frame::Close), Reaction::Stop));
    assert_eq!(peers.len(), 0);
    assert_eq!(session.current_peer, None);
}

#[test]
fn message_frame_is_passed_on() {
    let mut peers = Table::new();
    let mut session = Session::new(1);
    let frame = Frame::Text { text: "the text".to_string(), message: Some(offer("v", "v")) };
    match handle_frame(&mut peers, &mut session, frame) {
        Reaction::Pass(relay) => assert_eq!(delivered_to(relay), Some(1)),
        _ => panic!("not passed on"),
    }
}

#[test]
fn keep_alive_message_goes_nowhere() {
    let mut peers = Table::new();
    let mut session = Session::new(1);
    let ping = SignalMessage::Ping { t: "ping".to_string() };
    assert!(matches!(send(&mut peers, &mut session, &ping), Relay::Nothing));
    assert_eq!(peers.len(), 0);
}

#[test]
fn ping_text_is_a_ping_message() {
    assert_eq!(ping_text(), "{ \"t\": \"ping\"}");
    let value = to_json(&ping_text());
    let object = value.as_object().unwrap();
    assert_eq!(object.len(), 1);
    assert_eq!(object["t"], serde_json::Value::String("ping".to_string()));
}

fn three_peers() -> Table {
    let mut peers = Table::new();
    peers.insert("a".to_string(), 1);
    peers.insert("b".to_string(), 2);
    peers.insert("c".to_string(), 3);
    peers
}

#[test]
fn peers_that_a_ping_does_not_reach_are_removed() {
    let mut peers = three_peers();
    let reached: Vec<bool> = peers.handles().iter().map(|handle| *handle != 2).collect();
    assert_eq!(peers.retain(&reached), vec!["b".to_string()]);
    assert_eq!(peers.get(&"a".to_string()), Some(1));
    assert_eq!(peers.get(&"b".to_string()), None);
    assert_eq!(peers.get(&"c".to_string()), Some(3));
}

#[test]
fn peers_that_a_ping_reaches_stay() {
    let mut peers = three_peers();
    assert_eq!(peers.retain(&vec![true, true, true]), Vec::<String>::new());
    assert_eq!(peers.len(), 3);
    assert_eq!(peers.ids().len(), 3);
    assert_eq!(peers.remove(&"b".to_string()), Some(2));
    assert_eq!(peers.remove(&"b".to_string()), None);
}

#[test]
fn camera_serves_an_offer() {
    let mut viewers = Viewers::new();
    let event = SocketEvent::Text { message: Some(offer("v", "camera_peer")) };
    match handle_event(&mut viewers, event) {
        CameraAction::Serve { to_close, from, sdp } => {
            assert!(to_close.is_empty());
            assert_eq!(from, "v");
            assert_eq!(sdp, "sdp");
        }
        _ => panic!("not served"),
    }
    assert!(viewers.has_room_for(&"v".to_string()));
    viewers.let_in("v".to_string(), 5);
    assert!(!viewers.has_room_for(&"v".to_string()));
}

fn candidate_from(from: &str) -> SocketEvent {
    SocketEvent::Text {
        message: Some(SignalMessage::Candidate {
            candidate: "c".to_string(),
            sdp_mid: Some("0".to_string()),
            sdp_mline_index: Some(1),
            from: from.to_string(),
            to: "camera_peer".to_string(),
        }),
    }
}

#[test]
fn candidate_goes_to_its_viewers_connection() {
    let mut viewers = Viewers::new();
    viewers.let_in("v".to_string(), 5);
    match handle_event(&mut viewers, candidate_from("v")) {
        CameraAction::AddCandidate { connection, from, candidate } => {
            assert_eq!(connection, 5);
            assert_eq!(from, "v");
            assert_eq!(candidate.candidate, "c");
            assert_eq!(candidate.sdp_mid, None);
            assert_eq!(candidate.sdp_mline_index, None);
            assert_eq!(candidate.username_fragment, None);
        }
        _ => panic!("not added"),
    }
}

#[test]
fn candidate_of_an_unknown_viewer_is_dropped() {
    let mut viewers = Viewers::new();
    match handle_event(&mut viewers, candidate_from("w")) {
        CameraAction::UnknownViewer { from } => assert_eq!(from, "w"),
        _ => panic!("known"),
    }
}

#[test]
fn camera_passes_over_everything_else() {
    let mut viewers = Viewers::new();
    let ping = SocketEvent::Text { message: Some(SignalMessage::Ping { t: "ping".to_string() }) };
    assert!(matches!(handle_event(&mut viewers, ping), CameraAction::Continue));
    let noise = SocketEvent::Text { message: None };
    assert!(matches!(handle_event(&mut viewers, noise), CameraAction::Continue));
    assert!(matches!(handle_event(&mut viewers, SocketEvent::Other), CameraAction::Continue));
    assert!(matches!(handle_event(&mut viewers, SocketEvent::Close), CameraAction::Stop));
}

#[test]
fn camera_messages_carry_its_name() {
    assert_eq!(register_message(), SignalMessage::Register { from: "camera_peer".to_string() });
    assert_eq!(
        answer_message("s".to_string(), "v".to_string()),
        SignalMessage::Answer {
            sdp: "s".to_string(),
            from: "camera_peer".to_string(),
            answer_to: "v".to_string(),
        }
    );
    let found = IceCandidate {
        candidate: "c".to_string(),
        sdp_mid: Some("0".to_string()),
        sdp_mline_index: Some(1),
        username_fragment: Some("u".to_string()),
    };
    assert_eq!(
        candidate_message(Some(found), "v".to_string()),
        Some(SignalMessage::Candidate {
            candidate: "c".to_string(),
            sdp_mid: Some("0".to_string()),
            sdp_mline_index: Some(1),
            from: "camera_peer".to_string(),
            to: "v".to_string(),
        })
    );
    assert_eq!(candidate_message(None, "v".to_string()), None);
}

#[test]
fn session_description_is_checked() {
    let sdp = "v=0\r\no=- 0 0 IN IP4 127.0.0.1\r\ns=-\r\nt=0 0\r\n";
    let description = remote_offer(sdp.to_string()).unwrap();
    assert_eq!(description.sdp, sdp);
    assert!(remote_offer("not a description".to_string()).is_none());
    assert!(remote_offer("v=1\r\n".to_string()).is_none());
}

#[test]
fn codecs_are_those_of_the_tracks() {
    let video = video_codec();
    assert_eq!(video.mime_type, "video/H264");
    assert_eq!(video.clock_rate, 90000);
    assert_eq!(video.channels, 0);
    assert_eq!(
        video.sdp_fmtp_line,
        "level-asymmetry-allowed=1;packetization-mode=1;profile-level-id=42e01f"
    );
    let audio = audio_codec();
    assert_eq!(audio.mime_type, "audio/opus");
    assert_eq!(audio.clock_rate, 48000);
    assert_eq!(audio.channels, 2);
    assert_eq!(audio.sdp_fmtp_line, "");
}

#[test]
fn claim_is_undone_when_its_socket_leaves() {
    let mut peers = three_peers();
    let mut viewer = Session::new(9);
    send(&mut peers, &mut viewer, &offer("v", "a"));
    assert_eq!(peers.len(), 4);
    disconnect(&mut peers, &mut viewer);
    assert_eq!(peers.len(), 3);
    assert_eq!(peers.get(&"a".to_string()), Some(1));
    assert_eq!(peers.get(&"b".to_string()), Some(2));
    assert_eq!(peers.get(&"c".to_string()), Some(3));
}
