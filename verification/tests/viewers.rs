use rusty_cam::handles::Handles;
use rusty_cam::viewers::{ConnectionState, Viewers, MAX_VIEWERS};

fn serve(viewers: &mut Viewers, from: &str, connection: u64) -> Vec<u64> {
    let from = from.to_string();
    let to_close = viewers.make_room(&from);
    assert!(viewers.has_room_for(&from));
    viewers.let_in(from, connection);
    to_close
}

fn connection(viewers: &Viewers, from: &str) -> Option<u64> {
    viewers.connection(&from.to_string())
}

#[test]
fn two_viewers_fit() {
    assert_eq!(MAX_VIEWERS, 2);
    let mut viewers = Viewers::new();
    assert!(serve(&mut viewers, "a", 1).is_empty());
    assert!(serve(&mut viewers, "b", 2).is_empty());
    assert_eq!(connection(&viewers, "a"), Some(1));
    assert_eq!(connection(&viewers, "b"), Some(2));
    assert!(!viewers.has_room_for(&"c".to_string()));
}

#[test]
fn newcomer_takes_the_place_of_the_oldest() {
    let mut viewers = Viewers::new();
    serve(&mut viewers, "a", 1);
    serve(&mut viewers, "b", 2);
    assert_eq!(serve(&mut viewers, "c", 3), vec![1]);
    assert_eq!(connection(&viewers, "a"), None);
    assert_eq!(connection(&viewers, "b"), Some(2));
    assert_eq!(connection(&viewers, "c"), Some(3));
    assert_eq!(serve(&mut viewers, "d", 4), vec![2]);
}

#[test]
fn returning_viewer_replaces_only_itself() {
    let mut viewers = Viewers::new();
    serve(&mut viewers, "a", 1);
    serve(&mut viewers, "b", 2);
    assert_eq!(serve(&mut viewers, "a", 3), vec![1]);
    assert_eq!(connection(&viewers, "a"), Some(3));
    assert_eq!(connection(&viewers, "b"), Some(2));
    assert_eq!(serve(&mut viewers, "c", 4), vec![2]);
}

#[test]
fn ended_connection_takes_its_viewer_out() {
    for state in vec![ConnectionState::Closed, ConnectionState::Failed] {
        let mut viewers = Viewers::new();
        serve(&mut viewers, "a", 1);
        serve(&mut viewers, "b", 2);
        assert!(viewers.connection_changed(&"a".to_string(), 1, state));
        assert_eq!(connection(&viewers, "a"), None);
        assert!(serve(&mut viewers, "c", 3).is_empty());
        assert_eq!(connection(&viewers, "b"), Some(2));
    }
}

#[test]
fn other_states_change_nothing() {
    let mut viewers = Viewers::new();
    serve(&mut viewers, "a", 1);
    for state in vec![
        ConnectionState::Unspecified,
        ConnectionState::New,
        ConnectionState::Connecting,
        ConnectionState::Connected,
        ConnectionState::Disconnected,
    ] {
        assert!(!viewers.connection_changed(&"a".to_string(), 1, state));
        assert_eq!(connection(&viewers, "a"), Some(1));
    }
}

#[test]
fn replaced_connection_does_not_take_the_replacement_out() {
    let mut viewers = Viewers::new();
    serve(&mut viewers, "a", 1);
    serve(&mut viewers, "a", 2);
    assert!(!viewers.connection_changed(&"a".to_string(), 1, ConnectionState::Closed));
    assert_eq!(connection(&viewers, "a"), Some(2));
    assert!(!viewers.connection_changed(&"z".to_string(), 1, ConnectionState::Closed));
}

#[test]
fn viewer_may_leave_while_another_comes() {
    let mut viewers = Viewers::new();
    serve(&mut viewers, "a", 1);
    serve(&mut viewers, "b", 2);
    let from = "c".to_string();
    assert_eq!(viewers.make_room(&from), vec![1]);
    assert!(viewers.connection_changed(&"b".to_string(), 2, ConnectionState::Failed));
    viewers.let_in(from, 3);
    assert_eq!(connection(&viewers, "b"), None);
    assert_eq!(connection(&viewers, "c"), Some(3));
    assert!(serve(&mut viewers, "d", 4).is_empty());
}

#[test]
fn handles_are_given_out_once() {
    let mut handles = Handles::new();
    assert_eq!(handles.fresh(), Some(1));
    assert_eq!(handles.fresh(), Some(2));
    assert_eq!(handles.fresh(), Some(3));
    assert_eq!(Handles::new().fresh(), Some(1));
}

#[test]
fn replacement_outlives_every_earlier_connection() {
    let mut handles = Handles::new();
    let mut viewers = Viewers::new();
    let mut earlier = Vec::new();
    for _ in 0..4 {
        let connection = handles.fresh().unwrap();
        serve(&mut viewers, "a", connection);
        for stale in &earlier {
            for state in vec![ConnectionState::Closed, ConnectionState::Failed] {
                assert!(!viewers.connection_changed(&"a".to_string(), *stale, state));
            }
        }
        assert_eq!(self::connection(&viewers, "a"), Some(connection));
        earlier.push(connection);
    }
}
