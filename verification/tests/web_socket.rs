use std::collections::HashSet;

use sshx::ids::{Sid, Uid};
use sshx::protocol::{ServerMessage, WsClient, WsServer, WsWinsize};
use sshx::session::{Metadata, Session};
use sshx::web::{
    authenticate, error_frame, handle_message, join_token, not_found_frame, request_token,
    list_directory_route, session_list_authorized, upload_file_route, upstream_url, FileRoute,
    SocketAction,
    CLOSE_ERROR, CLOSE_NOT_FOUND,
};

type Plain = Session<(), (), ()>;

fn meta(password: Option<Vec<u8>>) -> Metadata {
    Metadata {
        encrypted_zeros: vec![1, 2, 3],
        name: "room".to_string(),
        write_password_hash: password,
    }
}

#[test]
fn authenticate_without_password() {
    let m = meta(None);
    assert_eq!(authenticate(&m, Some(WsClient::Authenticate(vec![1, 2, 3], None))), Some(true));
    assert_eq!(
        authenticate(&m, Some(WsClient::Authenticate(vec![1, 2, 3], Some(vec![9])))),
        Some(true)
    );
    assert_eq!(authenticate(&m, Some(WsClient::Authenticate(vec![1, 2], None))), None);
    assert_eq!(authenticate(&m, Some(WsClient::Authenticate(vec![1, 2, 4], None))), None);
    assert_eq!(authenticate(&m, Some(WsClient::Ping(1))), None);
    assert_eq!(authenticate(&m, None), None);
}

#[test]
fn authenticate_with_password() {
    let m = meta(Some(vec![5, 5]));
    assert_eq!(authenticate(&m, Some(WsClient::Authenticate(vec![1, 2, 3], None))), Some(false));
    assert_eq!(
        authenticate(&m, Some(WsClient::Authenticate(vec![1, 2, 3], Some(vec![5, 5])))),
        Some(true)
    );
    assert_eq!(
        authenticate(&m, Some(WsClient::Authenticate(vec![1, 2, 3], Some(vec![5])))),
        None
    );
    assert_eq!(
        authenticate(&m, Some(WsClient::Authenticate(vec![0, 2, 3], Some(vec![5, 5])))),
        None
    );
}

fn session_with(can_write: bool) -> Plain {
    let mut s = Plain::new(meta(None));
    s.user_scope(Uid(1), can_write).unwrap();
    s
}

#[test]
fn set_name_broadcasts_unless_empty() {
    let mut s = session_with(true);
    let mut subs = HashSet::new();
    let r = handle_message(&mut s, Uid(1), &mut subs, WsClient::SetName(String::new())).unwrap();
    assert!(r.is_empty());
    let r = handle_message(&mut s, Uid(1), &mut subs, WsClient::SetName("bob".into())).unwrap();
    assert_eq!(r.len(), 1);
    match &r[0] {
        SocketAction::Broadcast(WsServer::UserDiff(Uid(1), Some(u))) => assert_eq!(u.name, "bob"),
        other => panic!("unexpected {other:?}"),
    }
    assert!(handle_message(&mut s, Uid(2), &mut subs, WsClient::SetCursor(None)).is_err());
}

#[test]
fn create_needs_write_access() {
    let mut s = session_with(false);
    let mut subs = HashSet::new();
    let r = handle_message(&mut s, Uid(1), &mut subs, WsClient::Create(1, 2)).unwrap();
    match &r[..] {
        [SocketAction::Send(WsServer::Error(e))] => assert_eq!(e, "No write permission"),
        other => panic!("unexpected {other:?}"),
    }
    let mut s = session_with(true);
    let r = handle_message(&mut s, Uid(1), &mut subs, WsClient::Create(1, 2)).unwrap();
    match &r[..] {
        [SocketAction::SyncNow, SocketAction::Backend(ServerMessage::CreateShell(n))] => {
            assert_eq!((n.id, n.x, n.y), (1, 1, 2));
        }
        other => panic!("unexpected {other:?}"),
    }
    let r = handle_message(&mut s, Uid(1), &mut subs, WsClient::Create(0, 0)).unwrap();
    assert!(matches!(&r[1], SocketAction::Backend(ServerMessage::CreateShell(n)) if n.id == 2));
}

#[test]
fn close_and_data_go_to_the_terminal() {
    let mut s = session_with(true);
    let mut subs = HashSet::new();
    let r = handle_message(&mut s, Uid(1), &mut subs, WsClient::Close(Sid(4))).unwrap();
    assert!(matches!(&r[..], [SocketAction::Backend(ServerMessage::CloseShell(4))]));
    let r = handle_message(&mut s, Uid(1), &mut subs, WsClient::Data(Sid(4), vec![65], 9)).unwrap();
    match &r[..] {
        [SocketAction::Backend(ServerMessage::Input(i))] => {
            assert_eq!((i.id, i.data.clone(), i.offset), (4, vec![65], 9));
        }
        other => panic!("unexpected {other:?}"),
    }
    let r = handle_message(&mut s, Uid(9), &mut subs, WsClient::Data(Sid(4), vec![65], 9)).unwrap();
    assert!(matches!(&r[..], [SocketAction::Send(WsServer::Error(e))] if e == "user not found"));
}

#[test]
fn move_reports_errors_and_resizes() {
    let mut s = session_with(true);
    let mut subs = HashSet::new();
    let r = handle_message(&mut s, Uid(1), &mut subs, WsClient::Move(Sid(1), None)).unwrap();
    assert!(matches!(&r[..], [SocketAction::Send(WsServer::Error(e))]
        if e == "cannot update shell with id=1, does not exist"));
    s.add_shell(Sid(1), (0, 0)).unwrap();
    let w = WsWinsize { x: 1, y: 1, rows: 40, cols: 120 };
    let r = handle_message(&mut s, Uid(1), &mut subs, WsClient::Move(Sid(1), Some(w))).unwrap();
    match &r[..] {
        [SocketAction::ShellsChanged, SocketAction::Backend(ServerMessage::Resize(t))] => {
            assert_eq!((t.id, t.rows, t.cols), (1, 40, 120));
        }
        other => panic!("unexpected {other:?}"),
    }
    assert_eq!(s.list_shells(), vec![(Sid(1), w)]);
    let r = handle_message(&mut s, Uid(1), &mut subs, WsClient::Move(Sid(1), None)).unwrap();
    assert!(matches!(&r[..], [SocketAction::ShellsChanged]));
}

#[test]
fn subscribe_only_once_per_shell() {
    let mut s = session_with(false);
    let mut subs = HashSet::new();
    let r = handle_message(&mut s, Uid(1), &mut subs, WsClient::Subscribe(Sid(2), 5)).unwrap();
    assert!(matches!(&r[..], [SocketAction::Subscribe(Sid(2), 5)]));
    let r = handle_message(&mut s, Uid(1), &mut subs, WsClient::Subscribe(Sid(2), 0)).unwrap();
    assert!(r.is_empty());
    assert!(subs.contains(&2));
}

#[test]
fn chat_ping_kick_and_authenticate() {
    let mut s = session_with(false);
    let mut subs = HashSet::new();
    let r = handle_message(&mut s, Uid(1), &mut subs, WsClient::Chat("yo".into())).unwrap();
    assert!(matches!(&r[..], [SocketAction::Broadcast(WsServer::Hear(Uid(1), n, t))]
        if n == "User 1" && t == "yo"));
    assert!(handle_message(&mut s, Uid(5), &mut subs, WsClient::Chat("yo".into())).is_err());
    let r = handle_message(&mut s, Uid(1), &mut subs, WsClient::Ping(77)).unwrap();
    assert!(matches!(&r[..], [SocketAction::Send(WsServer::Pong(77))]));
    let r = handle_message(&mut s, Uid(1), &mut subs, WsClient::Kick(String::new())).unwrap();
    assert!(matches!(&r[..], [SocketAction::Backend(ServerMessage::Kick(n)), SocketAction::Close]
        if n == "room"));
    let r = handle_message(&mut s, Uid(1), &mut subs, WsClient::Authenticate(vec![], None)).unwrap();
    assert!(r.is_empty());
}

#[test]
fn tokens_and_urls() {
    assert_eq!(join_token("abc", "n1"), "abc|n1");
    let t = request_token("sess|x");
    assert_eq!(t.len(), "sess|x".len() + 1 + 36);
    assert!(t.starts_with("sess|x|"));
    let nonce = &t["sess|x|".len()..];
    for (i, c) in nonce.chars().enumerate() {
        if [8, 13, 18, 23].contains(&i) {
            assert_eq!(c, '-');
        } else {
            assert!(c.is_ascii_hexdigit() && !c.is_ascii_uppercase());
        }
    }
    let chars: Vec<char> = nonce.chars().collect();
    assert_eq!(chars[14], '4');
    assert!(['8', '9', 'a', 'b'].contains(&chars[19]));
    assert_ne!(request_token("a"), request_token("a"));
    assert_eq!(upstream_url("10.0.0.1:8051", "s1"), "ws://10.0.0.1:8051/api/s/s1");
}

#[test]
fn session_list_needs_the_secret() {
    assert!(session_list_authorized(false, "secret", "secret"));
    assert!(!session_list_authorized(false, "nope", "secret"));
    assert!(!session_list_authorized(true, "", "secret"));
    assert!(!session_list_authorized(true, "", ""));
}

#[test]
fn close_frames() {
    let f = not_found_frame();
    assert_eq!((f.code, f.reason.as_str()), (CLOSE_NOT_FOUND, "could not find the requested session"));
    assert_eq!(CLOSE_NOT_FOUND, 4404);
    let f = error_frame("session connect", "boom");
    assert_eq!((f.code, f.reason.as_str()), (CLOSE_ERROR, "session connect: boom"));
    assert_eq!(CLOSE_ERROR, 4500);
}

#[test]
fn file_routes_answer_by_header() {
    assert!(matches!(list_directory_route(false, true, false), FileRoute::BadRequest(t) if t == "Session name is required"));
    assert!(matches!(list_directory_route(true, true, false), FileRoute::EmptyList));
    assert!(matches!(list_directory_route(true, false, false), FileRoute::BadRequest(t) if t == "Session not found"));
    assert!(matches!(list_directory_route(true, false, true), FileRoute::Proceed));
    assert!(matches!(upload_file_route(false, true, false), FileRoute::BadRequest(t) if t == "Session name is required"));
    assert!(matches!(upload_file_route(true, true, false), FileRoute::BadRequest(t) if t == "Session name cannot be empty"));
    assert!(matches!(upload_file_route(true, false, false), FileRoute::BadRequest(t) if t == "Session not found"));
    assert!(matches!(upload_file_route(true, false, true), FileRoute::Proceed));
}
