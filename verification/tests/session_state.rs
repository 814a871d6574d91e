use sshx::ids::{Sid, Uid};
use sshx::pending::{RequestError, WaitOutcome};
use sshx::protocol::{FileUploadResponse, ListDirectoryResponse, ServerMessage, WsServer, WsWinsize};
use sshx::session::{Metadata, Session, SessionError, UserChange};

type Plain = Session<(), (), ()>;

fn meta() -> Metadata {
    Metadata {
        encrypted_zeros: vec![0u8; 4],
        name: "demo".to_string(),
        write_password_hash: None,
    }
}

#[test]
fn new_session_is_empty() {
    let s = Plain::new(meta());
    assert_eq!(s.metadata().name, "demo");
    assert!(s.list_users().is_empty());
    assert!(s.list_shells().is_empty());
    assert!(s.sequence_numbers().map.is_empty());
    assert_eq!(s.token(), "token");
}

#[test]
fn add_shell_lists_it_with_a_default_window() {
    let mut s = Plain::new(meta());
    s.add_shell(Sid(1), (10, 20)).unwrap();
    assert_eq!(
        s.list_shells(),
        vec![(Sid(1), WsWinsize { x: 10, y: 20, rows: 24, cols: 80 })]
    );
    assert_eq!(s.sequence_numbers().map.get(&1), Some(&0));
}

#[test]
fn add_shell_twice_fails() {
    let mut s = Plain::new(meta());
    s.add_shell(Sid(3), (0, 0)).unwrap();
    let err = s.add_shell(Sid(3), (0, 0)).unwrap_err();
    assert_eq!(err, SessionError::ShellExists(Sid(3)));
    assert_eq!(err.message(), "shell already exists with id=3");
    s.close_shell(Sid(3)).unwrap();
    assert_eq!(s.add_shell(Sid(3), (0, 0)), Err(SessionError::ShellExists(Sid(3))));
}

#[test]
fn close_shell_removes_it_from_the_list() {
    let mut s = Plain::new(meta());
    s.add_shell(Sid(1), (0, 0)).unwrap();
    s.add_shell(Sid(2), (5, 5)).unwrap();
    assert_eq!(s.close_shell(Sid(1)), Ok(true));
    assert_eq!(s.list_shells().len(), 1);
    assert_eq!(s.list_shells()[0].0, Sid(2));
    assert_eq!(s.close_shell(Sid(1)), Ok(false));
    assert!(s.sequence_numbers().map.get(&1).is_none());
    let err = s.close_shell(Sid(9)).unwrap_err();
    assert_eq!(err.message(), "cannot close shell with id=9, does not exist");
}

#[test]
fn open_then_close_restores_the_list() {
    let mut s = Plain::new(meta());
    s.add_shell(Sid(1), (0, 0)).unwrap();
    let before = s.list_shells();
    s.add_shell(Sid(2), (1, 1)).unwrap();
    s.close_shell(Sid(2)).unwrap();
    assert_eq!(s.list_shells(), before);
}

#[test]
fn move_shell_sends_it_to_the_back() {
    let mut s = Plain::new(meta());
    s.add_shell(Sid(1), (0, 0)).unwrap();
    s.add_shell(Sid(2), (0, 0)).unwrap();
    let w = WsWinsize { x: 3, y: 4, rows: 30, cols: 100 };
    s.move_shell(Sid(1), Some(w)).unwrap();
    assert_eq!(s.list_shells()[1], (Sid(1), w));
    s.move_shell(Sid(2), None).unwrap();
    assert_eq!(s.list_shells()[1], (Sid(2), WsWinsize { x: 0, y: 0, rows: 24, cols: 80 }));
}

#[test]
fn move_shell_errors() {
    let mut s = Plain::new(meta());
    let err = s.move_shell(Sid(4), None).unwrap_err();
    assert_eq!(err.message(), "cannot update shell with id=4, does not exist");
    s.add_shell(Sid(4), (0, 0)).unwrap();
    s.close_shell(Sid(4)).unwrap();
    let err = s.move_shell(Sid(4), None).unwrap_err();
    assert_eq!(err, SessionError::UpdateClosed(Sid(4)));
    assert_eq!(err.message(), "cannot update shell with id=4, already closed");
}

#[test]
fn add_data_updates_sequence_numbers() {
    let mut s = Plain::new(meta());
    s.add_shell(Sid(1), (0, 0)).unwrap();
    assert_eq!(s.add_data(Sid(1), b"hello", 0), Ok(true));
    assert_eq!(s.add_data(Sid(1), b"hello", 0), Ok(false));
    assert_eq!(s.sequence_numbers().map.get(&1), Some(&5));
    assert_eq!(s.add_data(Sid(2), b"x", 0), Err(SessionError::UpdateMissing(Sid(2))));
    let (pos, chunks, next) = s.chunks_since(Sid(1), 0).unwrap();
    assert_eq!((pos, chunks, next), (0, vec![b"hello".to_vec()], 1));
    s.close_shell(Sid(1)).unwrap();
    assert_eq!(s.add_data(Sid(1), b"x", 5), Err(SessionError::UpdateClosed(Sid(1))));
    assert!(s.chunks_since(Sid(1), 0).is_none());
}

#[test]
fn users_join_change_and_leave() {
    let mut s = Plain::new(meta());
    let diff = s.user_scope(Uid(7), true).unwrap();
    match diff {
        WsServer::UserDiff(id, Some(user)) => {
            assert_eq!(id, Uid(7));
            assert_eq!(user.name, "User 7");
            assert!(user.can_write);
            assert!(user.cursor.is_none() && user.focus.is_none());
        }
        other => panic!("unexpected {other:?}"),
    }
    assert_eq!(s.user_scope(Uid(7), false).unwrap_err().message(), "user already exists with id=7");
    let diff = s.update_user(Uid(7), UserChange::SetName("ann".to_string())).unwrap();
    match diff {
        WsServer::UserDiff(_, Some(user)) => assert_eq!(user.name, "ann"),
        other => panic!("unexpected {other:?}"),
    }
    s.update_user(Uid(7), UserChange::SetCursor(Some((1, 2)))).unwrap();
    s.update_user(Uid(7), UserChange::SetFocus(Some(Sid(3)))).unwrap();
    let users = s.list_users();
    assert_eq!(users.len(), 1);
    assert_eq!(users[0].1.cursor, Some((1, 2)));
    assert_eq!(users[0].1.focus, Some(Sid(3)));
    let (was_there, msg) = s.remove_user(Uid(7));
    assert!(was_there);
    assert!(matches!(msg, WsServer::UserDiff(Uid(7), None)));
    assert!(!s.remove_user(Uid(7)).0);
    assert_eq!(
        s.update_user(Uid(7), UserChange::SetName("x".to_string())).unwrap_err(),
        SessionError::UserNotFound(Uid(7))
    );
}

#[test]
fn user_names_count_in_decimal() {
    let mut s = Plain::new(meta());
    for (id, name) in [(0u32, "User 0"), (10, "User 10"), (4294967295, "User 4294967295")] {
        match s.user_scope(Uid(id), false).unwrap() {
            WsServer::UserDiff(_, Some(user)) => assert_eq!(user.name, name),
            other => panic!("unexpected {other:?}"),
        }
    }
    assert_eq!(s.list_users().len(), 3);
}

#[test]
fn write_permission_and_chat() {
    let mut s = Plain::new(meta());
    s.user_scope(Uid(1), true).unwrap();
    s.user_scope(Uid(2), false).unwrap();
    assert_eq!(s.check_write_permission(Uid(1)), Ok(()));
    let err = s.check_write_permission(Uid(2)).unwrap_err();
    assert_eq!(err.message(), "No write permission");
    let err = s.check_write_permission(Uid(3)).unwrap_err();
    assert_eq!(err.message(), "user not found");
    match s.send_chat(Uid(2), "hi").unwrap() {
        WsServer::Hear(id, name, text) => {
            assert_eq!(id, Uid(2));
            assert_eq!(name, "User 2");
            assert_eq!(text, "hi");
        }
        other => panic!("unexpected {other:?}"),
    }
    assert_eq!(s.send_chat(Uid(3), "hi").unwrap_err(), SessionError::UserNotFound(Uid(3)));
    assert!(matches!(s.send_latency_measurement(42), WsServer::ShellLatency(42)));
}

#[test]
fn session_hands_out_fresh_ids() {
    let mut s = Plain::new(meta());
    assert_eq!(s.next_sid(), Sid(1));
    assert_eq!(s.next_sid(), Sid(2));
    assert_eq!(s.next_uid(), Uid(1));
    assert_eq!(s.counter().get_current_values(), (Sid(3), Uid(2)));
}

#[test]
fn relayed_requests_are_answered_once() {
    let mut s: Session<u8, u16, u32> = Session::new(meta());
    let id = "room|1".to_string();
    s.register_list_directory(id.clone(), 5);
    let (to, answer) = s
        .handle_list_directory_result(&id, None, Some(ListDirectoryResponse { files: vec![] }))
        .unwrap();
    assert_eq!(to, 5);
    assert!(answer.unwrap().files.is_empty());
    assert!(s.handle_list_directory_result(&id, None, None).is_none());
    s.register_list_directory(id.clone(), 6);
    assert_eq!(s.withdraw_list_directory(&id), Some(6));
    assert_eq!(s.withdraw_list_directory(&id), None);

    s.register_upload_file(id.clone(), 7);
    let (to, answer) = s.handle_upload_file_result(&id, Some("disk full".into()), None).unwrap();
    assert_eq!(to, 7);
    assert_eq!(answer.unwrap_err(), RequestError::Remote("disk full".into()));
    s.register_upload_file(id.clone(), 8);
    let (_, answer) = s.handle_upload_file_result(&id, None, None).unwrap();
    assert_eq!(answer.unwrap_err(), RequestError::EmptyResponse);
    s.register_upload_file(id.clone(), 9);
    let ok = FileUploadResponse { success: true, message: "m".into() };
    assert!(s.handle_upload_file_result(&id, None, Some(ok)).unwrap().1.is_ok());
    assert_eq!(s.withdraw_upload_file(&id), None);
}

#[test]
fn downloads_end_on_the_last_chunk_or_a_gone_reader() {
    let mut s: Session<(), (), u32> = Session::new(meta());
    let id = "room|2".to_string();
    assert!(s.handle_download_file_chunk(&id, true, true).is_none());
    s.register_download_file(id.clone(), 11);
    assert_eq!(s.download_reader(&id), Some(&11));
    assert!(s.handle_download_file_chunk(&id, true, false).is_none());
    assert_eq!(s.download_reader(&id), Some(&11));
    match s.handle_download_file_chunk(&id, true, true) {
        Some(ServerMessage::DownloadFile(req)) => {
            assert_eq!(req.path, "");
            assert_eq!(req.token, id);
        }
        other => panic!("unexpected {other:?}"),
    }
    assert_eq!(s.download_reader(&id), None);
    s.register_download_file(id.clone(), 12);
    assert!(s.handle_download_file_chunk(&id, false, false).is_none());
    assert_eq!(s.download_reader(&id), None);
    s.register_download_file(id.clone(), 13);
    assert_eq!(s.withdraw_download_file(&id), Some(13));
}

#[test]
fn relayed_requests_are_withdrawn_however_they_end() {
    let mut s: Session<u8, u16, u32> = Session::new(meta());
    let id = "room|3".to_string();
    s.register_list_directory(id.clone(), 1);
    assert_eq!(s.conclude_list_directory(&id, WaitOutcome::TimedOut).unwrap_err(), RequestError::TimedOut);
    assert_eq!(s.withdraw_list_directory(&id), None);
    s.register_list_directory(id.clone(), 1);
    let answer = s.conclude_list_directory(&id, WaitOutcome::Replied(Ok(ListDirectoryResponse { files: vec![] })));
    assert!(answer.is_ok());
    assert_eq!(s.withdraw_list_directory(&id), None);
    s.register_list_directory(id.clone(), 1);
    assert_eq!(s.list_directory_send_failed(&id, "closed".into()), RequestError::SendFailed("closed".into()));
    assert_eq!(s.withdraw_list_directory(&id), None);

    s.register_upload_file(id.clone(), 2);
    assert_eq!(
        s.conclude_upload_file(&id, WaitOutcome::Dropped("gone".into())).unwrap_err().message(),
        "接收响应失败: gone"
    );
    assert_eq!(s.withdraw_upload_file(&id), None);
    s.register_upload_file(id.clone(), 2);
    assert_eq!(s.upload_file_send_failed(&id, "x".into()).message(), "发送请求失败: x");
    assert_eq!(s.withdraw_upload_file(&id), None);

    s.register_download_file(id.clone(), 3);
    assert_eq!(s.download_file_send_failed(&id, "x".into()), RequestError::SendFailed("x".into()));
    assert_eq!(s.download_reader(&id), None);
}
