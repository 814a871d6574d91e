use std::collections::HashMap;

use sshx::controller::{
    download_failed_reply, download_read_reply, is_session_missing, listing_reply,
    upload_done_reply, upload_failed_reply, Backoff, ControllerAction, Controller, DownloadFailure,
    RetryDecision, ShellInput,
};
use sshx::ids::Sid;
use sshx::pending::download_complete_notice;
use sshx::protocol::{
    ClientMessage, FileDownloadRequest, FileInfo, NewShell, SequenceNumbers, ServerMessage,
    TerminalInput, TerminalSize,
};

fn controller(password: &str) -> Controller<u8> {
    Controller::new("https://x", password, true, "name1".to_string(), "tok".to_string(), "https://x/s/abc")
}

#[test]
fn urls_carry_the_key_and_password() {
    let c = controller("");
    assert_eq!(c.url(), "https://x/s/abc#view");
    assert_eq!(c.write_url(), None);
    assert_eq!(c.encryption_key(), "view");
    assert_eq!(c.name(), "name1");
    let c = controller("pw");
    assert_eq!(c.write_url(), Some("https://x/s/abc#view,pw"));
    match c.hello() {
        ClientMessage::Hello(t) => assert_eq!(t, "name1,tok"),
        other => panic!("unexpected {other:?}"),
    }
}

#[test]
fn shells_are_spawned_fed_and_closed() {
    let mut c = controller("");
    let r = c.handle_server_message(ServerMessage::CreateShell(NewShell { id: 3, x: 1, y: 2 }));
    assert!(matches!(&r[..], [ControllerAction::Spawn(Sid(3), (1, 2))]));
    assert!(!c.register_shell(Sid(3), 7));
    let r = c.handle_server_message(ServerMessage::CreateShell(NewShell { id: 3, x: 1, y: 2 }));
    assert!(r.is_empty());
    let r = c.handle_server_message(ServerMessage::Input(TerminalInput { id: 3, data: vec![1], offset: 4 }));
    assert!(matches!(&r[..], [ControllerAction::ToShell(Sid(3), ShellInput::Data { offset: 4, .. })]));
    let r = c.handle_server_message(ServerMessage::Input(TerminalInput { id: 9, data: vec![1], offset: 4 }));
    assert!(r.is_empty());
    let r = c.handle_server_message(ServerMessage::Resize(TerminalSize { id: 3, rows: 10, cols: 20 }));
    assert!(matches!(&r[..], [ControllerAction::ToShell(Sid(3), ShellInput::Size(10, 20))]));
    assert_eq!(c.shell(Sid(3)), Some(&7));
    let r = c.handle_server_message(ServerMessage::CloseShell(3));
    assert!(matches!(&r[..], [ControllerAction::Send(ClientMessage::ClosedShell(3))]));
    assert_eq!(c.shell(Sid(3)), None);
}

#[test]
fn sync_forwards_or_reports_closed() {
    let mut c = controller("");
    c.register_shell(Sid(1), 0);
    let mut map = HashMap::new();
    map.insert(1u32, 50u64);
    map.insert(2u32, 60u64);
    let r = c.handle_server_message(ServerMessage::Sync(SequenceNumbers { map }));
    assert_eq!(r.len(), 2);
    assert!(r.iter().any(|a| matches!(a, ControllerAction::ToShell(Sid(1), ShellInput::Sync(50)))));
    assert!(r.iter().any(|a| matches!(a, ControllerAction::Send(ClientMessage::ClosedShell(2)))));
}

#[test]
fn other_server_messages() {
    let mut c = controller("");
    assert!(matches!(&c.handle_server_message(ServerMessage::Ping(5))[..], [ControllerAction::Send(ClientMessage::Pong(5))]));
    assert!(c.handle_server_message(ServerMessage::Error("e".into())).is_empty());
    assert!(matches!(&c.handle_server_message(ServerMessage::Kick("n".into()))[..], [ControllerAction::Kick]));
    let notice = download_complete_notice("r".to_string());
    assert!(c.handle_server_message(notice).is_empty());
    let r = c.handle_server_message(ServerMessage::DownloadFile(FileDownloadRequest { path: "a".into(), token: "r".into() }));
    assert!(matches!(&r[..], [ControllerAction::Download(_)]));
}

#[test]
fn uploads_are_tracked_by_token() {
    let mut c = controller("");
    let t = "up1".to_string();
    assert!(c.begin_upload_chunk(&t));
    assert!(!c.begin_upload_chunk(&t));
    c.finish_upload(&t);
    assert!(c.begin_upload_chunk(&t));
}

#[test]
fn upload_run_leaves_exactly_the_chunks() {
    let mut c = controller("");
    let t = "up2".to_string();
    let mut file: Vec<u8> = b"old contents".to_vec();
    let chunks: [(&[u8], bool); 3] = [(b"ab", false), (b"cd", false), (b"e", true)];
    for (chunk, is_last) in chunks {
        if c.begin_upload_chunk(&t) {
            file.clear();
        }
        file.extend_from_slice(chunk);
        if is_last {
            c.finish_upload(&t);
        }
    }
    assert_eq!(file, b"abcde".to_vec());
    assert!(c.begin_upload_chunk(&t));
}

#[test]
fn backoff_doubles_to_sixteen_and_resets() {
    let mut b = Backoff::new();
    let waits: Vec<RetryDecision> = (0..6).map(|_| b.after_failure(true, false)).collect();
    assert_eq!(
        waits,
        [1, 2, 4, 8, 16, 16].iter().map(|s| RetryDecision::Sleep(*s)).collect::<Vec<_>>()
    );
    assert_eq!(b.after_failure(true, true), RetryDecision::Sleep(1));
    assert_eq!(b.after_failure(false, false), RetryDecision::Exit);
    assert_eq!(b.after_failure(true, false), RetryDecision::Sleep(2));
}

#[test]
fn session_missing_is_recognised() {
    assert!(is_session_missing(true, "session not found"));
    assert!(!is_session_missing(false, "session not found"));
    assert!(!is_session_missing(true, "other"));
}

#[test]
fn file_replies() {
    let info = FileInfo { name: "a".into(), is_directory: false, size: 3, modified_time: 0, permissions: String::new() };
    match listing_reply("t".into(), Ok(vec![info])) {
        ClientMessage::ListDirectoryResult(r) => {
            assert_eq!(r.request_id, "t");
            assert_eq!(r.response.unwrap().files.len(), 1);
        }
        other => panic!("unexpected {other:?}"),
    }
    match listing_reply("t".into(), Err("denied".into())) {
        ClientMessage::ListDirectoryResult(r) => assert_eq!(r.error.unwrap(), "无法读取目录: denied"),
        other => panic!("unexpected {other:?}"),
    }
    match upload_done_reply("t".into()) {
        ClientMessage::UploadFileResult(r) => {
            let resp = r.response.unwrap();
            assert!(resp.success);
            assert_eq!(resp.message, "文件上传成功");
        }
        other => panic!("unexpected {other:?}"),
    }
    match upload_failed_reply("t".into(), "disk") {
        ClientMessage::UploadFileResult(r) => assert_eq!(r.error.unwrap(), "文件上传失败: disk"),
        other => panic!("unexpected {other:?}"),
    }
    match download_failed_reply("t".into(), DownloadFailure::Missing("a/b".into())) {
        ClientMessage::DownloadFileResult(r) => assert_eq!(r.error.unwrap(), "文件不存在: a/b"),
        other => panic!("unexpected {other:?}"),
    }
    match download_failed_reply("t".into(), DownloadFailure::OpenFailed("x".into())) {
        ClientMessage::DownloadFileResult(r) => assert_eq!(r.error.unwrap(), "无法打开文件: x"),
        other => panic!("unexpected {other:?}"),
    }
    match download_failed_reply("t".into(), DownloadFailure::Failed("x".into())) {
        ClientMessage::DownloadFileResult(r) => assert_eq!(r.error.unwrap(), "文件下载失败: x"),
        other => panic!("unexpected {other:?}"),
    }
}

#[test]
fn download_reads_become_chunks() {
    let (m, done) = download_read_reply("t".into(), Ok(vec![1, 2]));
    assert!(!done);
    assert!(matches!(m, ClientMessage::DownloadFileResult(r) if r.response.as_ref().unwrap().chunk == vec![1, 2] && !r.response.as_ref().unwrap().is_last));
    let (m, done) = download_read_reply("t".into(), Ok(vec![]));
    assert!(done);
    assert!(matches!(m, ClientMessage::DownloadFileResult(r) if r.response.as_ref().unwrap().is_last));
    let (m, done) = download_read_reply("t".into(), Err("io".into()));
    assert!(done);
    assert!(matches!(m, ClientMessage::DownloadFileResult(r) if r.error.as_deref() == Some("读取文件失败: io")));
}

#[test]
fn handling_messages_keeps_what_the_session_was_opened_as() {
    let mut c = controller("pw");
    c.handle_server_message(ServerMessage::Ping(1));
    c.handle_server_message(ServerMessage::CloseShell(2));
    c.register_shell(Sid(5), 1);
    c.begin_upload_chunk(&"u".to_string());
    c.finish_upload(&"u".to_string());
    assert_eq!(c.name(), "name1");
    assert_eq!(c.token(), "tok");
    assert_eq!(c.url(), "https://x/s/abc#view");
    assert_eq!(c.write_url(), Some("https://x/s/abc#view,pw"));
    assert_eq!(c.origin(), "https://x");
    assert_eq!(c.password(), "pw");
    assert!(c.enable_reconnect());
}
