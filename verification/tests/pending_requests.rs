use sshx::pending::{
    after_chunk_delivery, download_complete_notice, finish_wait, resolve_response, ChunkFollowUp,
    Pending, RequestError, WaitOutcome,
};
use sshx::protocol::ServerMessage;

#[test]
fn pending_registry_inserts_replaces_and_removes() {
    let mut p: Pending<u32> = Pending::new();
    assert_eq!(p.len(), 0);
    p.insert("a".to_string(), 1);
    p.insert("b".to_string(), 2);
    p.insert("a".to_string(), 3);
    assert_eq!(p.len(), 2);
    assert_eq!(p.get(&"a".to_string()), Some(&3));
    assert!(p.contains_key(&"b".to_string()));
    assert_eq!(p.remove(&"a".to_string()), Some(3));
    assert_eq!(p.remove(&"a".to_string()), None);
    assert!(!p.contains_key(&"a".to_string()));
    assert_eq!(p.len(), 1);
}

#[test]
fn replies_resolve_to_answers() {
    assert_eq!(resolve_response::<u8>(Some("e".into()), Some(1)), Err(RequestError::Remote("e".into())));
    assert_eq!(resolve_response::<u8>(None, Some(1)), Ok(1));
    assert_eq!(resolve_response::<u8>(None, None), Err(RequestError::EmptyResponse));
    assert_eq!(finish_wait::<u8>(WaitOutcome::Replied(Ok(4))), Ok(4));
    assert_eq!(finish_wait::<u8>(WaitOutcome::Dropped("closed".into())), Err(RequestError::ReceiveFailed("closed".into())));
    assert_eq!(finish_wait::<u8>(WaitOutcome::TimedOut), Err(RequestError::TimedOut));
}

#[test]
fn request_error_texts() {
    assert_eq!(RequestError::SendFailed("x".into()).message(), "发送请求失败: x");
    assert_eq!(RequestError::ChunkSendFailed("x".into()).message(), "发送文件块失败: x");
    assert_eq!(RequestError::Remote("x".into()).message(), "x");
    assert_eq!(RequestError::EmptyResponse.message(), "无效的响应: 既没有错误也没有结果");
    assert_eq!(RequestError::ReceiveFailed("x".into()).message(), "接收响应失败: x");
    assert_eq!(RequestError::TimedOut.message(), "请求超时");
}

#[test]
fn download_chunk_follow_ups() {
    assert_eq!(after_chunk_delivery(false, true), ChunkFollowUp::Abandon);
    assert_eq!(after_chunk_delivery(true, true), ChunkFollowUp::Finish);
    assert_eq!(after_chunk_delivery(true, false), ChunkFollowUp::Wait);
    match download_complete_notice("r1".to_string()) {
        ServerMessage::DownloadFile(req) => {
            assert_eq!(req.path, "");
            assert_eq!(req.token, "r1");
        }
        other => panic!("unexpected {other:?}"),
    }
}
