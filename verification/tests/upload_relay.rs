use sshx::upload::{UploadAssembler, UploadEvent, UploadPhase, UploadResponse, UploadStep, CHUNK_SIZE};

fn sent(step: UploadStep) -> sshx::protocol::FileUploadRequest {
    match step {
        UploadStep::Send(req) => req,
        other => panic!("expected a chunk, got {other:?}"),
    }
}

#[test]
fn small_file_goes_as_one_last_chunk() {
    let mut u = UploadAssembler::new("tok".to_string());
    assert!(matches!(u.step(UploadEvent::OtherField), UploadStep::Continue));
    assert!(matches!(u.step(UploadEvent::PathField(Ok("dir/a.txt".into()))), UploadStep::Continue));
    assert!(matches!(u.step(UploadEvent::FileStart), UploadStep::Continue));
    assert!(matches!(u.step(UploadEvent::FileData(b"abc".to_vec())), UploadStep::Continue));
    assert!(matches!(u.step(UploadEvent::FileData(b"de".to_vec())), UploadStep::Continue));
    let req = sent(u.step(UploadEvent::FileEnd));
    assert_eq!(req.chunk, b"abcde".to_vec());
    assert_eq!(req.path, "dir/a.txt");
    assert_eq!(req.token, "tok");
    assert!(req.is_last);
    match u.step(UploadEvent::Sent(Ok(()))) {
        UploadStep::Respond(r) => assert_eq!(r, UploadResponse::Uploaded(5)),
        other => panic!("unexpected {other:?}"),
    }
    assert_eq!(u.current_phase(), UploadPhase::Done);
}

#[test]
fn large_file_is_cut_into_chunks_in_order() {
    let mut u = UploadAssembler::new("t".to_string());
    u.step(UploadEvent::PathField(Ok("f".into())));
    u.step(UploadEvent::FileStart);
    let piece: Vec<u8> = (0..3_000_000u32).map(|i| (i % 251) as u8).collect();
    let mut relayed = Vec::new();
    let mut fed = Vec::new();
    for _ in 0..3 {
        fed.extend_from_slice(&piece);
        match u.step(UploadEvent::FileData(piece.clone())) {
            UploadStep::Continue => {}
            UploadStep::Send(req) => {
                assert!(!req.is_last);
                assert!(req.chunk.len() >= CHUNK_SIZE);
                relayed.extend_from_slice(&req.chunk);
                assert!(matches!(u.step(UploadEvent::Sent(Ok(()))), UploadStep::Continue));
            }
            other => panic!("unexpected {other:?}"),
        }
    }
    let last = sent(u.step(UploadEvent::FileEnd));
    assert!(last.is_last);
    relayed.extend_from_slice(&last.chunk);
    assert_eq!(relayed, fed);
    assert!(matches!(u.step(UploadEvent::Sent(Ok(()))), UploadStep::Respond(UploadResponse::Uploaded(9_000_000))));
}

#[test]
fn file_of_exactly_one_chunk_answers_at_the_end() {
    let mut u = UploadAssembler::new("t".to_string());
    u.step(UploadEvent::PathField(Ok("f".into())));
    u.step(UploadEvent::FileStart);
    let req = sent(u.step(UploadEvent::FileData(vec![1u8; CHUNK_SIZE])));
    assert!(!req.is_last);
    assert!(matches!(u.step(UploadEvent::Sent(Ok(()))), UploadStep::Continue));
    assert!(matches!(u.step(UploadEvent::FileEnd), UploadStep::Continue));
    assert!(matches!(u.step(UploadEvent::Finished), UploadStep::Respond(UploadResponse::Uploaded(n)) if n == CHUNK_SIZE));
}

#[test]
fn path_errors() {
    let mut u = UploadAssembler::new("t".to_string());
    assert!(matches!(u.step(UploadEvent::PathField(Ok("  \t ".into()))), UploadStep::Respond(UploadResponse::EmptyPath)));
    let mut u = UploadAssembler::new("t".to_string());
    assert!(matches!(u.step(UploadEvent::PathField(Err("bad".into()))), UploadStep::Respond(UploadResponse::PathReadFailed(e)) if e == "bad"));
    let mut u = UploadAssembler::new("t".to_string());
    assert!(matches!(u.step(UploadEvent::FileStart), UploadStep::Respond(UploadResponse::PathRequired)));
}

#[test]
fn no_data_and_send_failure() {
    let mut u = UploadAssembler::new("t".to_string());
    u.step(UploadEvent::PathField(Ok("f".into())));
    u.step(UploadEvent::FileStart);
    u.step(UploadEvent::FileEnd);
    assert!(matches!(u.step(UploadEvent::Finished), UploadStep::Respond(UploadResponse::NoData)));
    let mut u = UploadAssembler::new("t".to_string());
    u.step(UploadEvent::PathField(Ok("f".into())));
    u.step(UploadEvent::FileStart);
    u.step(UploadEvent::FileData(vec![1, 2]));
    sent(u.step(UploadEvent::FileEnd));
    assert!(matches!(u.step(UploadEvent::Sent(Err("gone".into()))), UploadStep::Respond(UploadResponse::SendFailed(e)) if e == "gone"));
    assert_eq!(u.total_size(), 2);
}

#[test]
fn unicode_white_space_counts_as_blank() {
    let mut u = UploadAssembler::new("t".to_string());
    assert!(matches!(u.step(UploadEvent::PathField(Ok("\u{3000}\u{a0}\n\u{2028}".into()))), UploadStep::Respond(UploadResponse::EmptyPath)));
    let mut u = UploadAssembler::new("t".to_string());
    assert!(matches!(u.step(UploadEvent::PathField(Ok(" a ".into()))), UploadStep::Continue));
    let mut u = UploadAssembler::new("t".to_string());
    assert!(matches!(u.step(UploadEvent::PathField(Ok(String::new()))), UploadStep::Respond(UploadResponse::EmptyPath)));
}
