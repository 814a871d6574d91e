use sshx::shell::{ShellState, SHELL_STORED_BYTES};

fn flatten(chunks: &[Vec<u8>]) -> Vec<u8> {
    chunks.iter().flat_map(|c| c.iter().copied()).collect()
}

#[test]
fn fresh_shell_is_empty_and_open() {
    let s = ShellState::new();
    assert_eq!(s.seqnum(), 0);
    assert!(!s.is_closed());
    assert_eq!(s.chunks_since(0), (0, Vec::<Vec<u8>>::new(), 0));
}

#[test]
fn receive_appends_new_bytes() {
    let mut s = ShellState::new();
    assert!(s.receive(b"hello", 0));
    assert_eq!(s.seqnum(), 5);
    assert!(s.receive(b" world", 5));
    assert_eq!(s.seqnum(), 11);
    let (pos, chunks, next) = s.chunks_since(0);
    assert_eq!(pos, 0);
    assert_eq!(chunks, vec![b"hello".to_vec(), b" world".to_vec()]);
    assert_eq!(next, 2);
}

#[test]
fn receive_keeps_only_the_unseen_part_of_an_overlap() {
    let mut s = ShellState::new();
    s.receive(b"abcdef", 0);
    assert!(s.receive(b"defgh", 3));
    assert_eq!(s.seqnum(), 8);
    let (_, chunks, _) = s.chunks_since(1);
    assert_eq!(chunks, vec![b"gh".to_vec()]);
}

#[test]
fn receive_twice_is_receive_once() {
    let mut s = ShellState::new();
    s.receive(b"abc", 0);
    assert!(!s.receive(b"abc", 0));
    assert_eq!(s.seqnum(), 3);
    assert_eq!(s.chunks_since(0).1, vec![b"abc".to_vec()]);
}

#[test]
fn receive_ignores_segments_past_the_end_and_stale_ones() {
    let mut s = ShellState::new();
    s.receive(b"abc", 0);
    assert!(!s.receive(b"xyz", 4));
    assert!(!s.receive(b"ab", 0));
    assert!(!s.receive(b"", 3));
    assert_eq!(s.seqnum(), 3);
}

#[test]
fn old_chunks_are_pruned_beyond_the_limit() {
    let limit = SHELL_STORED_BYTES as usize;
    let mut s = ShellState::new();
    let first = vec![1u8; limit - 10];
    let second = vec![2u8; 20];
    s.receive(&first, 0);
    s.receive(&second, first.len() as u64);
    assert_eq!(s.seqnum(), (limit + 10) as u64);
    // the first chunk was dropped: the subscriber from the start resumes at
    // the oldest byte still held
    let (pos, chunks, next) = s.chunks_since(0);
    assert_eq!(pos, (limit - 10) as u64);
    assert_eq!(chunks, vec![second.clone()]);
    assert_eq!(next, 2);
}

#[test]
fn a_chunk_larger_than_the_limit_is_dropped_entirely() {
    let limit = SHELL_STORED_BYTES as usize;
    let mut s = ShellState::new();
    let big = vec![7u8; limit + 1];
    assert!(s.receive(&big, 0));
    assert_eq!(s.seqnum(), (limit + 1) as u64);
    let (pos, chunks, next) = s.chunks_since(0);
    assert_eq!(pos, (limit + 1) as u64);
    assert!(chunks.is_empty());
    assert_eq!(next, 1);
}

#[test]
fn stored_bytes_stay_within_the_limit() {
    let mut s = ShellState::new();
    let piece = vec![9u8; 300_000];
    let mut seq = 0u64;
    for _ in 0..20 {
        s.receive(&piece, seq);
        seq += piece.len() as u64;
        let (pos, chunks, _) = s.chunks_since(0);
        let held = flatten(&chunks);
        assert!(held.len() as u64 <= SHELL_STORED_BYTES);
        assert_eq!(pos + held.len() as u64, s.seqnum());
    }
}

#[test]
fn up_to_date_subscriber_gets_exactly_the_new_segment() {
    let mut s = ShellState::new();
    s.receive(b"one", 0);
    let (_, _, next) = s.chunks_since(0);
    s.receive(b"onetwo", 0);
    assert_eq!(s.chunks_since(next), (3, vec![b"two".to_vec()], 2));
    // nothing more for a subscriber at the end
    assert_eq!(s.chunks_since(2), (0, Vec::<Vec<u8>>::new(), 2));
}

#[test]
fn closing_marks_the_shell() {
    let mut s = ShellState::new();
    s.receive(b"x", 0);
    s.close();
    assert!(s.is_closed());
    assert_eq!(s.seqnum(), 1);
}

#[test]
fn a_subscriber_never_gets_a_byte_twice() {
    let mut s = ShellState::new();
    let mut chunknum = 0u64;
    let mut seq = 0u64;
    let mut last_end: Option<u64> = None;
    let sizes = [10usize, 1_500_000, 3, 900_000, 2_500_000, 7, 40];
    for (round, size) in sizes.iter().enumerate() {
        let piece = vec![round as u8; *size];
        s.receive(&piece, seq);
        seq += *size as u64;
        if round % 2 == 0 {
            let (pos, chunks, next) = s.chunks_since(chunknum);
            chunknum = next;
            if chunks.is_empty() {
                continue;
            }
            if let Some(end) = last_end {
                assert!(pos >= end);
            }
            last_end = Some(pos + flatten(&chunks).len() as u64);
            assert_eq!(last_end, Some(s.seqnum()));
        }
    }
    // with nothing pruned in between, the next read starts exactly at the end
    s.receive(b"tail", seq);
    let (pos, chunks, _) = s.chunks_since(chunknum);
    assert_eq!(pos, last_end.unwrap());
    assert_eq!(chunks, vec![b"tail".to_vec()]);
}
