use claude_manager::replay::{ReplayBuffer, PTY_BUFFER_MAX_BYTES};

#[test]
fn pty_buffer_cap_drains_excess() {
    let mut buffer = ReplayBuffer::from_bytes(vec![0u8; PTY_BUFFER_MAX_BYTES]);
    let chunk = vec![1u8; 4096];
    buffer.append(&chunk);
    let snap = buffer.snapshot();
    assert_eq!(snap.len(), PTY_BUFFER_MAX_BYTES);
    assert_eq!(snap[snap.len() - 4096..], chunk[..]);
}

#[test]
fn pty_buffer_under_cap_not_drained() {
    let mut buffer = ReplayBuffer::from_bytes(vec![0u8; 1000]);
    let chunk = vec![1u8; 500];
    buffer.append(&chunk);
    assert_eq!(buffer.len(), 1500);
    assert!(buffer.len() <= PTY_BUFFER_MAX_BYTES);
}

#[test]
fn buffer_overflow_scenario() {
    let mut buffer = ReplayBuffer::from_bytes(vec![0u8; 1_048_576]);
    buffer.append(&vec![1u8; 4096]);
    let snap = buffer.snapshot();
    assert_eq!(snap.len(), 1_048_576);
    assert!(snap[snap.len() - 4096..].iter().all(|b| *b == 1));
    assert_eq!(snap[0], 0);
}

#[test]
fn buffer_stays_within_cap() {
    let mut buffer = ReplayBuffer::new();
    for i in 0..300u32 {
        let chunk = vec![(i % 251) as u8; 4096 + (i as usize % 7)];
        buffer.append(&chunk);
        assert!(buffer.len() <= PTY_BUFFER_MAX_BYTES);
    }
    assert_eq!(buffer.len(), PTY_BUFFER_MAX_BYTES);
}

#[test]
fn append_then_snapshot_is_concatenation() {
    let mut buffer = ReplayBuffer::new();
    let chunks: Vec<Vec<u8>> = vec![b"hello ".to_vec(), vec![], b"world".to_vec(), vec![0, 255, 7]];
    let mut expected = Vec::new();
    for c in &chunks {
        buffer.append(c);
        expected.extend_from_slice(c);
    }
    assert_eq!(buffer.snapshot(), expected);
}

#[test]
fn seeding_past_the_cap_keeps_the_tail() {
    let mut seed = vec![9u8; 10];
    seed.extend(vec![3u8; PTY_BUFFER_MAX_BYTES]);
    let buffer = ReplayBuffer::from_bytes(seed);
    let snap = buffer.snapshot();
    assert_eq!(snap.len(), PTY_BUFFER_MAX_BYTES);
    assert!(snap.iter().all(|b| *b == 3));
}

#[test]
fn tail_and_clear() {
    let mut buffer = ReplayBuffer::from_bytes(b"abcdef".to_vec());
    assert_eq!(buffer.tail(3), b"def".to_vec());
    assert_eq!(buffer.tail(10), b"abcdef".to_vec());
    buffer.clear();
    assert_eq!(buffer.len(), 0);
    assert!(buffer.snapshot().is_empty());
}
