use libvoice::framing::FrameBuffer;
use libvoice::ring::RingBuffer;

fn starts_and_samples(frames: Vec<libvoice::framing::Frame<i32>>) -> Vec<(usize, Vec<i32>)> {
    frames.into_iter().map(|f| (f.start_sample, f.samples)).collect()
}

#[test]
fn frames_are_cut_every_hop() {
    let mut buffer: FrameBuffer<i32> = FrameBuffer::new(4, 2);
    let frames = buffer.push_chunk(&[1, 2, 3, 4, 5, 6, 7]);
    assert_eq!(
        starts_and_samples(frames),
        vec![(0, vec![1, 2, 3, 4]), (2, vec![3, 4, 5, 6])]
    );
    assert_eq!(buffer.processed_samples(), 7);
}

#[test]
fn streaming_chunks_give_the_single_pass_frames() {
    let samples: Vec<i32> = (0..37).collect();
    let mut whole: FrameBuffer<i32> = FrameBuffer::new(8, 3);
    let single = starts_and_samples(whole.push_chunk(&samples));

    let mut streaming: FrameBuffer<i32> = FrameBuffer::new(8, 3);
    let mut pieces = Vec::new();
    for piece in samples.chunks(5) {
        pieces.extend(starts_and_samples(streaming.push_chunk(piece)));
    }
    assert_eq!(single, pieces);
    assert_eq!(single.len(), 10);
}

#[test]
fn short_input_makes_no_frame_but_counts_samples() {
    let mut buffer: FrameBuffer<i32> = FrameBuffer::new(16, 4);
    assert!(buffer.push_chunk(&[1, 2, 3]).is_empty());
    assert_eq!(buffer.processed_samples(), 3);
}

#[test]
fn ring_returns_most_recent_in_order() {
    let mut ring = RingBuffer::new(4, 0i32);
    ring.push_slice(&[1, 2, 3, 4, 5, 6]);
    assert_eq!(ring.read_recent(3), vec![4, 5, 6]);
    assert_eq!(ring.read_recent(10), vec![3, 4, 5, 6]);
    ring.push(7);
    assert_eq!(ring.read_recent(2), vec![6, 7]);
}

#[test]
fn ring_holds_only_what_was_pushed() {
    let mut ring = RingBuffer::new(8, 0i32);
    assert!(ring.read_recent(3).is_empty());
    ring.push_slice(&[9, 8]);
    assert_eq!(ring.read_recent(5), vec![9, 8]);
    assert!(ring.read_recent(0).is_empty());
}
