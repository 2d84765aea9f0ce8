use pixelblaze_rs::collector::FrameCollector;

#[test]
fn short_chunk_returns_none() {
    let mut collector: FrameCollector<f32> = FrameCollector::new(4);
    assert!(collector.add_samples(&[0.5, 0.25]).is_none());
    assert!(collector.add_samples(&[0.125]).is_none());
}

#[test]
fn exact_frames_for_multiple_of_frame_size() {
    // Total length 8 = 2 frames of 4: exactly two frames come out, holding
    // every sample in original order.
    let mut collector: FrameCollector<f32> = FrameCollector::new(4);
    let mut frames: Vec<Vec<f32>> = Vec::new();
    for chunk in [vec![1.0f32, 2.0, 3.0], vec![4.0, 5.0], vec![6.0, 7.0, 8.0]] {
        if let Some(frame) = collector.add_samples(&chunk) {
            frames.push(frame);
        }
    }
    assert_eq!(frames.len(), 2);
    assert_eq!(frames[0], vec![1.0, 2.0, 3.0, 4.0]);
    assert_eq!(frames[1], vec![5.0, 6.0, 7.0, 8.0]);
}

#[test]
fn surplus_seeds_next_frame() {
    let mut collector: FrameCollector<f32> = FrameCollector::new(4);
    assert!(collector.add_samples(&[1.0, 2.0, 3.0]).is_none());
    let frame = collector.add_samples(&[4.0, 5.0, 6.0]).expect("frame due");
    assert_eq!(frame, vec![1.0, 2.0, 3.0, 4.0]);
    // 5.0 and 6.0 are pending; two more complete the next frame.
    let frame = collector.add_samples(&[7.0, 8.0]).expect("frame due");
    assert_eq!(frame, vec![5.0, 6.0, 7.0, 8.0]);
}

#[test]
fn chunk_of_exactly_frame_size_emits_at_once() {
    let mut collector: FrameCollector<f32> = FrameCollector::new(3);
    let frame = collector.add_samples(&[9.0, 8.0, 7.0]).expect("frame due");
    assert_eq!(frame, vec![9.0, 8.0, 7.0]);
    assert!(collector.add_samples(&[1.0]).is_none());
}

#[test]
fn no_sample_lost_across_many_chunks() {
    let mut collector: FrameCollector<u32> = FrameCollector::new(5);
    let mut out: Vec<u32> = Vec::new();
    let mut next: u32 = 0;
    for chunk_len in [3usize, 4, 2, 1, 4, 3, 3] {
        let chunk: Vec<u32> = (0..chunk_len as u32).map(|k| next + k).collect();
        next += chunk_len as u32;
        if let Some(frame) = collector.add_samples(&chunk) {
            assert_eq!(frame.len(), 5);
            out.extend(frame);
        }
    }
    // 20 samples in total: 4 frames, in order.
    assert_eq!(out, (0..20).collect::<Vec<u32>>());
}
