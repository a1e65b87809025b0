use visualizer::channel::SampleChannel;

#[test]
fn round_trip_keeps_order() {
    let mut c = SampleChannel::new(8);
    let samples: Vec<u32> = vec![5, 1, 4, 1, 5, 9];
    assert_eq!(c.push_samples(&samples), 6);
    assert_eq!(c.available(), 6);
    assert_eq!(c.pop_block(6), Some(samples));
    assert_eq!(c.available(), 0);
}

#[test]
fn round_trip_of_sample_words() {
    let mut c = SampleChannel::new(4);
    let samples: Vec<f32> = vec![0.25, -1.0, 0.5, 0.0];
    for s in &samples {
        assert!(c.push(s.to_bits()));
    }
    let block = c.pop_block(4).unwrap();
    let back: Vec<f32> = block.iter().map(|b| f32::from_bits(*b)).collect();
    assert_eq!(back, samples);
}

#[test]
fn push_past_capacity_drops_the_rest() {
    let mut c = SampleChannel::new(3);
    assert_eq!(c.push_samples(&vec![1, 2, 3, 4, 5]), 3);
    assert!(!c.push(6));
    assert_eq!(c.available(), 3);
    assert_eq!(c.capacity(), 3);
    assert_eq!(c.pop_block(3), Some(vec![1, 2, 3]));
}

#[test]
fn pop_block_short_leaves_queue_untouched() {
    let mut c = SampleChannel::new(10);
    c.push_samples(&vec![7, 8, 9]);
    assert_eq!(c.pop_block(4), None);
    assert_eq!(c.available(), 3);
    assert_eq!(c.pop_block(2), Some(vec![7, 8]));
    assert_eq!(c.pop_block(1), Some(vec![9]));
    assert_eq!(c.pop_block(1), None);
}

#[test]
fn pop_block_of_zero_is_empty() {
    let mut c = SampleChannel::new(2);
    assert_eq!(c.pop_block(0), Some(vec![]));
}

#[test]
fn silence_prefill_gives_first_block() {
    let mut c = SampleChannel::with_silence(4096, 2048);
    assert_eq!(c.available(), 2048);
    assert_eq!(c.capacity(), 4096);
    let block = c.pop_block(2048).unwrap();
    assert_eq!(block.len(), 2048);
    assert!(block.iter().all(|s| *s == 0));
    assert_eq!(c.pop_block(2048), None);
}

#[test]
fn interleaved_push_and_pop_is_fifo() {
    let mut c = SampleChannel::new(4);
    c.push_samples(&vec![1, 2, 3, 4]);
    assert_eq!(c.pop_block(2), Some(vec![1, 2]));
    assert_eq!(c.push_samples(&vec![5, 6, 7]), 2);
    assert_eq!(c.pop_block(4), Some(vec![3, 4, 5, 6]));
}

#[test]
fn zero_capacity_takes_nothing() {
    let mut c = SampleChannel::new(0);
    assert!(!c.push(1));
    assert_eq!(c.available(), 0);
}
