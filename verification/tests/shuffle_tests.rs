use rustcast::{DrainStep, InfiniteShuffleStream};

fn collect_finite(stream: &mut InfiniteShuffleStream, source: &[u64]) -> Vec<u64> {
    let mut results = Vec::new();
    for item in source {
        if let Some(x) = stream.next_item(*item) {
            results.push(x);
        }
    }
    loop {
        match stream.exhausted_step() {
            DrainStep::Drained(x) => results.push(x),
            DrainStep::Finished => break,
            DrainStep::Restart => panic!("a non-repeating stream never restarts"),
        }
    }
    results
}

#[test]
fn test_stream_no_repeat_no_shuffle() {
    let mut stream = InfiniteShuffleStream::new(false, false);
    let source: Vec<u64> = vec![1, 2, 3, 4, 5, 6, 7, 8, 9, 10];
    let results = stream.stream_finite(&source);
    // When no shuffle is enabled, we expect the items in their original order
    // Since shuffle probability is set to 1.0
    assert_eq!(results, vec![1, 2, 3, 4, 5, 6, 7, 8, 9, 10]);
}

#[test]
fn test_stream_with_repeat() {
    let mut stream = InfiniteShuffleStream::new(true, false);
    let source: Vec<u64> = vec![1, 2, 3, 4, 5, 6, 7, 8, 9, 10];

    // With repeat enabled, the stream will continue indefinitely
    // So we only take the first 20 items
    let mut results = Vec::new();
    while results.len() < 20 {
        for item in &source {
            if let Some(x) = stream.next_item(*item) {
                results.push(x);
            }
        }
        match stream.exhausted_step() {
            DrainStep::Restart => {}
            _ => panic!("a repeating stream always restarts"),
        }
    }

    // We should get the sequence repeated
    assert_eq!(results[0..10], vec![1, 2, 3, 4, 5, 6, 7, 8, 9, 10]);
    assert_eq!(results[10..20], vec![1, 2, 3, 4, 5, 6, 7, 8, 9, 10]);
}

#[test]
fn test_stream_with_shuffle() {
    let mut stream = InfiniteShuffleStream::new(false, true);
    let source: Vec<u64> = vec![1, 2, 3, 4, 5, 6, 7, 8, 9, 10];
    let results = stream.stream_finite(&source);

    // With shuffle enabled, we expect:
    // 1. All original items should still be present
    // 2. The order should likely be different from the original
    let mut sorted = results.clone();
    sorted.sort();
    sorted.dedup();
    assert_eq!(sorted.len(), 10);
    for i in 1..=10u64 {
        assert!(results.contains(&i));
    }

    assert!(results.len() == 10, "Expected same number of items");
}

#[test]
fn test_shuffle_step_conserves_items() {
    let mut stream = InfiniteShuffleStream::new(false, true);
    let mut emitted = Vec::new();
    for item in 0..100u64 {
        if let Some(x) = collect_finite(&mut InfiniteShuffleStream::new(false, false), &[item]).pop()
        {
            assert_eq!(x, item);
        }
        if let Some(x) = stream.next_item(item) {
            emitted.push(x);
        }
    }
    // at most the deque capacity is parked at any time
    assert!(stream.stored.len() <= 8);
    assert_eq!(emitted.len() + stream.stored.len(), 100);
}
