use batch_translator::batch::ApiOutcome;
use batch_translator::partition::Chunk;
use batch_translator::store::LineStore;
use batch_translator::worker::{Phase, Step, Worker};

fn numbered(n: usize) -> Vec<String> {
    (0..n).map(|i| format!("{}:::line {}", i, i)).collect()
}

fn text(v: &[&str]) -> Vec<String> {
    v.iter().map(|s| s.to_string()).collect()
}

#[test]
fn start_reports_the_range() {
    let (worker, event) = Worker::start(2, Chunk { start: 4, end: 8 }, 3);
    assert_eq!(worker.phase, Phase::Ready);
    assert_eq!(worker.processed, 0);
    assert_eq!(worker.thread_id, 2);
    assert_eq!(event.thread_id, 2);
    assert_eq!(event.current, 0);
    assert_eq!(event.total, 4);
    assert_eq!(event.message, "Ready. Range: 4-7");
    assert!(!event.append);
}

#[test]
fn start_on_an_empty_chunk_reports_zero_to_zero() {
    let (_, event) = Worker::start(1, Chunk { start: 5, end: 5 }, 3);
    assert_eq!(event.message, "Ready. Range: 0-0");
    assert_eq!(event.total, 0);
}

#[test]
fn poll_hands_out_batches_in_order() {
    let mut store = LineStore::from_lines(numbered(10));
    let (mut worker, _) = Worker::start(1, Chunk { start: 2, end: 9 }, 3);
    let mut batches = Vec::new();
    loop {
        match worker.poll(false) {
            Step::Translate(batch) => {
                batches.push((batch.start, batch.end));
                assert_eq!(worker.phase, Phase::Running);
                let lines = store.range(batch.start, batch.end);
                let event = worker.complete(&mut store, &lines);
                assert_eq!(event.current, batch.end - 2);
                assert_eq!(event.total, 7);
                assert_eq!(event.message, "");
                assert!(!event.append);
                assert_eq!(worker.phase, Phase::Ready);
            }
            Step::Finished(event) => {
                assert_eq!(event.current, 7);
                assert_eq!(event.total, 7);
                assert_eq!(event.message, "Finished.");
                assert!(!event.append);
                break;
            }
            _ => panic!("unexpected step"),
        }
    }
    assert_eq!(batches, vec![(2, 5), (5, 8), (8, 9)]);
    assert_eq!(worker.phase, Phase::Finished);
    assert_eq!(worker.processed, 7);
}

#[test]
fn poll_stops_when_the_signal_is_set() {
    let mut store = LineStore::from_lines(numbered(6));
    let (mut worker, _) = Worker::start(3, Chunk { start: 0, end: 6 }, 2);
    match worker.poll(false) {
        Step::Translate(batch) => {
            assert_eq!((batch.start, batch.end), (0, 2));
            worker.complete(&mut store, &text(&["0:::A", "1:::B"]));
        }
        _ => panic!("expected a batch"),
    }
    match worker.poll(true) {
        Step::Stopped(event) => {
            assert_eq!(event.thread_id, 3);
            assert_eq!(event.current, 2);
            assert_eq!(event.total, 6);
            assert_eq!(event.message, "Stopped.");
            assert!(!event.append);
        }
        _ => panic!("expected the worker to stop"),
    }
    assert_eq!(worker.phase, Phase::Stopped);
    // No further batch, whatever the signal says later.
    assert!(matches!(worker.poll(false), Step::Idle));
    assert!(matches!(worker.poll(true), Step::Idle));
    assert_eq!(worker.phase, Phase::Stopped);
    // What was written stays, what was not reached is as it was.
    let mut expected = numbered(6);
    expected[0] = "0:::A".to_string();
    expected[1] = "1:::B".to_string();
    assert_eq!(store.serialize(), expected);
}

#[test]
fn poll_finishes_when_nothing_is_left_even_if_the_signal_is_set() {
    let mut store = LineStore::from_lines(numbered(2));
    let (mut worker, _) = Worker::start(1, Chunk { start: 0, end: 2 }, 5);
    match worker.poll(false) {
        Step::Translate(batch) => {
            assert_eq!((batch.start, batch.end), (0, 2));
            let lines = store.range(0, 2);
            worker.complete(&mut store, &lines);
        }
        _ => panic!("expected a batch"),
    }
    assert!(matches!(worker.poll(true), Step::Finished(_)));
    assert!(matches!(worker.poll(false), Step::Idle));
}

#[test]
fn poll_while_a_batch_is_out_does_nothing() {
    let (mut worker, _) = Worker::start(1, Chunk { start: 0, end: 4 }, 2);
    assert!(matches!(worker.poll(false), Step::Translate(_)));
    assert!(matches!(worker.poll(false), Step::Idle));
    assert!(matches!(worker.poll(true), Step::Idle));
    assert_eq!(worker.phase, Phase::Running);
    assert_eq!(worker.processed, 0);
}

#[test]
fn complete_writes_at_the_positions_of_the_batch() {
    let mut store = LineStore::from_lines(numbered(5));
    let (mut worker, _) = Worker::start(1, Chunk { start: 1, end: 4 }, 2);
    assert!(matches!(worker.poll(false), Step::Translate(_)));
    worker.complete(&mut store, &text(&["one", "two"]));
    assert!(matches!(worker.poll(false), Step::Translate(_)));
    worker.complete(&mut store, &text(&["three"]));
    assert_eq!(
        store.serialize(),
        text(&["0:::line 0", "one", "two", "three", "4:::line 4"])
    );
    assert_eq!(store.len(), 5);
}

#[test]
fn settle_translates_the_batch_from_the_answer() {
    let mut store = LineStore::from_lines(text(&["0:::head", "1:::Hello", "2:::World"]));
    let (mut worker, _) = Worker::start(1, Chunk { start: 1, end: 3 }, 10);
    assert!(matches!(worker.poll(false), Step::Translate(_)));
    let outcome = ApiOutcome::Answered("1:::Bonjour\n2:::Monde".to_string());
    let (error, progress) = worker.settle(&mut store, &outcome);
    assert!(error.is_none());
    assert_eq!(progress.current, 2);
    assert_eq!(progress.total, 2);
    assert_eq!(store.serialize(), text(&["0:::head", "1:::Bonjour", "2:::Monde"]));
    assert!(matches!(worker.poll(false), Step::Finished(_)));
}

#[test]
fn settle_after_a_failed_call_keeps_the_lines_and_goes_on() {
    let mut store = LineStore::from_lines(text(&["1:::Hello", "2:::World", "3:::More"]));
    let (mut worker, _) = Worker::start(4, Chunk { start: 0, end: 3 }, 2);
    assert!(matches!(worker.poll(false), Step::Translate(_)));
    let outcome = ApiOutcome::Rejected("500 Internal Server Error".to_string());
    let (error, progress) = worker.settle(&mut store, &outcome);
    let error = error.expect("an error event");
    assert_eq!(error.thread_id, 4);
    assert_eq!(error.current, 0);
    assert_eq!(error.total, 3);
    assert_eq!(error.message, "API Error: 500 Internal Server Error");
    assert!(error.append);
    assert_eq!(progress.current, 2);
    assert_eq!(store.serialize(), text(&["1:::Hello", "2:::World", "3:::More"]));
    // The failed batch is not tried again: the next batch is the next one.
    match worker.poll(false) {
        Step::Translate(batch) => assert_eq!((batch.start, batch.end), (2, 3)),
        _ => panic!("expected the next batch"),
    }
    let outcome = ApiOutcome::Failed("connection refused".to_string());
    let (error, _) = worker.settle(&mut store, &outcome);
    let error = error.expect("an error event");
    assert_eq!(error.message, "Exception: connection refused");
    assert_eq!(error.current, 2);
    assert!(matches!(worker.poll(false), Step::Finished(_)));
    assert_eq!(store.serialize(), text(&["1:::Hello", "2:::World", "3:::More"]));
}
