use glm_evoke::telemetry::ExecutionRecord;
use glm_evoke::telemetry::SequenceCounter;
use glm_evoke::telemetry::TelemetrySink;
use glm_evoke::telemetry::TracingSink;
use std::sync::Mutex;

fn record(detail: &str) -> ExecutionRecord {
    ExecutionRecord { seq: 0, phase: "map", layer: Some(3), detail: detail.to_string() }
}

#[test]
fn numbers_start_with_one_and_rise() {
    let mut sink = TracingSink::new();
    let first = sink.number(record("a"));
    let second = sink.number(record("b"));
    assert_eq!((first.seq, first.detail.as_str()), (1, "a"));
    assert_eq!((second.seq, second.detail.as_str()), (2, "b"));
    assert_eq!(second.phase, "map");
    assert_eq!(second.layer, Some(3));
}

#[test]
fn numbers_of_one_counter_are_unique() {
    let mut counter = SequenceCounter::new();
    let taken: Vec<u64> = (0..1000).map(|_| counter.take()).collect();
    let expected: Vec<u64> = (1..=1000).collect();
    assert_eq!(taken, expected);
    assert_eq!(counter.number(record("next")).seq, 1001);
}

struct Collecting(Mutex<Vec<ExecutionRecord>>);

impl TelemetrySink for Collecting {
    fn emit(&self, record: ExecutionRecord) {
        self.0.lock().unwrap().push(record);
    }
}

#[test]
fn a_sink_takes_copies() {
    let sink = Collecting(Mutex::new(Vec::new()));
    let first = record("copy me");
    sink.emit(first.clone());
    sink.emit(first);
    let seen = sink.0.lock().unwrap();
    assert_eq!(seen.len(), 2);
    assert_eq!(seen[0].detail, seen[1].detail);
}
