use glm_evoke::digest::sha256_hex;
use glm_evoke::dual_mirror::check_operator;
use glm_evoke::dual_mirror::convergence_gate;
use glm_evoke::dual_mirror::empty_record;
use glm_evoke::dual_mirror::hash_record;
use glm_evoke::dual_mirror::reject_at;
use glm_evoke::dual_mirror::reject_for_length_mismatch;
use glm_evoke::dual_mirror::rehash_record;
use glm_evoke::dual_mirror::Evidence;
use glm_evoke::dual_mirror::ExecTrace;
use glm_evoke::dual_mirror::MirrorAction;
use glm_evoke::dual_mirror::MirrorDispatch;
use glm_evoke::dual_mirror::MirrorError;
use glm_evoke::dual_mirror::MirrorResult;
use glm_evoke::dual_mirror::NumberTexts;
use glm_evoke::dual_mirror::Progress;
use glm_evoke::dual_mirror::RejectModule;
use glm_evoke::dual_mirror::Status;
use glm_evoke::dual_mirror::TraceRecord;
use glm_evoke::dual_mirror::ATTEST_SUBJECT;
use glm_evoke::dual_mirror::ENTROPY_BOUND;
use glm_evoke::dual_mirror::GENERATE_SUBJECT;
use glm_evoke::dual_mirror::SEAL_SUBJECT;

fn text(x: f64) -> String {
    serde_json::to_string(&x).unwrap()
}

fn hash(
    seq_id: &str,
    depth: u64,
    state: &[f64],
    operator: &[Vec<f64>],
    entropy: f64,
    prev_hash: &str,
) -> Result<String, MirrorError> {
    let state: Vec<String> = state.iter().map(|x| text(*x)).collect();
    let operator: Vec<Vec<String>> =
        operator.iter().map(|row| row.iter().map(|x| text(*x)).collect()).collect();
    hash_record(seq_id, depth, &state, &operator, &text(entropy), prev_hash)
}

#[test]
fn hash_chain_changes_when_parent_changes() {
    let a = hash("s", 0, &[1.0], &[vec![1.0]], 0.0, "0").unwrap();
    let b = hash("s", 1, &[1.0], &[vec![1.0]], 0.0, &a).unwrap();
    let c = hash("s", 1, &[1.0], &[vec![1.0]], 0.0, "different").unwrap();
    assert_ne!(b, c);
}

#[test]
fn hashes_are_digests_of_the_canonical_text() {
    // {"seq_id":"s","depth":0,"state":[1.0],"operator":[[1.0]],"entropy":0.0,"prev_hash":"0"}
    assert_eq!(
        hash("s", 0, &[1.0], &[vec![1.0]], 0.0, "0").unwrap(),
        "5de99e71d371ea46acf98ccdf67895e48367cbab0c7ebfe2d1fe54c89a1bbefb"
    );
    assert_eq!(
        hash("a\"b\\c\n\u{1}é", u64::MAX, &[], &[], f64::NAN, "").unwrap(),
        "0ed9d19533d07986cccd8bf28fb7ed8c499553a732c9ca42596b5ddfc40f9635"
    );
}

#[test]
fn every_field_changes_the_hash() {
    let base = hash("s", 1, &[1.0, 2.0], &[vec![1.0, 2.0]], 0.5, "p").unwrap();
    assert_eq!(base, hash("s", 1, &[1.0, 2.0], &[vec![1.0, 2.0]], 0.5, "p").unwrap());
    for other in [
        hash("t", 1, &[1.0, 2.0], &[vec![1.0, 2.0]], 0.5, "p"),
        hash("s", 2, &[1.0, 2.0], &[vec![1.0, 2.0]], 0.5, "p"),
        hash("s", 1, &[1.0, 2.5], &[vec![1.0, 2.0]], 0.5, "p"),
        hash("s", 1, &[1.0], &[vec![1.0, 2.0]], 0.5, "p"),
        hash("s", 1, &[1.0, 2.0], &[vec![1.0], vec![2.0]], 0.5, "p"),
        hash("s", 1, &[1.0, 2.0], &[vec![1.0, 2.0], vec![]], 0.5, "p"),
        hash("s", 1, &[1.0, 2.0], &[vec![1.0, 2.0]], 0.25, "p"),
        hash("s", 1, &[1.0, 2.0], &[vec![1.0, 2.0]], 0.5, "q"),
    ] {
        assert_ne!(base, other.unwrap());
    }
}

fn record(depth: u64, hash: &str) -> TraceRecord {
    TraceRecord {
        seq_id: "seq".to_string(),
        depth,
        state: vec![1.0f64.to_bits(), 0.0f64.to_bits()],
        operator: vec![vec![1.0f64.to_bits()]],
        entropy: 0.1f64.to_bits(),
        prev_hash: "p".to_string(),
        hash: hash.to_string(),
    }
}

fn trace(records: Vec<TraceRecord>, head: &str) -> ExecTrace {
    ExecTrace { seq_id: "seq".to_string(), records, head: head.to_string() }
}

/// Evidence for a trace whose records have the hashes that they name and follow `p`, with the
/// given entropy for each operator.
fn measured(trace: &ExecTrace, entropy: f64) -> Evidence {
    Evidence {
        previous_hash: "p".to_string(),
        entropies: vec![entropy.to_bits(); trace.records.len()],
        hashes: trace.records.iter().map(|r| r.hash.clone()).collect(),
    }
}

fn gate(alpha: &ExecTrace, beta: &ExecTrace) -> Result<(), RejectModule> {
    convergence_gate(alpha, beta, &measured(alpha, 0.0))
}

#[test]
fn the_bound_is_one_fifth() {
    assert_eq!(ENTROPY_BOUND, 0.20f64.to_bits());
}

fn after(before: &str, depth: u64, hash: &str) -> TraceRecord {
    TraceRecord { prev_hash: before.to_string(), ..record(depth, hash) }
}

fn refused_pair(second: fn() -> TraceRecord) -> RejectModule {
    let a = trace(vec![record(0, "h0"), second()], "h1");
    let b = trace(vec![record(0, "h0"), second()], "h1");
    gate(&a, &b).unwrap_err()
}

#[test]
fn a_broken_hash_chain_is_refused() {
    let reject = refused_pair(|| after("other", 1, "h1"));
    assert_eq!(reject.depth, 1);
    assert_eq!(reject.delta_hash, sha256_hex(b"h1:h1:broken hash chain"));
}

#[test]
fn a_first_record_with_another_predecessor_is_refused() {
    let a = trace(vec![record(4, "h0")], "h");
    let b = trace(vec![record(4, "h0")], "h");
    let evidence = Evidence { previous_hash: "q".to_string(), ..measured(&a, 0.0) };
    let reject = convergence_gate(&a, &b, &evidence).unwrap_err();
    assert_eq!(reject.depth, 4);
    assert_eq!(reject.delta_hash, sha256_hex(b"h0:h0:broken hash chain"));
    let (a, b) = (trace(vec![], "h"), trace(vec![], "h"));
    let evidence = Evidence { previous_hash: "q".to_string(), ..measured(&a, 0.0) };
    assert!(convergence_gate(&a, &b, &evidence).is_ok());
}

#[test]
fn a_record_with_another_hash_than_its_fields_is_refused() {
    let a = trace(vec![record(0, "h0"), after("h0", 1, "h1")], "h1");
    let b = trace(vec![record(0, "h0"), after("h0", 1, "h1")], "h1");
    let hashes = vec!["h0".to_string(), "h2".to_string()];
    let evidence = Evidence { hashes, ..measured(&a, 0.0) };
    let reject = convergence_gate(&a, &b, &evidence).unwrap_err();
    assert_eq!(reject.depth, 1);
    assert_eq!(reject.delta_hash, sha256_hex(b"h1:h1:record hash mismatch"));
}

fn numbers_of(record: &TraceRecord) -> NumberTexts {
    let texts = |bits: &Vec<u64>| bits.iter().map(|x| text(f64::from_bits(*x))).collect();
    NumberTexts {
        state: texts(&record.state),
        operator: record.operator.iter().map(texts).collect(),
        entropy: text(f64::from_bits(record.entropy)),
    }
}

fn rehash(record: &TraceRecord) -> String {
    rehash_record(record, &numbers_of(record)).unwrap()
}

#[test]
fn only_traces_with_their_own_hashes_are_committed() {
    let build = || {
        let mut first = record(0, "");
        first.hash = rehash(&first);
        let mut second = after(&first.hash, 1, "");
        second.hash = rehash(&second);
        let head = second.hash.clone();
        trace(vec![first, second], &head)
    };
    let rehashed = |t: &ExecTrace| Evidence {
        hashes: t.records.iter().map(rehash).collect(),
        ..measured(t, 0.0)
    };
    let (a, b) = (build(), build());
    assert_eq!(a.records[0].hash, hash("seq", 0, &[1.0, 0.0], &[vec![1.0]], 0.1, "p").unwrap());
    assert!(convergence_gate(&a, &b, &rehashed(&a)).is_ok());

    // Both executions agree on a state that was changed after its hash was taken.
    let (mut a, mut b) = (build(), build());
    a.records[1].state[0] = 3.0f64.to_bits();
    b.records[1].state[0] = 3.0f64.to_bits();
    let reject = convergence_gate(&a, &b, &rehashed(&a)).unwrap_err();
    let h = &a.records[1].hash;
    let reason = format!("{}:{}:record hash mismatch", h, h);
    assert_eq!(reject.delta_hash, sha256_hex(reason.as_bytes()));
}

#[test]
fn a_state_of_another_dimension_is_refused() {
    let reject = refused_pair(|| TraceRecord { state: vec![0], ..after("h0", 1, "h1") });
    assert_eq!(reject.delta_hash, sha256_hex(b"h1:h1:unstable dimensions"));
}

#[test]
fn numbers_that_are_not_finite_are_refused() {
    for x in [f64::INFINITY, f64::NEG_INFINITY] {
        let bad = || TraceRecord { operator: vec![vec![x.to_bits()]], ..record(0, "h0") };
        let reject = refused(bad(), bad(), 0.0);
        assert_eq!(reject.delta_hash, sha256_hex(b"h0:h0:invalid operator"));
        let bad = || TraceRecord { state: vec![0, x.to_bits()], ..record(0, "h0") };
        let reject = refused(bad(), bad(), 0.0);
        assert_eq!(reject.delta_hash, sha256_hex(b"h0:h0:non-finite state"));
    }
    let bad = || TraceRecord { operator: vec![vec![f64::NAN.to_bits()]], ..record(0, "h0") };
    assert_eq!(
        refused(bad(), bad(), 0.0).delta_hash,
        sha256_hex(b"h0:h0:invalid operator")
    );
    let extremes = [f64::MAX.to_bits(), f64::MIN.to_bits()];
    let large = || TraceRecord { state: extremes.to_vec(), ..record(0, "h0") };
    let (a, b) = (trace(vec![large()], "h"), trace(vec![large()], "h"));
    assert!(gate(&a, &b).is_ok());
}

#[test]
fn equal_traces_converge() {
    let a = trace(vec![record(0, "h0"), after("h0", 1, "h1")], "h1");
    let b = trace(vec![record(0, "h0"), after("h0", 1, "h1")], "h1");
    assert!(gate(&a, &b).is_ok());
    assert!(gate(&trace(vec![], "x"), &trace(vec![], "x")).is_ok());
}

#[test]
fn the_two_zeros_are_equal() {
    let a = record(0, "h0");
    let b = TraceRecord { state: vec![1.0f64.to_bits(), (-0.0f64).to_bits()], ..record(0, "h0") };
    assert!(gate(&trace(vec![a], "h"), &trace(vec![b], "h")).is_ok());
}

fn refused(alpha: TraceRecord, beta: TraceRecord, entropy: f64) -> RejectModule {
    let alpha = trace(vec![alpha], "h");
    let beta = trace(vec![beta], "h");
    convergence_gate(&alpha, &beta, &measured(&alpha, entropy)).unwrap_err()
}

#[test]
fn an_operator_that_is_not_square_is_refused() {
    let bad = TraceRecord { operator: vec![vec![0], vec![0]], ..record(0, "h0") };
    let reject = refused(bad, record(0, "h0"), 9.0);
    assert_eq!(
        reject.delta_hash,
        "4c3e9fea43c916763a3a0729eec3a93cac9f70031e522c85e12b97e45a9e35c1"
    );
    let bad = TraceRecord { operator: vec![], ..record(0, "h0") };
    let again = refused(bad, record(0, "h0"), 0.0);
    assert_eq!(again.delta_hash, reject.delta_hash);
}

#[test]
fn an_entropy_above_the_bound_is_refused() {
    let expected = "63383fa9fa2064ba0f945c4329223cb739990a98f5f16b7594559aea03c6aadd";
    for entropy in [0.20000000000000004, 0.21, 5.0, f64::INFINITY, f64::NAN, -f64::NAN] {
        let reject = refused(record(0, "h0"), record(0, "h0"), entropy);
        assert_eq!(reject.delta_hash, expected);
    }
    for entropy in [0.20, 0.1, 0.0, -0.0, -5.0, f64::NEG_INFINITY] {
        let a = trace(vec![record(0, "h0")], "h");
        let b = trace(vec![record(0, "h0")], "h");
        assert!(convergence_gate(&a, &b, &measured(&a, entropy)).is_ok());
    }
}

#[test]
fn a_different_hash_is_refused() {
    let reject = refused(record(3, "ha"), record(4, "hb"), 0.0);
    assert_eq!(reject.event, "RejectModule");
    assert_eq!(reject.seq_id, "seq");
    assert_eq!(reject.depth, 3);
    assert_eq!((reject.alpha.hash.as_str(), reject.beta.hash.as_str()), ("ha", "hb"));
    assert_eq!(
        reject.delta_hash,
        "3feb08a3edd25bff80f6bf96b1b4b118d0c71d02cbb16ccb1749b1929b0d3d9a"
    );
}

#[test]
fn a_different_state_is_refused() {
    let expected = "2203143a904ec5fa22a5ca0c586d0f845407889e7af974e5de0182f0b5cd538c";
    for other in [
        TraceRecord { prev_hash: "q".to_string(), ..record(0, "h0") },
        TraceRecord { state: vec![2.0f64.to_bits(), 0], ..record(0, "h0") },
        TraceRecord { state: vec![1.0f64.to_bits()], ..record(0, "h0") },
        record(1, "h0"),
    ] {
        assert_eq!(refused(record(0, "h0"), other, 0.0).delta_hash, expected);
    }
    let nan = || TraceRecord { state: vec![f64::NAN.to_bits()], ..record(0, "h0") };
    assert_eq!(refused(nan(), nan(), 0.0).delta_hash, expected);
}

#[test]
fn traces_of_different_lengths_are_refused() {
    let a = trace(vec![record(7, "h0")], "h");
    let b = trace(vec![], "h");
    let reject = gate(&a, &b).unwrap_err();
    assert_eq!(
        reject.delta_hash,
        "4ca6ae4c8044ab0f57e7964600f5548fa2ed02ae1a520c4ff6f0f68c9af9e26c"
    );
    assert_eq!((reject.seq_id.as_str(), reject.depth), ("seq", 7));
    assert_eq!(reject.beta.seq_id, "");
    assert_eq!(reject_for_length_mismatch(&a, &b).delta_hash, reject.delta_hash);
}

#[test]
fn different_heads_are_refused() {
    let a = trace(vec![record(0, "h0")], "one");
    let b = trace(vec![record(0, "h0")], "two");
    let reject = gate(&a, &b).unwrap_err();
    assert_eq!(
        reject.delta_hash,
        "ecb25bf23ac92299fb5385175e94c887a18bcffa5393b978439624c1d89310c3"
    );
    let reject = gate(&trace(vec![], "one"), &trace(vec![], "two")).unwrap_err();
    assert_eq!(
        reject.delta_hash,
        "122ba14f5157d4a96f5014ad19dd2a125b2c11d62b50adc61e8ce5f55a6f1213"
    );
    assert_eq!((reject.seq_id.as_str(), reject.depth), ("", 0));
}

#[test]
fn the_first_disagreement_is_reported() {
    let a = trace(vec![record(0, "h0"), after("h0", 1, "ha"), after("ha", 2, "x")], "one");
    let b = trace(vec![record(0, "h0"), after("h0", 1, "hb"), after("hb", 2, "y")], "two");
    let reject = gate(&a, &b).unwrap_err();
    assert_eq!(reject.depth, 1);
}

#[test]
fn operators_are_square() {
    assert!(check_operator(&vec![vec![1, 2], vec![3, 4]]).is_ok());
    match check_operator(&vec![vec![1, 2], vec![3]]) {
        Err(MirrorError::InvalidTensor(msg)) => {
            assert_eq!(msg, "operator must be non-empty and square")
        }
        other => panic!("{:?}", other),
    }
    assert!(check_operator(&vec![]).is_err());
}

fn label(action: &MirrorAction<'_>) -> String {
    match action {
        MirrorAction::Commit(t) => format!("commit {}", t.head),
        MirrorAction::PublishTrace { subject, trace } => format!("{} {}", subject, trace.head),
        MirrorAction::PublishSeal { subject, seq_id, status } => {
            format!("{} {} {:?}", subject, seq_id, status)
        }
        MirrorAction::Quarantine { seq_id, depth } => format!("quarantine {} {}", seq_id, depth),
        MirrorAction::DropContext { seq_id } => format!("drop {}", seq_id),
        MirrorAction::PublishReject { subject, reject } => format!("{} {}", subject, reject.event),
    }
}

fn run(
    alpha: ExecTrace,
    beta: ExecTrace,
    fail_at: usize,
) -> (Vec<String>, Result<MirrorResult, MirrorError>) {
    let evidence = measured(&alpha, 0.0);
    let mut actions = Vec::new();
    let mut dispatch =
        match MirrorDispatch::begin("id".to_string(), Ok(alpha), Ok(beta), &evidence) {
            Ok(dispatch) => dispatch,
            Err(e) => return (actions, Err(e)),
        };
    loop {
        actions.push(label(&dispatch.action()));
        let outcome = if actions.len() == fail_at {
            Err(MirrorError::Nats("down".to_string()))
        } else {
            Ok(())
        };
        match dispatch.advance(outcome) {
            Progress::Continue(next) => dispatch = next,
            Progress::Finished(result) => return (actions, result),
        }
    }
}

#[test]
fn a_pair_that_converges_is_committed_then_published() {
    let a = trace(vec![record(0, "h0")], "head");
    let b = trace(vec![record(0, "h0")], "head");
    let (actions, result) = run(a, b, 0);
    assert_eq!(
        actions,
        vec![
            "commit head",
            "glm.evoke.generate head",
            "glm.evoke.attest head",
            "glm.evoke.seal id Committed",
        ]
    );
    let result = result.unwrap();
    assert_eq!(result.status, Status::Committed);
    assert_eq!((result.alpha.head.as_str(), result.beta.records.len()), ("head", 1));
}

#[test]
fn a_pair_that_does_not_converge_is_never_committed() {
    let a = trace(vec![record(9, "ha")], "head");
    let b = trace(vec![record(9, "hb")], "head");
    let (actions, result) = run(a, b, 0);
    assert_eq!(
        actions,
        vec!["quarantine id 9", "drop id", "glm.evoke.seal RejectModule"]
    );
    match result {
        Err(MirrorError::Refuted(reject)) => assert_eq!(reject.depth, 9),
        other => panic!("{:?}", other),
    }
}

#[test]
fn a_failed_action_ends_the_request() {
    for fail_at in 1..=4 {
        let a = trace(vec![record(0, "h0")], "head");
        let b = trace(vec![record(0, "h0")], "head");
        let (actions, result) = run(a, b, fail_at);
        assert_eq!(actions.len(), fail_at);
        assert!(matches!(result, Err(MirrorError::Nats(msg)) if msg == "down"));
    }
    for fail_at in 1..=3 {
        let a = trace(vec![record(0, "ha")], "head");
        let b = trace(vec![record(0, "hb")], "head");
        let (actions, result) = run(a, b, fail_at);
        assert_eq!(actions.len(), fail_at);
        assert!(matches!(result, Err(MirrorError::Nats(_))));
    }
}

#[test]
fn a_failed_execution_ends_the_request() {
    let failed = |m: &str| Err(MirrorError::Execution(m.to_string()));
    let nothing = measured(&trace(vec![], "h"), 0.0);
    let both = MirrorDispatch::begin("id".to_string(), failed("a"), failed("b"), &nothing);
    assert!(matches!(both, Err(MirrorError::Execution(m)) if m == "a"));
    let ok = trace(vec![], "h");
    let second = MirrorDispatch::begin("id".to_string(), Ok(ok), failed("b"), &nothing);
    assert!(matches!(second, Err(MirrorError::Execution(m)) if m == "b"));
}

#[test]
fn mirror_error_texts() {
    assert_eq!(MirrorError::Execution("e".to_string()).message(), "execution failed: e");
    assert_eq!(MirrorError::Serialization("s".to_string()).message(), "serialization failed: s");
    assert_eq!(MirrorError::Nats("n".to_string()).message(), "NATS failed: n");
    assert_eq!(MirrorError::InvalidTensor("t".to_string()).message(), "invalid tensor: t");
    let reject = reject_at(&record(12, "x"), &empty_record(), "r");
    assert_eq!(MirrorError::Refuted(reject).message(), "mirror refuted at seq:12");
}

#[test]
fn subjects() {
    assert_eq!(GENERATE_SUBJECT, "glm.evoke.generate");
    assert_eq!(ATTEST_SUBJECT, "glm.evoke.attest");
    assert_eq!(SEAL_SUBJECT, "glm.evoke.seal");
}
