//! Two executions of one request, whose result counts only if they converge.
//!
//! Numbers are kept as the bits of their IEEE 754 double-precision representation.

use vstd::prelude::*;
use vstd::string::StringExecFns;

use crate::digest::has_digest;
use crate::digest::sha256_hex;
use crate::digest::text_digest;
use crate::json::quote;
use crate::json::quoted;
use crate::text::comma_joined;
use crate::text::comma_joined_push;
use crate::text::decimal;
use crate::text::push_decimal;

verus! {

/// Subject on which requests and primary traces are published.
pub const GENERATE_SUBJECT: &'static str = "glm.evoke.generate";

/// Subject on which attestations and mirror traces are published.
pub const ATTEST_SUBJECT: &'static str = "glm.evoke.attest";

/// Subject on which the outcome is published.
pub const SEAL_SUBJECT: &'static str = "glm.evoke.seal";

/// The bits of one fifth: the highest entropy that an operator may have.
pub const ENTROPY_BOUND: u64 = 0x3FC9_9999_9999_999A;

/// The bits of a number without its sign.
pub open spec fn magnitude(bits: u64) -> u64 {
    bits % 0x8000_0000_0000_0000
}

/// Whether the bits are those of no number.
pub open spec fn is_nan(bits: u64) -> bool {
    magnitude(bits) > 0x7FF0_0000_0000_0000
}

/// Whether two numbers are equal: the two zeros are, what is no number equals nothing.
pub open spec fn same_number(a: u64, b: u64) -> bool {
    &&& !is_nan(a)
    &&& !is_nan(b)
    &&& a == b || (magnitude(a) == 0 && magnitude(b) == 0)
}

/// Whether two vectors of numbers are equal.
pub open spec fn same_numbers(a: Seq<u64>, b: Seq<u64>) -> bool {
    &&& a.len() == b.len()
    &&& forall|i: int| 0 <= i < a.len() ==> same_number(#[trigger] a[i], b[i])
}

/// Whether the bits are those of a finite number.
pub open spec fn is_finite(bits: u64) -> bool {
    magnitude(bits) < 0x7FF0_0000_0000_0000
}

/// Whether all numbers of a vector are finite.
pub open spec fn all_finite(numbers: Seq<u64>) -> bool {
    forall|i: int| 0 <= i < numbers.len() ==> is_finite(#[trigger] numbers[i])
}

/// Whether an entropy is at most the bound. What is no number is not; what is negative is.
pub open spec fn keeps_to_bound(entropy: u64) -> bool {
    !is_nan(entropy) && (entropy <= ENTROPY_BOUND || entropy >= 0x8000_0000_0000_0000)
}

/// Whether an entropy is at most the bound.
fn is_within_bound(entropy: u64) -> (within: bool)
    ensures
        within == keeps_to_bound(entropy),
{
    let sign: u64 = 0x8000_0000_0000_0000;
    entropy % sign <= 0x7FF0_0000_0000_0000 && (entropy <= ENTROPY_BOUND || entropy >= sign)
}

/// Whether all numbers of a vector are finite.
fn vector_is_finite(numbers: &Vec<u64>) -> (finite: bool)
    ensures
        finite == all_finite(numbers@),
{
    let mut i: usize = 0;
    while i < numbers.len()
        invariant
            i <= numbers@.len(),
            forall|j: int| 0 <= j < i ==> is_finite(#[trigger] numbers@[j]),
        decreases numbers@.len() - i,
    {
        if numbers[i] % 0x8000_0000_0000_0000 >= 0x7FF0_0000_0000_0000 {
            assert(!is_finite(numbers@[i as int]));
            return false;
        }
        i += 1;
    }
    true
}

/// Whether two numbers are equal.
fn numbers_agree(a: u64, b: u64) -> (same: bool)
    ensures
        same == same_number(a, b),
{
    let sign: u64 = 0x8000_0000_0000_0000;
    let top: u64 = 0x7FF0_0000_0000_0000;
    let size_a: u64 = a % sign;
    let size_b: u64 = b % sign;
    size_a <= top && size_b <= top && (a == b || (size_a == 0 && size_b == 0))
}

/// Whether two vectors of numbers are equal.
fn vectors_agree(a: &Vec<u64>, b: &Vec<u64>) -> (same: bool)
    ensures
        same == same_numbers(a@, b@),
{
    if a.len() != b.len() {
        return false;
    }
    let mut i: usize = 0;
    while i < a.len()
        invariant
            i <= a@.len(),
            a@.len() == b@.len(),
            forall|j: int| 0 <= j < i ==> same_number(#[trigger] a@[j], b@[j]),
        decreases a@.len() - i,
    {
        if !numbers_agree(a[i], b[i]) {
            assert(!same_number(a@[i as int], b@[i as int]));
            return false;
        }
        i += 1;
    }
    true
}

/// One step of a traced execution, chained to the step before it by `prev_hash`.
#[derive(Debug)]
pub struct TraceRecord {
    pub seq_id: String,
    pub depth: u64,
    pub state: Vec<u64>,
    pub operator: Vec<Vec<u64>>,
    pub entropy: u64,
    pub prev_hash: String,
    pub hash: String,
}

/// A [`TraceRecord`] as a mathematical value.
pub ghost struct TraceModel {
    pub seq_id: Seq<char>,
    pub depth: u64,
    pub state: Seq<u64>,
    pub operator: Seq<Seq<u64>>,
    pub entropy: u64,
    pub prev_hash: Seq<char>,
    pub hash: Seq<char>,
}

impl View for TraceRecord {
    type V = TraceModel;

    open spec fn view(&self) -> TraceModel {
        TraceModel {
            seq_id: self.seq_id@,
            depth: self.depth,
            state: self.state@,
            operator: self.operator@.map_values(|row: Vec<u64>| row@),
            entropy: self.entropy,
            prev_hash: self.prev_hash@,
            hash: self.hash@,
        }
    }
}

/// A copy of a vector of numbers.
fn copy_numbers(numbers: &Vec<u64>) -> (copy: Vec<u64>)
    ensures
        copy@ == numbers@,
{
    let mut copy: Vec<u64> = Vec::new();
    copy.extend_from_slice(numbers.as_slice());
    proof {
        assert(copy@ =~= numbers@);
    }
    copy
}

impl Clone for TraceRecord {
    fn clone(&self) -> (copy: TraceRecord)
        ensures
            copy@ == self@,
    {
        let mut operator: Vec<Vec<u64>> = Vec::new();
        let mut i: usize = 0;
        while i < self.operator.len()
            invariant
                i <= self.operator@.len(),
                operator@.len() == i,
                forall|j: int| 0 <= j < i ==> (#[trigger] operator@[j])@ == self.operator@[j]@,
            decreases self.operator@.len() - i,
        {
            operator.push(copy_numbers(&self.operator[i]));
            i += 1;
        }
        let copy = TraceRecord {
            seq_id: self.seq_id.clone(),
            depth: self.depth,
            state: copy_numbers(&self.state),
            operator,
            entropy: self.entropy,
            prev_hash: self.prev_hash.clone(),
            hash: self.hash.clone(),
        };
        proof {
            assert(copy@.operator =~= self@.operator);
        }
        copy
    }
}

/// A traced execution.
#[derive(Debug)]
pub struct ExecTrace {
    pub seq_id: String,
    pub records: Vec<TraceRecord>,
    pub head: String,
}

/// An [`ExecTrace`] as a mathematical value.
pub ghost struct ExecModel {
    pub seq_id: Seq<char>,
    pub records: Seq<TraceModel>,
    pub head: Seq<char>,
}

impl View for ExecTrace {
    type V = ExecModel;

    open spec fn view(&self) -> ExecModel {
        ExecModel {
            seq_id: self.seq_id@,
            records: self.records@.map_values(|r: TraceRecord| r@),
            head: self.head@,
        }
    }
}

/// What is reported of two executions that disagree.
#[derive(Debug)]
pub struct RejectModule {
    pub event: &'static str,
    pub seq_id: String,
    pub depth: u64,
    pub delta_hash: String,
    pub alpha: TraceRecord,
    pub beta: TraceRecord,
}

/// A [`RejectModule`] as a mathematical value.
pub ghost struct RejectModel {
    pub event: Seq<char>,
    pub seq_id: Seq<char>,
    pub depth: u64,
    pub delta_hash: Seq<char>,
    pub alpha: TraceModel,
    pub beta: TraceModel,
}

impl View for RejectModule {
    type V = RejectModel;

    open spec fn view(&self) -> RejectModel {
        RejectModel {
            event: self.event@,
            seq_id: self.seq_id@,
            depth: self.depth,
            delta_hash: self.delta_hash@,
            alpha: self.alpha@,
            beta: self.beta@,
        }
    }
}

/// How a pair of executions ended.
#[derive(Debug, Clone, Copy, PartialEq, Eq, Structural)]
pub enum Status {
    Committed,
    Refuted,
}

/// Two executions that agree.
#[derive(Debug)]
pub struct MirrorResult {
    pub status: Status,
    pub alpha: ExecTrace,
    pub beta: ExecTrace,
}

/// Why a pair of executions has no result. Errors of the outside are kept as their text.
#[derive(Debug)]
pub enum MirrorError {
    Execution(String),
    Serialization(String),
    Nats(String),
    InvalidTensor(String),
    Refuted(RejectModule),
}

/// A [`MirrorError`] as a mathematical value.
pub ghost enum MirrorFault {
    Execution(Seq<char>),
    Serialization(Seq<char>),
    Nats(Seq<char>),
    InvalidTensor(Seq<char>),
    Refuted(RejectModel),
}

impl View for MirrorError {
    type V = MirrorFault;

    open spec fn view(&self) -> MirrorFault {
        match *self {
            MirrorError::Execution(e) => MirrorFault::Execution(e@),
            MirrorError::Serialization(e) => MirrorFault::Serialization(e@),
            MirrorError::Nats(e) => MirrorFault::Nats(e@),
            MirrorError::InvalidTensor(e) => MirrorFault::InvalidTensor(e@),
            MirrorError::Refuted(reject) => MirrorFault::Refuted(reject@),
        }
    }
}

impl MirrorFault {
    /// The text of the error.
    pub open spec fn message(self) -> Seq<char> {
        match self {
            MirrorFault::Execution(e) => "execution failed: "@ + e,
            MirrorFault::Serialization(e) => "serialization failed: "@ + e,
            MirrorFault::Nats(e) => "NATS failed: "@ + e,
            MirrorFault::InvalidTensor(e) => "invalid tensor: "@ + e,
            MirrorFault::Refuted(reject) => "mirror refuted at "@ + reject.seq_id + ":"@ + decimal(
                reject.depth as nat,
            ),
        }
    }
}

impl MirrorError {
    /// The text of the error.
    pub fn message(&self) -> (text: String)
        ensures
            text@ == self@.message(),
    {
        let mut text: String = String::new();
        match self {
            MirrorError::Execution(e) => {
                text.append("execution failed: ");
                text.append(e.as_str());
            },
            MirrorError::Serialization(e) => {
                text.append("serialization failed: ");
                text.append(e.as_str());
            },
            MirrorError::Nats(e) => {
                text.append("NATS failed: ");
                text.append(e.as_str());
            },
            MirrorError::InvalidTensor(e) => {
                text.append("invalid tensor: ");
                text.append(e.as_str());
            },
            MirrorError::Refuted(reject) => {
                text.append("mirror refuted at ");
                text.append(reject.seq_id.as_str());
                text.append(":");
                push_decimal(&mut text, reject.depth as u128);
            },
        }
        proof {
            assert(text@ =~= self@.message());
        }
        text
    }
}

/// Whether an operator is a square matrix that is not empty.
pub open spec fn is_square(operator: Seq<Seq<u64>>) -> bool {
    &&& operator.len() > 0
    &&& forall|i: int| 0 <= i < operator.len() ==> (#[trigger] operator[i]).len() == operator.len()
}

/// Checks that an operator is a square matrix that is not empty.
pub fn check_operator(operator: &Vec<Vec<u64>>) -> (checked: Result<(), MirrorError>)
    ensures
        checked is Ok <==> is_square(operator@.map_values(|row: Vec<u64>| row@)),
        match checked {
            Ok(_) => true,
            Err(e) => e@ == MirrorFault::InvalidTensor("operator must be non-empty and square"@),
        },
{
    let ghost model = operator@.map_values(|row: Vec<u64>| row@);
    let n: usize = operator.len();
    let mut square: bool = n > 0;
    let mut i: usize = 0;
    while i < n
        invariant
            i <= n,
            n == operator@.len(),
            model == operator@.map_values(|row: Vec<u64>| row@),
            square == (n > 0 && forall|j: int| 0 <= j < i ==> (#[trigger] model[j]).len() == n),
        decreases n - i,
    {
        assert(model[i as int] == operator@[i as int]@);
        if operator[i].len() != n {
            square = false;
        }
        i += 1;
    }
    if square {
        Ok(())
    } else {
        Err(MirrorError::InvalidTensor("operator must be non-empty and square".to_owned()))
    }
}

/// A record of nothing.
pub open spec fn empty_model() -> TraceModel {
    TraceModel {
        seq_id: Seq::empty(),
        depth: 0,
        state: Seq::empty(),
        operator: Seq::empty(),
        entropy: 0,
        prev_hash: Seq::empty(),
        hash: Seq::empty(),
    }
}

/// A record of nothing.
pub fn empty_record() -> (record: TraceRecord)
    ensures
        record@ == empty_model(),
{
    let record = TraceRecord {
        seq_id: String::new(),
        depth: 0,
        state: Vec::new(),
        operator: Vec::new(),
        entropy: 0,
        prev_hash: String::new(),
        hash: String::new(),
    };
    proof {
        assert(record@.operator =~= Seq::<Seq<u64>>::empty());
        assert(record@.seq_id =~= Seq::<char>::empty());
    }
    record
}

/// The last record, or a record of nothing.
pub open spec fn last_or_empty(records: Seq<TraceModel>) -> TraceModel {
    if records.len() == 0 {
        empty_model()
    } else {
        records.last()
    }
}

/// The text whose digest identifies a disagreement.
pub open spec fn reject_text(a: TraceModel, b: TraceModel, reason: Seq<char>) -> Seq<char> {
    a.hash + ":"@ + b.hash + ":"@ + reason
}

/// What is reported of two records that disagree.
pub open spec fn rejection(a: TraceModel, b: TraceModel, reason: Seq<char>) -> RejectModel {
    RejectModel {
        event: "RejectModule"@,
        seq_id: a.seq_id,
        depth: a.depth,
        delta_hash: text_digest(reject_text(a, b, reason)),
        alpha: a,
        beta: b,
    }
}

/// Reports two records that disagree.
pub fn reject_at(a: &TraceRecord, b: &TraceRecord, reason: &str) -> (reject: RejectModule)
    requires
        has_digest(reject_text(a@, b@, reason@)),
    ensures
        reject@ == rejection(a@, b@, reason@),
{
    let mut text: String = a.hash.clone();
    text.append(":");
    text.append(b.hash.as_str());
    text.append(":");
    text.append(reason);
    RejectModule {
        event: "RejectModule",
        seq_id: a.seq_id.clone(),
        depth: a.depth,
        delta_hash: sha256_hex(text.as_str().as_bytes()),
        alpha: a.clone(),
        beta: b.clone(),
    }
}

/// Reports the last records of two traces.
fn reject_last(alpha: &ExecTrace, beta: &ExecTrace, reason: &str) -> (reject: RejectModule)
    requires
        has_digest(
            reject_text(last_or_empty(alpha@.records), last_or_empty(beta@.records), reason@),
        ),
    ensures
        reject@ == rejection(
            last_or_empty(alpha@.records),
            last_or_empty(beta@.records),
            reason@,
        ),
{
    let nothing: TraceRecord = empty_record();
    let a: &TraceRecord = if alpha.records.len() == 0 {
        &nothing
    } else {
        &alpha.records[alpha.records.len() - 1]
    };
    let b: &TraceRecord = if beta.records.len() == 0 {
        &nothing
    } else {
        &beta.records[beta.records.len() - 1]
    };
    reject_at(a, b, reason)
}

/// Reports two traces of different lengths.
pub fn reject_for_length_mismatch(alpha: &ExecTrace, beta: &ExecTrace) -> (reject: RejectModule)
    requires
        has_digest(
            reject_text(
                last_or_empty(alpha@.records),
                last_or_empty(beta@.records),
                "trace length mismatch"@,
            ),
        ),
    ensures
        reject@ == rejection(
            last_or_empty(alpha@.records),
            last_or_empty(beta@.records),
            "trace length mismatch"@,
        ),
{
    reject_last(alpha, beta, "trace length mismatch")
}

/// Whether all entries of an operator are finite.
pub open spec fn is_finite_operator(operator: Seq<Seq<u64>>) -> bool {
    forall|i: int| 0 <= i < operator.len() ==> all_finite(#[trigger] operator[i])
}

/// Whether all entries of an operator are finite.
fn operator_is_finite(operator: &Vec<Vec<u64>>) -> (finite: bool)
    ensures
        finite == is_finite_operator(operator@.map_values(|row: Vec<u64>| row@)),
{
    let ghost model = operator@.map_values(|row: Vec<u64>| row@);
    let mut i: usize = 0;
    while i < operator.len()
        invariant
            i <= operator@.len(),
            model == operator@.map_values(|row: Vec<u64>| row@),
            forall|j: int| 0 <= j < i ==> all_finite(#[trigger] model[j]),
        decreases operator@.len() - i,
    {
        if !vector_is_finite(&operator[i]) {
            assert(!all_finite(model[i as int]));
            return false;
        }
        i += 1;
    }
    true
}

/// Why a record of the mirror, or the operator or the state of a record, is not accepted.
/// `entropy` is the entropy of the operator.
pub open spec fn pair_reason(a: TraceModel, b: TraceModel, entropy: u64) -> Option<Seq<char>> {
    if !is_square(a.operator) || !is_finite_operator(a.operator) {
        Some("invalid operator"@)
    } else if !keeps_to_bound(entropy) {
        Some("entropy boundary exceeded"@)
    } else if a.hash != b.hash {
        Some("mirror hash mismatch"@)
    } else if a.prev_hash != b.prev_hash || !same_numbers(a.state, b.state) || a.depth != b.depth {
        Some("state record mismatch"@)
    } else if !all_finite(a.state) {
        Some("non-finite state"@)
    } else {
        None
    }
}

/// What is known of the first of two traces besides its records: the hash that the first record
/// has to follow and, for each record, the entropy of its operator and the hash of its fields,
/// both computed anew.
#[derive(Debug)]
pub struct Evidence {
    pub previous_hash: String,
    pub entropies: Vec<u64>,
    pub hashes: Vec<String>,
}

/// An [`Evidence`] as a mathematical value.
pub ghost struct EvidenceModel {
    pub previous_hash: Seq<char>,
    pub entropies: Seq<u64>,
    pub hashes: Seq<Seq<char>>,
}

impl EvidenceModel {
    /// Whether there is an entry for each of the records.
    pub open spec fn covers(self, records: Seq<TraceModel>) -> bool {
        self.entropies.len() == records.len() && self.hashes.len() == records.len()
    }
}

impl View for Evidence {
    type V = EvidenceModel;

    open spec fn view(&self) -> EvidenceModel {
        EvidenceModel {
            previous_hash: self.previous_hash@,
            entropies: self.entropies@,
            hashes: text_models(self.hashes@),
        }
    }
}

/// Why a record does not follow the one before it: it must name that one's hash as its
/// predecessor, and its state must have the same dimension.
pub open spec fn link_reason(before: TraceModel, a: TraceModel) -> Option<Seq<char>> {
    if a.prev_hash != before.hash {
        Some("broken hash chain"@)
    } else if a.state.len() != before.state.len() {
        Some("unstable dimensions"@)
    } else {
        None
    }
}

/// Why the `i`-th record stands in the wrong place: it does not follow the one before it, or, as
/// the first one, does not follow the given hash.
pub open spec fn place_reason(
    records: Seq<TraceModel>,
    evidence: EvidenceModel,
    i: int,
) -> Option<Seq<char>> {
    if i > 0 {
        link_reason(records[i - 1], records[i])
    } else if records[i].prev_hash != evidence.previous_hash {
        Some("broken hash chain"@)
    } else {
        None
    }
}

/// Why the `i`-th pair of records is not accepted: by itself, by its place, or because its hash is
/// not the hash of its fields.
pub open spec fn step_reason(
    alpha: Seq<TraceModel>,
    beta: Seq<TraceModel>,
    evidence: EvidenceModel,
    i: int,
) -> Option<Seq<char>> {
    match (
        pair_reason(alpha[i], beta[i], evidence.entropies[i]),
        place_reason(alpha, evidence, i),
    ) {
        (Some(reason), _) => Some(reason),
        (None, Some(reason)) => Some(reason),
        (None, None) => if alpha[i].hash != evidence.hashes[i] {
            Some("record hash mismatch"@)
        } else {
            None
        },
    }
}

/// Where two traces disagree, and why.
pub ghost struct Divergence {
    pub alpha: TraceModel,
    pub beta: TraceModel,
    pub reason: Seq<char>,
}

/// The first disagreement among the first `n` records.
pub open spec fn first_divergence(
    alpha: Seq<TraceModel>,
    beta: Seq<TraceModel>,
    evidence: EvidenceModel,
    n: nat,
) -> Option<Divergence>
    decreases n,
{
    if n == 0 {
        None
    } else {
        let i = n - 1;
        match first_divergence(alpha, beta, evidence, i as nat) {
            Some(earlier) => Some(earlier),
            None => match step_reason(alpha, beta, evidence, i) {
                Some(reason) => Some(Divergence { alpha: alpha[i], beta: beta[i], reason }),
                None => None,
            },
        }
    }
}

/// Why two traces do not converge: their lengths are compared first, then the records
/// in order, then the heads.
pub open spec fn divergence(
    alpha: ExecModel,
    beta: ExecModel,
    evidence: EvidenceModel,
) -> Option<Divergence> {
    let last_alpha = last_or_empty(alpha.records);
    let last_beta = last_or_empty(beta.records);
    if alpha.records.len() != beta.records.len() {
        Some(
            Divergence {
                alpha: last_alpha,
                beta: last_beta,
                reason: "trace length mismatch"@,
            },
        )
    } else {
        match first_divergence(alpha.records, beta.records, evidence, alpha.records.len()) {
            Some(found) => Some(found),
            None => if alpha.head != beta.head {
                Some(
                    Divergence {
                        alpha: last_alpha,
                        beta: last_beta,
                        reason: "trace head mismatch"@,
                    },
                )
            } else {
                None
            },
        }
    }
}

/// What is reported of a disagreement.
pub open spec fn verdict(found: Option<Divergence>) -> Option<RejectModel> {
    match found {
        Some(d) => Some(rejection(d.alpha, d.beta, d.reason)),
        None => None,
    }
}

/// Whether the report on a disagreement, if there is one, has a digest.
pub open spec fn can_report(found: Option<Divergence>) -> bool {
    found matches Some(d) ==> has_digest(reject_text(d.alpha, d.beta, d.reason))
}

/// A disagreement among the first records stays the first one.
proof fn first_divergence_stays(
    alpha: Seq<TraceModel>,
    beta: Seq<TraceModel>,
    evidence: EvidenceModel,
    n: nat,
    m: nat,
)
    requires
        n <= m,
        first_divergence(alpha, beta, evidence, n) is Some,
    ensures
        first_divergence(alpha, beta, evidence, m) == first_divergence(alpha, beta, evidence, n),
    decreases m - n,
{
    if n < m {
        first_divergence_stays(alpha, beta, evidence, n, (m - 1) as nat);
    }
}

/// Why a pair of records is not accepted.
fn check_pair(a: &TraceRecord, b: &TraceRecord, entropy: u64) -> (reason: Option<&'static str>)
    ensures
        match reason {
            Some(text) => pair_reason(a@, b@, entropy) == Some(text@),
            None => pair_reason(a@, b@, entropy) is None,
        },
{
    match check_operator(&a.operator) {
        Ok(_) => {},
        Err(_) => {
            return Some("invalid operator");
        },
    }
    if !operator_is_finite(&a.operator) {
        return Some("invalid operator");
    }
    if !is_within_bound(entropy) {
        return Some("entropy boundary exceeded");
    }
    if a.hash != b.hash {
        return Some("mirror hash mismatch");
    }
    if a.prev_hash != b.prev_hash || !vectors_agree(&a.state, &b.state) || a.depth != b.depth {
        return Some("state record mismatch");
    }
    if !vector_is_finite(&a.state) {
        return Some("non-finite state");
    }
    None
}

/// Why a record does not follow the one before it.
fn check_link(before: &TraceRecord, a: &TraceRecord) -> (reason: Option<&'static str>)
    ensures
        match reason {
            Some(text) => link_reason(before@, a@) == Some(text@),
            None => link_reason(before@, a@) is None,
        },
{
    if a.prev_hash != before.hash {
        return Some("broken hash chain");
    }
    if a.state.len() != before.state.len() {
        return Some("unstable dimensions");
    }
    None
}

/// Why the `i`-th record stands in the wrong place.
fn check_place(trace: &ExecTrace, evidence: &Evidence, i: usize) -> (reason: Option<&'static str>)
    requires
        i < trace.records@.len(),
    ensures
        match reason {
            Some(text) => place_reason(trace@.records, evidence@, i as int) == Some(text@),
            None => place_reason(trace@.records, evidence@, i as int) is None,
        },
{
    if i > 0 {
        return check_link(&trace.records[i - 1], &trace.records[i]);
    }
    if trace.records[i].prev_hash != evidence.previous_hash {
        return Some("broken hash chain");
    }
    None
}

/// Why the `i`-th pair of records is not accepted.
fn check_step(alpha: &ExecTrace, beta: &ExecTrace, evidence: &Evidence, i: usize) -> (reason:
    Option<&'static str>)
    requires
        i < alpha.records@.len(),
        i < beta.records@.len(),
        evidence@.covers(alpha@.records),
    ensures
        match reason {
            Some(text) => step_reason(alpha@.records, beta@.records, evidence@, i as int) == Some(
                text@,
            ),
            None => step_reason(alpha@.records, beta@.records, evidence@, i as int) is None,
        },
{
    match check_pair(&alpha.records[i], &beta.records[i], evidence.entropies[i]) {
        Some(reason) => {
            return Some(reason);
        },
        None => {},
    }
    match check_place(alpha, evidence, i) {
        Some(reason) => {
            return Some(reason);
        },
        None => {},
    }
    if alpha.records[i].hash != evidence.hashes[i] {
        return Some("record hash mismatch");
    }
    None
}

/// Lets two traces through if they agree record by record, every operator of the first is a finite
/// square matrix that keeps to the entropy bound, its states are finite and of one dimension, every
/// record names the hash of the one before it, the first one the given hash, and has the hash of
/// its own fields. The entropy of an operator that is not a finite square matrix is not looked at.
pub fn convergence_gate(alpha: &ExecTrace, beta: &ExecTrace, evidence: &Evidence) -> (passed:
    Result<(), RejectModule>)
    requires
        evidence@.covers(alpha@.records),
        can_report(divergence(alpha@, beta@, evidence@)),
    ensures
        match passed {
            Ok(_) => divergence(alpha@, beta@, evidence@) is None,
            Err(reject) => verdict(divergence(alpha@, beta@, evidence@)) == Some(reject@),
        },
{
    if alpha.records.len() != beta.records.len() {
        return Err(reject_for_length_mismatch(alpha, beta));
    }
    let ghost first = alpha@.records;
    let ghost second = beta@.records;
    let mut i: usize = 0;
    while i < alpha.records.len()
        invariant
            i <= alpha.records@.len(),
            first == alpha@.records,
            second == beta@.records,
            first.len() == second.len(),
            first.len() == alpha.records@.len(),
            second.len() == beta.records@.len(),
            evidence@.covers(first),
            can_report(divergence(alpha@, beta@, evidence@)),
            first_divergence(first, second, evidence@, i as nat) is None,
        decreases alpha.records@.len() - i,
    {
        let a: &TraceRecord = &alpha.records[i];
        let b: &TraceRecord = &beta.records[i];
        match check_step(alpha, beta, evidence, i) {
            Some(reason) => {
                proof {
                    first_divergence_stays(
                        first,
                        second,
                        evidence@,
                        (i + 1) as nat,
                        first.len(),
                    );
                }
                return Err(reject_at(a, b, reason));
            },
            None => {},
        }
        i += 1;
    }
    if alpha.head != beta.head {
        return Err(reject_last(alpha, beta, "trace head mismatch"));
    }
    Ok(())
}

/// Whether a pair of records agrees in hash, predecessor, state and depth, its state is finite, and
/// its operator is a finite square matrix that keeps to the entropy bound.
pub open spec fn is_sound_pair(a: TraceModel, b: TraceModel, entropy: u64) -> bool {
    &&& is_square(a.operator)
    &&& is_finite_operator(a.operator)
    &&& keeps_to_bound(entropy)
    &&& a.hash == b.hash
    &&& a.prev_hash == b.prev_hash
    &&& same_numbers(a.state, b.state)
    &&& a.depth == b.depth
    &&& all_finite(a.state)
}

/// Whether every record names the hash of the one before it, and the first one the given hash.
pub open spec fn is_chained(previous_hash: Seq<char>, records: Seq<TraceModel>) -> bool {
    &&& records.len() > 0 ==> records[0].prev_hash == previous_hash
    &&& forall|i: int|
        0 < i < records.len() ==> (#[trigger] records[i]).prev_hash == records[i - 1].hash
}

/// Whether every record has the given hash.
pub open spec fn is_hashed(hashes: Seq<Seq<char>>, records: Seq<TraceModel>) -> bool {
    forall|i: int| 0 <= i < records.len() ==> (#[trigger] records[i]).hash == hashes[i]
}

/// Whether the states of all records have one dimension.
pub open spec fn is_stable(records: Seq<TraceModel>) -> bool {
    forall|i: int|
        0 < i < records.len() ==> (#[trigger] records[i]).state.len() == records[i - 1].state.len()
}

/// Two traces converge exactly if they have the same length and the same head, each pair of
/// records is sound, the records form a hash chain from the given hash on, each has the hash of
/// its fields, and the dimension of the states is stable.
pub proof fn traces_converge_exactly_if_they_agree(
    alpha: ExecModel,
    beta: ExecModel,
    evidence: EvidenceModel,
)
    requires
        evidence.covers(alpha.records),
    ensures
        divergence(alpha, beta, evidence) is None <==> {
            &&& alpha.records.len() == beta.records.len()
            &&& alpha.head == beta.head
            &&& forall|i: int|
                0 <= i < alpha.records.len() ==> is_sound_pair(
                    #[trigger] alpha.records[i],
                    beta.records[i],
                    evidence.entropies[i],
                )
            &&& is_chained(evidence.previous_hash, alpha.records)
            &&& is_hashed(evidence.hashes, alpha.records)
            &&& is_stable(alpha.records)
        },
{
    if alpha.records.len() == beta.records.len() {
        let (a, b) = (alpha.records, beta.records);
        no_divergence_is_agreement(a, b, evidence, a.len());
        assert forall|i: int| 0 <= i < a.len() implies (#[trigger] step_reason(
            a,
            b,
            evidence,
            i,
        ) is None <==> is_sound_pair(a[i], b[i], evidence.entropies[i]) && place_reason(
            a,
            evidence,
            i,
        ) is None && a[i].hash == evidence.hashes[i]) by {}
        if first_divergence(a, b, evidence, a.len()) is None {
            assert forall|i: int| 0 <= i < a.len() implies is_sound_pair(
                #[trigger] a[i],
                b[i],
                evidence.entropies[i],
            ) && place_reason(a, evidence, i) is None && a[i].hash == evidence.hashes[i] by {
                assert(step_reason(a, b, evidence, i) is None);
            }
        }
    }
}

/// No disagreement among the first `n` records means that each pair of them is accepted.
proof fn no_divergence_is_agreement(
    alpha: Seq<TraceModel>,
    beta: Seq<TraceModel>,
    evidence: EvidenceModel,
    n: nat,
)
    requires
        n <= alpha.len(),
    ensures
        first_divergence(alpha, beta, evidence, n) is None <==> forall|i: int|
            0 <= i < n ==> #[trigger] step_reason(alpha, beta, evidence, i) is None,
    decreases n,
{
    if n > 0 {
        no_divergence_is_agreement(alpha, beta, evidence, (n - 1) as nat);
        if first_divergence(alpha, beta, evidence, n) is None {
            assert(step_reason(alpha, beta, evidence, n - 1) is None);
        }
    }
}

/// A trace agrees with itself as long as its operators are finite, square and keep to the bound,
/// its states are finite and of one dimension, its records form a hash chain from the given hash
/// on, and each has the hash of its fields.
pub proof fn trace_agrees_with_itself(trace: ExecModel, evidence: EvidenceModel)
    requires
        evidence.covers(trace.records),
    ensures
        divergence(trace, trace, evidence) is None <==> {
            &&& forall|i: int|
                0 <= i < trace.records.len() ==> {
                    &&& is_square((#[trigger] trace.records[i]).operator)
                    &&& is_finite_operator(trace.records[i].operator)
                    &&& keeps_to_bound(evidence.entropies[i])
                    &&& all_finite(trace.records[i].state)
                }
            &&& is_chained(evidence.previous_hash, trace.records)
            &&& is_hashed(evidence.hashes, trace.records)
            &&& is_stable(trace.records)
        },
{
    traces_converge_exactly_if_they_agree(trace, trace, evidence);
    assert forall|i: int| 0 <= i < trace.records.len() && all_finite(
        (#[trigger] trace.records[i]).state,
    ) implies same_numbers(trace.records[i].state, trace.records[i].state) by {
        let state = trace.records[i].state;
        assert forall|j: int| 0 <= j < state.len() implies same_number(
            #[trigger] state[j],
            state[j],
        ) by {
            assert(is_finite(state[j]));
        }
    }
}

/// The fields of a record that its hash covers. Numbers are given by their JSON text.
pub ghost struct HashedFields {
    pub seq_id: Seq<char>,
    pub depth: u64,
    pub state: Seq<Seq<char>>,
    pub operator: Seq<Seq<Seq<char>>>,
    pub entropy: Seq<char>,
    pub prev_hash: Seq<char>,
}

/// A JSON array of the given texts.
pub open spec fn list_text(items: Seq<Seq<char>>) -> Seq<char> {
    "["@ + comma_joined(items) + "]"@
}

/// A JSON array of arrays of the given texts.
pub open spec fn matrix_text(rows: Seq<Seq<Seq<char>>>) -> Seq<char> {
    list_text(rows.map_values(|row: Seq<Seq<char>>| list_text(row)))
}

/// The canonical text of a record: a compact JSON object with the fields in a fixed order.
pub open spec fn canonical_text(fields: HashedFields) -> Seq<char> {
    "{\"seq_id\":"@ + quoted(fields.seq_id) + ",\"depth\":"@ + decimal(fields.depth as nat)
        + ",\"state\":"@ + list_text(fields.state) + ",\"operator\":"@ + matrix_text(
        fields.operator,
    ) + ",\"entropy\":"@ + fields.entropy + ",\"prev_hash\":"@ + quoted(fields.prev_hash) + "}"@
}

/// The texts as mathematical values.
pub open spec fn text_models(texts: Seq<String>) -> Seq<Seq<char>> {
    texts.map_values(|t: String| t@)
}

/// The rows of texts as mathematical values.
pub open spec fn row_models(rows: Seq<Vec<String>>) -> Seq<Seq<Seq<char>>> {
    rows.map_values(|row: Vec<String>| text_models(row@))
}

/// Appends a JSON array of the given texts.
fn push_list(out: &mut String, items: &Vec<String>)
    ensures
        final(out)@ == old(out)@ + list_text(text_models(items@)),
{
    out.append("[");
    let ghost start = out@;
    let ghost texts = text_models(items@);
    let mut i: usize = 0;
    proof {
        assert(start + comma_joined(texts.take(0)) =~= start);
    }
    while i < items.len()
        invariant
            i <= items@.len(),
            texts == text_models(items@),
            out@ == start + comma_joined(texts.take(i as int)),
        decreases items@.len() - i,
    {
        if i > 0 {
            out.append(",");
        }
        out.append(items[i].as_str());
        proof {
            assert(texts.take(i + 1) =~= texts.take(i as int).push(texts[i as int]));
            comma_joined_push(texts.take(i as int), texts[i as int]);
            assert(out@ =~= start + comma_joined(texts.take(i + 1)));
        }
        i += 1;
    }
    out.append("]");
    proof {
        assert(texts.take(i as int) =~= texts);
        assert(out@ =~= old(out)@ + list_text(texts));
    }
}

/// Appends a JSON array of arrays of the given texts.
fn push_matrix(out: &mut String, rows: &Vec<Vec<String>>)
    ensures
        final(out)@ == old(out)@ + matrix_text(row_models(rows@)),
{
    out.append("[");
    let ghost start = out@;
    let ghost texts = row_models(rows@).map_values(|row: Seq<Seq<char>>| list_text(row));
    let mut i: usize = 0;
    proof {
        assert(start + comma_joined(texts.take(0)) =~= start);
    }
    while i < rows.len()
        invariant
            i <= rows@.len(),
            texts == row_models(rows@).map_values(|row: Seq<Seq<char>>| list_text(row)),
            out@ == start + comma_joined(texts.take(i as int)),
        decreases rows@.len() - i,
    {
        if i > 0 {
            out.append(",");
        }
        push_list(out, &rows[i]);
        proof {
            assert(texts.take(i + 1) =~= texts.take(i as int).push(texts[i as int]));
            comma_joined_push(texts.take(i as int), texts[i as int]);
            assert(out@ =~= start + comma_joined(texts.take(i + 1)));
        }
        i += 1;
    }
    out.append("]");
    proof {
        assert(texts.take(i as int) =~= texts);
        assert(out@ =~= old(out)@ + matrix_text(row_models(rows@)));
    }
}

/// The hash of a record: the digest of its canonical text. Numbers are given by their JSON text.
pub fn hash_record(
    seq_id: &str,
    depth: u64,
    state: &Vec<String>,
    operator: &Vec<Vec<String>>,
    entropy: &str,
    prev_hash: &str,
) -> (hash: Result<String, MirrorError>)
    requires
        has_digest(
            canonical_text(
                (HashedFields {
                    seq_id: seq_id@,
                    depth,
                    state: text_models(state@),
                    operator: row_models(operator@),
                    entropy: entropy@,
                    prev_hash: prev_hash@,
                }),
            ),
        ),
    ensures
        hash matches Ok(text) && text@.len() == 64 && text@ == text_digest(
            canonical_text(
                (HashedFields {
                    seq_id: seq_id@,
                    depth,
                    state: text_models(state@),
                    operator: row_models(operator@),
                    entropy: entropy@,
                    prev_hash: prev_hash@,
                }),
            ),
        ),
{
    let ghost fields = HashedFields {
        seq_id: seq_id@,
        depth,
        state: text_models(state@),
        operator: row_models(operator@),
        entropy: entropy@,
        prev_hash: prev_hash@,
    };
    let mut text: String = "{\"seq_id\":".to_owned();
    let id: String = quote(seq_id);
    text.append(id.as_str());
    text.append(",\"depth\":");
    push_decimal(&mut text, depth as u128);
    text.append(",\"state\":");
    push_list(&mut text, state);
    text.append(",\"operator\":");
    push_matrix(&mut text, operator);
    text.append(",\"entropy\":");
    text.append(entropy);
    text.append(",\"prev_hash\":");
    let parent: String = quote(prev_hash);
    text.append(parent.as_str());
    text.append("}");
    proof {
        assert(text@ =~= canonical_text(fields));
    }
    Ok(sha256_hex(text.as_str().as_bytes()))
}

/// The numbers of a record, given by their JSON text.
#[derive(Debug)]
pub struct NumberTexts {
    pub state: Vec<String>,
    pub operator: Vec<Vec<String>>,
    pub entropy: String,
}

/// A [`NumberTexts`] as a mathematical value.
pub ghost struct NumberModel {
    pub state: Seq<Seq<char>>,
    pub operator: Seq<Seq<Seq<char>>>,
    pub entropy: Seq<char>,
}

impl View for NumberTexts {
    type V = NumberModel;

    open spec fn view(&self) -> NumberModel {
        NumberModel {
            state: text_models(self.state@),
            operator: row_models(self.operator@),
            entropy: self.entropy@,
        }
    }
}

/// The fields of a record that its hash covers.
pub open spec fn covered_fields(record: TraceModel, numbers: NumberModel) -> HashedFields {
    HashedFields {
        seq_id: record.seq_id,
        depth: record.depth,
        state: numbers.state,
        operator: numbers.operator,
        entropy: numbers.entropy,
        prev_hash: record.prev_hash,
    }
}

/// The hash of the fields of a record, computed anew. The hash that the record names plays no part.
pub fn rehash_record(record: &TraceRecord, numbers: &NumberTexts) -> (hash: Result<
    String,
    MirrorError,
>)
    requires
        has_digest(canonical_text(covered_fields(record@, numbers@))),
    ensures
        hash matches Ok(text) && text@ == text_digest(
            canonical_text(covered_fields(record@, numbers@)),
        ),
{
    hash_record(
        record.seq_id.as_str(),
        record.depth,
        &numbers.state,
        &numbers.operator,
        numbers.entropy.as_str(),
        record.prev_hash.as_str(),
    )
}

/// A step that is to be carried out for a pair of executions.
#[derive(Debug)]
pub enum MirrorAction<'a> {
    /// Write the trace to the arena.
    Commit(&'a ExecTrace),
    /// Publish a trace.
    PublishTrace { subject: &'static str, trace: &'a ExecTrace },
    /// Publish the outcome of a request.
    PublishSeal { subject: &'static str, seq_id: &'a str, status: Status },
    /// Set aside what a refuted request has left at the given depth.
    Quarantine { seq_id: &'a str, depth: u64 },
    /// Forget a refuted request.
    DropContext { seq_id: &'a str },
    /// Publish why a request was refuted.
    PublishReject { subject: &'static str, reject: &'a RejectModule },
}

/// A [`MirrorAction`] as a mathematical value.
pub ghost enum ActionModel {
    Commit(ExecModel),
    PublishTrace { subject: Seq<char>, trace: ExecModel },
    PublishSeal { subject: Seq<char>, seq_id: Seq<char>, status: Status },
    Quarantine { seq_id: Seq<char>, depth: u64 },
    DropContext { seq_id: Seq<char> },
    PublishReject { subject: Seq<char>, reject: RejectModel },
}

impl<'a> View for MirrorAction<'a> {
    type V = ActionModel;

    open spec fn view(&self) -> ActionModel {
        match *self {
            MirrorAction::Commit(trace) => ActionModel::Commit(trace@),
            MirrorAction::PublishTrace { subject, trace } => ActionModel::PublishTrace {
                subject: subject@,
                trace: trace@,
            },
            MirrorAction::PublishSeal { subject, seq_id, status } => ActionModel::PublishSeal {
                subject: subject@,
                seq_id: seq_id@,
                status,
            },
            MirrorAction::Quarantine { seq_id, depth } => ActionModel::Quarantine {
                seq_id: seq_id@,
                depth,
            },
            MirrorAction::DropContext { seq_id } => ActionModel::DropContext { seq_id: seq_id@ },
            MirrorAction::PublishReject { subject, reject } => ActionModel::PublishReject {
                subject: subject@,
                reject: reject@,
            },
        }
    }
}

/// A pair of executions on its way to its outcome.
#[derive(Debug)]
pub struct MirrorDispatch {
    seq_id: String,
    alpha: ExecTrace,
    beta: ExecTrace,
    reject: Option<RejectModule>,
    done: usize,
}

/// A [`MirrorDispatch`] as a mathematical value.
pub ghost struct DispatchModel {
    pub seq_id: Seq<char>,
    pub alpha: ExecModel,
    pub beta: ExecModel,
    /// Where the pair does not converge, if it does not.
    pub reject: Option<RejectModel>,
    /// How many actions were carried out.
    pub done: nat,
}

impl DispatchModel {
    /// What is to be done, in order: a pair that agrees is committed and then published, one that
    /// does not is set aside and reported.
    pub open spec fn plan(self) -> Seq<ActionModel> {
        match self.reject {
            None => seq![
                ActionModel::Commit(self.alpha),
                ActionModel::PublishTrace { subject: GENERATE_SUBJECT@, trace: self.alpha },
                ActionModel::PublishTrace { subject: ATTEST_SUBJECT@, trace: self.beta },
                ActionModel::PublishSeal {
                    subject: SEAL_SUBJECT@,
                    seq_id: self.seq_id,
                    status: Status::Committed,
                },
            ],
            Some(reject) => seq![
                ActionModel::Quarantine { seq_id: self.seq_id, depth: reject.depth },
                ActionModel::DropContext { seq_id: self.seq_id },
                ActionModel::PublishReject { subject: SEAL_SUBJECT@, reject },
            ],
        }
    }

    /// What comes out once everything was done.
    pub open spec fn outcome(self) -> Result<(Status, ExecModel, ExecModel), MirrorFault> {
        match self.reject {
            None => Ok((Status::Committed, self.alpha, self.beta)),
            Some(reject) => Err(MirrorFault::Refuted(reject)),
        }
    }
}

impl View for MirrorDispatch {
    type V = DispatchModel;

    closed spec fn view(&self) -> DispatchModel {
        DispatchModel {
            seq_id: self.seq_id@,
            alpha: self.alpha@,
            beta: self.beta@,
            reject: match self.reject {
                Some(reject) => Some(reject@),
                None => None,
            },
            done: self.done as nat,
        }
    }
}

/// The result of a request as a mathematical value.
pub open spec fn result_model(result: Result<MirrorResult, MirrorError>) -> Result<
    (Status, ExecModel, ExecModel),
    MirrorFault,
> {
    match result {
        Ok(r) => Ok((r.status, r.alpha@, r.beta@)),
        Err(e) => Err(e@),
    }
}

/// What follows an action.
#[derive(Debug)]
pub enum Progress {
    /// There is more to do.
    Continue(MirrorDispatch),
    /// The request is finished.
    Finished(Result<MirrorResult, MirrorError>),
}

impl MirrorDispatch {
    /// Whether there is still something to do.
    pub open spec fn wf(&self) -> bool {
        self@.done < self@.plan().len()
    }

    /// Compares the results of both executions. An execution that failed ends the
    /// request, the first one before the second. The evidence speaks of the first trace.
    pub fn begin(
        seq_id: String,
        alpha: Result<ExecTrace, MirrorError>,
        beta: Result<ExecTrace, MirrorError>,
        evidence: &Evidence,
    ) -> (dispatch: Result<MirrorDispatch, MirrorError>)
        requires
            (alpha is Ok && beta is Ok) ==> {
                &&& evidence@.covers(alpha->Ok_0@.records)
                &&& can_report(divergence(alpha->Ok_0@, beta->Ok_0@, evidence@))
            },
        ensures
            match (alpha, beta) {
                (Err(e), _) => dispatch == Err::<MirrorDispatch, MirrorError>(e),
                (Ok(_), Err(e)) => dispatch == Err::<MirrorDispatch, MirrorError>(e),
                (Ok(a), Ok(b)) => dispatch matches Ok(d) && d.wf() && d@ == (DispatchModel {
                    seq_id: seq_id@,
                    alpha: a@,
                    beta: b@,
                    reject: verdict(divergence(a@, b@, evidence@)),
                    done: 0,
                }),
            },
    {
        let alpha: ExecTrace = match alpha {
            Ok(trace) => trace,
            Err(e) => {
                return Err(e);
            },
        };
        let beta: ExecTrace = match beta {
            Ok(trace) => trace,
            Err(e) => {
                return Err(e);
            },
        };
        let reject: Option<RejectModule> = match convergence_gate(&alpha, &beta, evidence) {
            Ok(_) => None,
            Err(reject) => Some(reject),
        };
        Ok(MirrorDispatch { seq_id, alpha, beta, reject, done: 0 })
    }

    /// What is to be done next.
    pub fn action(&self) -> (action: MirrorAction<'_>)
        requires
            self.wf(),
        ensures
            action@ == self@.plan()[self@.done as int],
    {
        match &self.reject {
            None => if self.done == 0 {
                MirrorAction::Commit(&self.alpha)
            } else if self.done == 1 {
                MirrorAction::PublishTrace { subject: GENERATE_SUBJECT, trace: &self.alpha }
            } else if self.done == 2 {
                MirrorAction::PublishTrace { subject: ATTEST_SUBJECT, trace: &self.beta }
            } else {
                MirrorAction::PublishSeal {
                    subject: SEAL_SUBJECT,
                    seq_id: self.seq_id.as_str(),
                    status: Status::Committed,
                }
            },
            Some(reject) => if self.done == 0 {
                MirrorAction::Quarantine { seq_id: self.seq_id.as_str(), depth: reject.depth }
            } else if self.done == 1 {
                MirrorAction::DropContext { seq_id: self.seq_id.as_str() }
            } else {
                MirrorAction::PublishReject { subject: SEAL_SUBJECT, reject }
            },
        }
    }

    /// Goes on after the action was carried out. An action that failed ends the request.
    pub fn advance(self, carried_out: Result<(), MirrorError>) -> (progress: Progress)
        requires
            self.wf(),
        ensures
            match (carried_out, progress) {
                (Err(e), Progress::Finished(result)) => result == Err::<MirrorResult, _>(e),
                (Err(_), Progress::Continue(_)) => false,
                (Ok(_), Progress::Continue(next)) => {
                    &&& next.wf()
                    &&& self@.done + 1 < self@.plan().len()
                    &&& next@ == (DispatchModel { done: self@.done + 1, ..self@ })
                },
                (Ok(_), Progress::Finished(result)) => {
                    &&& self@.done + 1 == self@.plan().len()
                    &&& result_model(result) == self@.outcome()
                },
            },
    {
        match carried_out {
            Err(e) => {
                return Progress::Finished(Err(e));
            },
            Ok(_) => {},
        }
        let ghost before = self@;
        let last: bool = match &self.reject {
            None => self.done >= 3,
            Some(_) => self.done >= 2,
        };
        if !last {
            let next = MirrorDispatch {
                seq_id: self.seq_id,
                alpha: self.alpha,
                beta: self.beta,
                reject: self.reject,
                done: self.done + 1,
            };
            return Progress::Continue(next);
        }
        match self.reject {
            None => Progress::Finished(
                Ok(
                    MirrorResult {
                        status: Status::Committed,
                        alpha: self.alpha,
                        beta: self.beta,
                    },
                ),
            ),
            Some(reject) => Progress::Finished(Err(MirrorError::Refuted(reject))),
        }
    }
}

/// The arena is written only if the pair converges, before anything is
/// published, once, and with the first trace.
pub proof fn commit_follows_agreement(dispatch: DispatchModel, i: int)
    requires
        0 <= i < dispatch.plan().len(),
        dispatch.plan()[i] is Commit,
    ensures
        dispatch.reject is None,
        i == 0,
        dispatch.plan()[i] == ActionModel::Commit(dispatch.alpha),
{
}

/// Whatever is committed meets the invariant: its records are sound, form a hash chain from the
/// given hash on and have the hashes of their fields, and the dimension of its states is stable.
pub proof fn committed_trace_meets_the_invariant(
    dispatch: DispatchModel,
    evidence: EvidenceModel,
    i: int,
)
    requires
        evidence.covers(dispatch.alpha.records),
        dispatch.reject == verdict(divergence(dispatch.alpha, dispatch.beta, evidence)),
        0 <= i < dispatch.plan().len(),
        dispatch.plan()[i] is Commit,
    ensures
        dispatch.alpha.records.len() == dispatch.beta.records.len(),
        forall|j: int|
            0 <= j < dispatch.alpha.records.len() ==> is_sound_pair(
                #[trigger] dispatch.alpha.records[j],
                dispatch.beta.records[j],
                evidence.entropies[j],
            ),
        is_chained(evidence.previous_hash, dispatch.alpha.records),
        is_hashed(evidence.hashes, dispatch.alpha.records),
        is_stable(dispatch.alpha.records),
{
    commit_follows_agreement(dispatch, i);
    traces_converge_exactly_if_they_agree(dispatch.alpha, dispatch.beta, evidence);
}

/// Where the hashes of the evidence were computed from the fields of the records, every committed
/// record has the digest of its own canonical text as its hash.
pub proof fn committed_hashes_cover_their_records(
    dispatch: DispatchModel,
    evidence: EvidenceModel,
    numbers: Seq<NumberModel>,
    i: int,
)
    requires
        evidence.covers(dispatch.alpha.records),
        forall|j: int|
            0 <= j < evidence.hashes.len() ==> #[trigger] evidence.hashes[j] == text_digest(
                canonical_text(covered_fields(dispatch.alpha.records[j], numbers[j])),
            ),
        dispatch.reject == verdict(divergence(dispatch.alpha, dispatch.beta, evidence)),
        0 <= i < dispatch.plan().len(),
        dispatch.plan()[i] is Commit,
    ensures
        forall|j: int|
            0 <= j < dispatch.alpha.records.len() ==> (
            #[trigger] dispatch.alpha.records[j]).hash == text_digest(
                canonical_text(covered_fields(dispatch.alpha.records[j], numbers[j])),
            ),
{
    committed_trace_meets_the_invariant(dispatch, evidence, i);
}

/// A refuted pair leaves no trace in the arena and publishes none: all that is published is why
/// it was refuted.
pub proof fn refuted_pair_is_not_committed(dispatch: DispatchModel, i: int)
    requires
        0 <= i < dispatch.plan().len(),
        dispatch.reject is Some,
    ensures
        !(dispatch.plan()[i] is Commit),
        !(dispatch.plan()[i] is PublishTrace),
        !(dispatch.plan()[i] is PublishSeal),
        dispatch.outcome() == Err::<(Status, ExecModel, ExecModel), _>(
            MirrorFault::Refuted(dispatch.reject.unwrap()),
        ),
{
}

} // verus!
