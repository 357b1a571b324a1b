//! When two traces are committed, what is reported where they are not, and what follows from
//! either.

use vstd::prelude::*;
use vstd::utf8::encode_utf8;

use crate::digest::hex_digit;
use crate::digest::sha256;
use crate::digest::text_digest;
use crate::dual_mirror::all_finite;
use crate::dual_mirror::covered_fields;
use crate::dual_mirror::divergence;
use crate::dual_mirror::first_divergence;
use crate::dual_mirror::is_finite;
use crate::dual_mirror::is_finite_operator;
use crate::dual_mirror::is_square;
use crate::dual_mirror::keeps_to_bound;
use crate::dual_mirror::same_number;
use crate::dual_mirror::same_numbers;
use crate::dual_mirror::step_reason;
use crate::dual_mirror::verdict;
use crate::dual_mirror::ActionModel;
use crate::dual_mirror::DispatchModel;
use crate::dual_mirror::Divergence;
use crate::dual_mirror::Evidence;
use crate::dual_mirror::EvidenceModel;
use crate::dual_mirror::ExecModel;
use crate::dual_mirror::ExecTrace;
use crate::dual_mirror::MirrorFault;
use crate::dual_mirror::NumberModel;
use crate::dual_mirror::RejectModel;
use crate::dual_mirror::Status;
use crate::dual_mirror::TraceModel;
use crate::dual_mirror::TraceRecord;
use crate::dual_mirror::ENTROPY_BOUND;
use crate::number_laws::bound_limits_the_value;
use crate::number_laws::equal_numbers_have_equal_values;
use crate::number_laws::exponent;
use crate::number_laws::is_number;
use crate::number_laws::largest_exponent_is_not_finite;
use crate::number_laws::value_of;
use crate::text::decimal;

verus! {

/// Whether all numbers of a vector are finite.
pub open spec fn has_finite_entries(numbers: Seq<u64>) -> bool {
    forall|i: int| 0 <= i < numbers.len() ==> exponent(#[trigger] numbers[i]) < 2047
}

/// Whether a matrix has as many rows as columns, at least one, and only finite entries.
pub open spec fn is_finite_square(operator: Seq<Seq<u64>>) -> bool {
    &&& operator.len() > 0
    &&& forall|i: int|
        0 <= i < operator.len() ==> (#[trigger] operator[i]).len() == operator.len()
            && has_finite_entries(operator[i])
}

/// Whether an entropy is a number of at most one fifth.
pub open spec fn is_low(entropy: u64) -> bool {
    is_number(entropy) && value_of(entropy) <= value_of(ENTROPY_BOUND)
}

/// Whether two states have the same numbers.
pub open spec fn have_same_values(a: Seq<u64>, b: Seq<u64>) -> bool {
    &&& a.len() == b.len()
    &&& forall|i: int|
        0 <= i < a.len() ==> is_number(#[trigger] a[i]) && is_number(b[i]) && value_of(a[i])
            == value_of(b[i])
}

/// Why the `i`-th records of two traces are not accepted, the first reason that holds.
pub open spec fn complaint(
    alpha: Seq<TraceModel>,
    beta: Seq<TraceModel>,
    evidence: EvidenceModel,
    i: int,
) -> Option<Seq<char>> {
    let (a, b) = (alpha[i], beta[i]);
    if !is_finite_square(a.operator) {
        Some("invalid operator"@)
    } else if !is_low(evidence.entropies[i]) {
        Some("entropy boundary exceeded"@)
    } else if a.hash != b.hash {
        Some("mirror hash mismatch"@)
    } else if !(a.prev_hash == b.prev_hash && have_same_values(a.state, b.state) && a.depth
        == b.depth) {
        Some("state record mismatch"@)
    } else if !has_finite_entries(a.state) {
        Some("non-finite state"@)
    } else if a.prev_hash != (if i == 0 {
        evidence.previous_hash
    } else {
        alpha[i - 1].hash
    }) {
        Some("broken hash chain"@)
    } else if i > 0 && a.state.len() != alpha[i - 1].state.len() {
        Some("unstable dimensions"@)
    } else if a.hash != evidence.hashes[i] {
        Some("record hash mismatch"@)
    } else {
        None
    }
}

/// The conditions on numbers, in terms of their values.
proof fn conditions_speak_of_values(a: TraceModel, b: TraceModel, entropy: u64)
    ensures
        is_square(a.operator) && is_finite_operator(a.operator) <==> is_finite_square(a.operator),
        keeps_to_bound(entropy) <==> is_low(entropy),
        same_numbers(a.state, b.state) <==> have_same_values(a.state, b.state),
        all_finite(a.state) <==> has_finite_entries(a.state),
{
    assert forall|bits: u64| #[trigger] exponent(bits) < 2047 <==> is_finite(
        bits,
    ) by {
        largest_exponent_is_not_finite(bits);
    }
    bound_limits_the_value(entropy);
    finite_vectors(a.state);
    assert forall|i: int| 0 <= i < a.operator.len() implies (all_finite(#[trigger] a.operator[i])
        <==> has_finite_entries(a.operator[i])) by {
        finite_vectors(a.operator[i]);
    }
    if is_square(a.operator) && is_finite_operator(a.operator) {
        assert forall|i: int| 0 <= i < a.operator.len() implies (#[trigger] a.operator[i]).len()
            == a.operator.len() && has_finite_entries(a.operator[i]) by {
            assert(all_finite(a.operator[i]));
        }
    }
    if is_finite_square(a.operator) {
        assert forall|i: int| 0 <= i < a.operator.len() implies all_finite(
            #[trigger] a.operator[i],
        ) by {
            assert(has_finite_entries(a.operator[i]));
        }
    }
    if same_numbers(a.state, b.state) {
        assert forall|i: int| 0 <= i < a.state.len() implies is_number(#[trigger] a.state[i])
            && is_number(b.state[i]) && value_of(a.state[i]) == value_of(b.state[i]) by {
            equal_numbers_have_equal_values(a.state[i], b.state[i]);
        }
    }
    if have_same_values(a.state, b.state) {
        assert forall|i: int| 0 <= i < a.state.len() implies same_number(
            #[trigger] a.state[i],
            b.state[i],
        ) by {
            equal_numbers_have_equal_values(a.state[i], b.state[i]);
        }
    }
}

/// A vector is finite exactly if none of its exponents is the largest one.
proof fn finite_vectors(numbers: Seq<u64>)
    ensures
        all_finite(numbers) <==> has_finite_entries(numbers),
{
    if all_finite(numbers) {
        assert forall|i: int| 0 <= i < numbers.len() implies exponent(#[trigger] numbers[i])
            < 2047 by {
            largest_exponent_is_not_finite(numbers[i]);
        }
    }
    if has_finite_entries(numbers) {
        assert forall|i: int| 0 <= i < numbers.len() implies is_finite(
            #[trigger] numbers[i],
        ) by {
            largest_exponent_is_not_finite(numbers[i]);
        }
    }
}

/// A pair of records is refused for the first complaint there is, and accepted if there is none.
proof fn steps_are_refused_for_complaints(
    alpha: Seq<TraceModel>,
    beta: Seq<TraceModel>,
    evidence: EvidenceModel,
    i: int,
)
    requires
        0 <= i,
    ensures
        step_reason(alpha, beta, evidence, i) == complaint(alpha, beta, evidence, i),
{
    conditions_speak_of_values(alpha[i], beta[i], evidence.entropies[i]);
}

/// The last record of a trace, or a record of nothing.
pub open spec fn is_last_of(record: TraceModel, records: Seq<TraceModel>) -> bool {
    if records.len() > 0 {
        record == records[records.len() - 1]
    } else {
        &&& record.seq_id.len() == 0 && record.depth == 0 && record.state.len() == 0
        &&& record.operator.len() == 0 && record.entropy == 0 && record.prev_hash.len() == 0
        &&& record.hash.len() == 0
    }
}

/// Two traces converge exactly if they are of one length, there is no complaint about any pair of
/// their records, and their heads agree. Otherwise what is reported is, in this order, the last
/// records if the lengths differ, the first pair that there is a complaint about, or the last
/// records if the heads differ.
pub proof fn first_complaint_is_reported(
    alpha: ExecModel,
    beta: ExecModel,
    evidence: EvidenceModel,
)
    ensures
        match divergence(alpha, beta, evidence) {
            None => {
                &&& alpha.records.len() == beta.records.len()
                &&& alpha.head == beta.head
                &&& forall|i: int|
                    0 <= i < alpha.records.len() ==> #[trigger] complaint(
                        alpha.records,
                        beta.records,
                        evidence,
                        i,
                    ) is None
            },
            Some(found) => {
                ||| {
                    &&& alpha.records.len() != beta.records.len()
                    &&& found.reason == "trace length mismatch"@
                    &&& is_last_of(found.alpha, alpha.records)
                    &&& is_last_of(found.beta, beta.records)
                }
                ||| {
                    &&& alpha.records.len() == beta.records.len()
                    &&& exists|i: int|
                        {
                            &&& 0 <= i < alpha.records.len()
                            &&& #[trigger] complaint(alpha.records, beta.records, evidence, i)
                                == Some(found.reason)
                            &&& found.alpha == alpha.records[i]
                            &&& found.beta == beta.records[i]
                            &&& forall|j: int|
                                0 <= j < i ==> #[trigger] complaint(
                                    alpha.records,
                                    beta.records,
                                    evidence,
                                    j,
                                ) is None
                        }
                }
                ||| {
                    &&& alpha.records.len() == beta.records.len()
                    &&& forall|i: int|
                        0 <= i < alpha.records.len() ==> #[trigger] complaint(
                            alpha.records,
                            beta.records,
                            evidence,
                            i,
                        ) is None
                    &&& alpha.head != beta.head
                    &&& found.reason == "trace head mismatch"@
                    &&& is_last_of(found.alpha, alpha.records)
                    &&& is_last_of(found.beta, beta.records)
                }
            },
        },
{
    if alpha.records.len() == beta.records.len() {
        first_refused_pair(alpha.records, beta.records, evidence, alpha.records.len());
    }
}

/// Among the first `n` pairs the first one that there is a complaint about is reported.
proof fn first_refused_pair(
    alpha: Seq<TraceModel>,
    beta: Seq<TraceModel>,
    evidence: EvidenceModel,
    n: nat,
)
    ensures
        match first_divergence(alpha, beta, evidence, n) {
            None => forall|i: int|
                0 <= i < n ==> #[trigger] complaint(alpha, beta, evidence, i) is None,
            Some(found) => exists|i: int|
                {
                    &&& 0 <= i < n
                    &&& #[trigger] complaint(alpha, beta, evidence, i) == Some(found.reason)
                    &&& found.alpha == alpha[i]
                    &&& found.beta == beta[i]
                    &&& forall|j: int|
                        0 <= j < i ==> #[trigger] complaint(alpha, beta, evidence, j) is None
                },
        },
    decreases n,
{
    if n > 0 {
        first_refused_pair(alpha, beta, evidence, (n - 1) as nat);
        steps_are_refused_for_complaints(alpha, beta, evidence, n - 1);
    }
}

/// No committed record has an entropy above the bound, a number that is not finite, or a
/// predecessor or a hash other than those that it has to have, and both traces have its hash, its
/// predecessor, its depth and the values of its state.
pub proof fn committed_records_are_accepted(
    alpha: ExecModel,
    beta: ExecModel,
    evidence: EvidenceModel,
    i: int,
)
    requires
        divergence(alpha, beta, evidence) is None,
        0 <= i < alpha.records.len(),
    ensures
        alpha.records.len() == beta.records.len(),
        alpha.head == beta.head,
        ({
            let (a, b) = (alpha.records[i], beta.records[i]);
            &&& is_finite_square(a.operator)
            &&& is_number(evidence.entropies[i])
            &&& value_of(evidence.entropies[i]) <= value_of(ENTROPY_BOUND)
            &&& a.hash == b.hash && a.prev_hash == b.prev_hash && a.depth == b.depth
            &&& have_same_values(a.state, b.state) && has_finite_entries(a.state)
            &&& a.hash == evidence.hashes[i]
            &&& i == 0 ==> a.prev_hash == evidence.previous_hash
            &&& i > 0 ==> a.prev_hash == alpha.records[i - 1].hash && a.state.len()
                == alpha.records[i - 1].state.len()
        }),
{
    first_complaint_is_reported(alpha, beta, evidence);
    assert(complaint(alpha.records, beta.records, evidence, i) is None);
}

/// Two traces converge if they are of one length and have one head, each pair of records agrees in
/// hash, predecessor, depth and the values of the state, and the first trace keeps every rule:
/// finite square operators of low entropy, finite states of one dimension, and a chain of hashes
/// from the given one on, each the hash of its own fields.
pub proof fn accepted_records_are_committed(
    alpha: ExecModel,
    beta: ExecModel,
    evidence: EvidenceModel,
)
    requires
        alpha.records.len() == beta.records.len(),
        alpha.head == beta.head,
        forall|i: int|
            0 <= i < alpha.records.len() ==> {
                let (a, b) = (#[trigger] alpha.records[i], beta.records[i]);
                &&& is_finite_square(a.operator)
                &&& is_low(evidence.entropies[i])
                &&& a.hash == b.hash && a.prev_hash == b.prev_hash && a.depth == b.depth
                &&& have_same_values(a.state, b.state) && has_finite_entries(a.state)
                &&& a.hash == evidence.hashes[i]
                &&& i == 0 ==> a.prev_hash == evidence.previous_hash
                &&& i > 0 ==> a.prev_hash == alpha.records[i - 1].hash && a.state.len()
                    == alpha.records[i - 1].state.len()
            },
    ensures
        divergence(alpha, beta, evidence) is None,
{
    first_complaint_is_reported(alpha, beta, evidence);
    assert forall|i: int| 0 <= i < alpha.records.len() implies #[trigger] complaint(
        alpha.records,
        beta.records,
        evidence,
        i,
    ) is None by {
        assert(is_finite_square(alpha.records[i].operator));
    }
}

/// What a pair of records is refused for: an operator that is not a finite square matrix, an
/// entropy above the bound, another hash, another predecessor, state or depth, a state that is not
/// finite, a predecessor that is not the hash before, a state of another dimension than the one
/// before, or a hash that is not that of the fields; of several, the first in this order.
pub proof fn reasons_tell_what_is_wrong(
    alpha: Seq<TraceModel>,
    beta: Seq<TraceModel>,
    evidence: EvidenceModel,
    i: int,
)
    requires
        0 <= i,
    ensures
        ({
            let (a, b) = (alpha[i], beta[i]);
            let reason = step_reason(alpha, beta, evidence, i);
            let operator = is_finite_square(a.operator);
            let entropy = is_low(evidence.entropies[i]);
            let same = a.prev_hash == b.prev_hash && have_same_values(a.state, b.state) && a.depth
                == b.depth;
            let pair = operator && entropy && a.hash == b.hash && same && has_finite_entries(
                a.state,
            );
            let linked = (i == 0 ==> a.prev_hash == evidence.previous_hash) && (i > 0
                ==> a.prev_hash == alpha[i - 1].hash);
            let stable = i > 0 ==> a.state.len() == alpha[i - 1].state.len();
            &&& !operator ==> reason == Some("invalid operator"@)
            &&& operator && !entropy ==> reason == Some("entropy boundary exceeded"@)
            &&& operator && entropy && a.hash != b.hash ==> reason == Some("mirror hash mismatch"@)
            &&& operator && entropy && a.hash == b.hash && !same ==> reason == Some(
                "state record mismatch"@,
            )
            &&& operator && entropy && a.hash == b.hash && same && !pair ==> reason == Some(
                "non-finite state"@,
            )
            &&& pair && !linked ==> reason == Some("broken hash chain"@)
            &&& pair && linked && !stable ==> reason == Some("unstable dimensions"@)
            &&& pair && linked && stable && a.hash != evidence.hashes[i] ==> reason == Some(
                "record hash mismatch"@,
            )
            &&& pair && linked && stable && a.hash == evidence.hashes[i] ==> reason is None
        }),
{
    steps_are_refused_for_complaints(alpha, beta, evidence, i);
}

/// A report on a disagreement names both records, the request and the depth of the first one, and
/// the digest of both hashes and the reason.
pub proof fn reports_name_what_disagrees(found: Divergence)
    ensures
        verdict(None) is None,
        verdict(Some(found)) matches Some(reject) && {
            &&& reject.event == "RejectModule"@
            &&& reject.seq_id == found.alpha.seq_id
            &&& reject.depth == found.alpha.depth
            &&& reject.alpha == found.alpha
            &&& reject.beta == found.beta
            &&& reject.delta_hash == text_digest(
                found.alpha.hash + ":"@ + found.beta.hash + ":"@ + found.reason,
            )
        },
{
}

/// What follows from a comparison. A pair that agrees is committed, then its first trace is
/// published, then its second, and then that it was committed. A pair that does not is set aside
/// at the depth of the disagreement, forgotten, and reported; nothing else is done.
pub proof fn comparison_decides_what_follows(dispatch: DispatchModel)
    ensures
        dispatch.reject is None ==> {
            &&& dispatch.plan().len() == 4
            &&& dispatch.plan()[0] == ActionModel::Commit(dispatch.alpha)
            &&& dispatch.plan()[1] == (ActionModel::PublishTrace {
                subject: "glm.evoke.generate"@,
                trace: dispatch.alpha,
            })
            &&& dispatch.plan()[2] == (ActionModel::PublishTrace {
                subject: "glm.evoke.attest"@,
                trace: dispatch.beta,
            })
            &&& dispatch.plan()[3] == (ActionModel::PublishSeal {
                subject: "glm.evoke.seal"@,
                seq_id: dispatch.seq_id,
                status: Status::Committed,
            })
            &&& dispatch.outcome() == Ok::<_, MirrorFault>(
                (Status::Committed, dispatch.alpha, dispatch.beta),
            )
        },
        dispatch.reject matches Some(reject) ==> {
            &&& dispatch.plan().len() == 3
            &&& dispatch.plan()[0] == (ActionModel::Quarantine {
                seq_id: dispatch.seq_id,
                depth: reject.depth,
            })
            &&& dispatch.plan()[1] == (ActionModel::DropContext { seq_id: dispatch.seq_id })
            &&& dispatch.plan()[2] == (ActionModel::PublishReject {
                subject: "glm.evoke.seal"@,
                reject,
            })
            &&& dispatch.outcome() == Err::<(Status, ExecModel, ExecModel), _>(
                MirrorFault::Refuted(reject),
            )
        },
{
}

/// The digest of a text is that of its UTF-8 bytes, two digits for each byte.
pub proof fn digests_are_written_byte_by_byte(text: Seq<char>, i: int)
    requires
        0 <= i < sha256(encode_utf8(text)).len(),
    ensures
        text_digest(text).len() == sha256(encode_utf8(text)).len() + sha256(
            encode_utf8(text),
        ).len(),
        text_digest(text)[2 * i] == hex_digit(sha256(encode_utf8(text))[i] as int / 16),
        text_digest(text)[2 * i + 1] == hex_digit(sha256(encode_utf8(text))[i] as int % 16),
{
}

/// The hash of a record covers its request, its depth and its predecessor beside its numbers.
pub proof fn hashes_cover_every_field(record: TraceModel, numbers: NumberModel)
    ensures
        covered_fields(record, numbers).seq_id == record.seq_id,
        covered_fields(record, numbers).depth == record.depth,
        covered_fields(record, numbers).prev_hash == record.prev_hash,
        covered_fields(record, numbers).state == numbers.state,
        covered_fields(record, numbers).operator == numbers.operator,
        covered_fields(record, numbers).entropy == numbers.entropy,
{
}

/// Every error is described by its kind and its text; a refuted pair by its request and depth.
pub proof fn mirror_errors_are_described(text: Seq<char>, reject: RejectModel)
    ensures
        MirrorFault::Execution(text).message() == "execution failed: "@ + text,
        MirrorFault::Serialization(text).message() == "serialization failed: "@ + text,
        MirrorFault::Nats(text).message() == "NATS failed: "@ + text,
        MirrorFault::InvalidTensor(text).message() == "invalid tensor: "@ + text,
        MirrorFault::Refuted(reject).message() == "mirror refuted at "@ + reject.seq_id + ":"@
            + decimal(reject.depth as nat),
{
}

/// Traces, their records and the evidence on them are seen with all their fields.
pub proof fn every_field_of_a_trace_is_seen(
    record: TraceRecord,
    trace: ExecTrace,
    evidence: Evidence,
)
    ensures
        record@.seq_id == record.seq_id@ && record@.depth == record.depth && record@.state
            == record.state@ && record@.entropy == record.entropy && record@.prev_hash
            == record.prev_hash@ && record@.hash == record.hash@,
        record@.operator.len() == record.operator@.len(),
        forall|i: int|
            0 <= i < record.operator@.len() ==> #[trigger] record@.operator[i]
                == record.operator@[i]@,
        trace@.seq_id == trace.seq_id@ && trace@.head == trace.head@,
        trace@.records.len() == trace.records@.len(),
        forall|i: int|
            0 <= i < trace.records@.len() ==> #[trigger] trace@.records[i] == trace.records@[i]@,
        evidence@.previous_hash == evidence.previous_hash@,
        evidence@.entropies == evidence.entropies@,
        evidence@.hashes.len() == evidence.hashes@.len(),
        forall|i: int|
            0 <= i < evidence.hashes@.len() ==> #[trigger] evidence@.hashes[i]
                == evidence.hashes@[i]@,
{
}

} // verus!
