//! From mapped tensors to sealed weights: the tensors of all shards are gathered by key, placed
//! layer by layer, and sealed.

use std::sync::Arc;
use vstd::hash_map::StringHashMap;
use vstd::prelude::*;

use crate::config::GlmConfig;
use crate::error::EvokeError;
use crate::error::EvokeFault;
use crate::graph::block_models;
use crate::graph::BlockSpans;
use crate::graph::GlmBlockView;
use crate::keys::layer_key;
use crate::keys::layer_key_text;
use crate::keys::layer_keys_are_unique;
use crate::keys::slot_part;
use crate::keys::slot_parts_are_unique;
use crate::keys::SLOTS;
use crate::telemetry::ExecutionRecord;
use crate::telemetry::RecordModel;
use crate::text::join2;
use crate::transform::mapped_models;
use crate::transform::MappedTensor;
use crate::worm::copy_shape;
use crate::worm::Arena;
use crate::worm::MemoryState;
use crate::worm::Placement;
use crate::worm::SealedRegion;
use crate::worm::TensorSpan;
use crate::worm::TensorView;
use crate::worm::WormMemoryManager;

verus! {

/// What the mapping of one shard led to, as a mathematical value.
pub open spec fn outcome_model(outcome: Result<Vec<MappedTensor>, EvokeError>) -> Result<
    Seq<Placement>,
    EvokeFault,
> {
    match outcome {
        Ok(tensors) => Ok(mapped_models(tensors@)),
        Err(e) => Err(e@),
    }
}

/// What the mapping of the shards led to, as mathematical values.
pub open spec fn outcome_models(outcomes: Seq<Result<Vec<MappedTensor>, EvokeError>>) -> Seq<
    Result<Seq<Placement>, EvokeFault>,
> {
    outcomes.map_values(|o: Result<Vec<MappedTensor>, EvokeError>| outcome_model(o))
}

/// The tensors of `known` with those of one more shard; no key may occur twice.
pub open spec fn gathered_with(
    known: Map<Seq<char>, Placement>,
    tensors: Seq<Placement>,
) -> Result<Map<Seq<char>, Placement>, EvokeFault>
    decreases tensors.len(),
{
    if tensors.len() == 0 {
        Ok(known)
    } else {
        match gathered_with(known, tensors.drop_last()) {
            Err(fault) => Err(fault),
            Ok(before) => {
                let last = tensors.last();
                if before.contains_key(last.key) {
                    Err(EvokeFault::Config("duplicate tensor key: "@ + last.key))
                } else {
                    Ok(before.insert(last.key, last))
                }
            },
        }
    }
}

/// The tensors of all shards by key, in the order in which the shards arrive. The first error
/// ends the gathering.
pub open spec fn gathered(outcomes: Seq<Result<Seq<Placement>, EvokeFault>>) -> Result<
    Map<Seq<char>, Placement>,
    EvokeFault,
>
    decreases outcomes.len(),
{
    if outcomes.len() == 0 {
        Ok(Map::empty())
    } else {
        match gathered(outcomes.drop_last()) {
            Err(fault) => Err(fault),
            Ok(known) => match outcomes.last() {
                Err(fault) => Err(fault),
                Ok(tensors) => gathered_with(known, tensors),
            },
        }
    }
}

/// The key of the `n`-th tensor of a model, counted layer by layer.
pub open spec fn slot_key(n: nat) -> Seq<char> {
    layer_key(n / SLOTS as nat, slot_part((n % SLOTS as nat) as int))
}

/// No two tensors of a model have the same key.
pub proof fn slot_keys_are_unique(n: nat, m: nat)
    requires
        slot_key(n) == slot_key(m),
    ensures
        n == m,
{
    let s = SLOTS as nat;
    layer_keys_are_unique(
        n / s,
        slot_part((n % s) as int),
        m / s,
        slot_part((m % s) as int),
    );
    slot_parts_are_unique((n % s) as int, (m % s) as int);
}

/// The arena and the places after the first `n` tensors were placed in order.
pub open spec fn assembled(
    tensors: Map<Seq<char>, Placement>,
    arena: Arena,
    n: nat,
) -> Result<(Arena, Seq<TensorSpan>), EvokeFault>
    decreases n,
{
    if n == 0 {
        Ok((arena, Seq::empty()))
    } else {
        let key = slot_key((n - 1) as nat);
        match assembled(tensors, arena, (n - 1) as nat) {
            Err(fault) => Err(fault),
            Ok((before, spans)) => if !tensors.contains_key(key) {
                Err(EvokeFault::Config("missing "@ + key))
            } else if !before.accepts(tensors[key]) {
                Err(before.refusal(tensors[key]))
            } else {
                Ok((before.placed(tensors[key]), spans.push(before.span(tensors[key]))))
            },
        }
    }
}

/// An error ends the assembly.
proof fn assembly_ends_with_error(
    tensors: Map<Seq<char>, Placement>,
    arena: Arena,
    n: nat,
    m: nat,
)
    requires
        n <= m,
        assembled(tensors, arena, n) is Err,
    ensures
        assembled(tensors, arena, m) == assembled(tensors, arena, n),
    decreases m - n,
{
    if n < m {
        assembly_ends_with_error(tensors, arena, n, (m - 1) as nat);
    }
}

/// An empty arena of the given capacity.
pub open spec fn empty_arena(capacity: nat) -> Arena {
    Arena {
        state: MemoryState::Staging,
        bytes: Seq::empty(),
        capacity,
        table: Map::empty(),
    }
}

/// The block of layer `layer`, by the places of all tensors in order.
pub open spec fn block_at(spans: Seq<TensorSpan>, layer: int) -> BlockSpans {
    let at = layer * SLOTS;
    BlockSpans {
        layer_idx: layer as usize,
        q: spans[at],
        k: spans[at + 1],
        v: spans[at + 2],
        o_proj: spans[at + 3],
        mlp_gate: spans[at + 4],
        mlp_up: spans[at + 5],
        mlp_down: spans[at + 6],
        input_norm: spans[at + 7],
        post_norm: spans[at + 8],
    }
}

/// The blocks of a model with `layers` layers, by the places of all tensors in order.
pub open spec fn blocks_of(spans: Seq<TensorSpan>, layers: nat) -> Seq<BlockSpans> {
    Seq::new(layers, |i: int| block_at(spans, i))
}

/// The name of a part of a layer.
fn slot_name(slot: usize) -> (part: &'static str)
    requires
        slot < SLOTS,
    ensures
        part@ == slot_part(slot as int),
{
    if slot == 0 {
        "attn.q"
    } else if slot == 1 {
        "attn.k"
    } else if slot == 2 {
        "attn.v"
    } else if slot == 3 {
        "attn.o_proj"
    } else if slot == 4 {
        "mlp.gate"
    } else if slot == 5 {
        "mlp.up"
    } else if slot == 6 {
        "mlp.down"
    } else if slot == 7 {
        "input_norm"
    } else {
        "post_norm"
    }
}

/// Tensors by key, as mathematical values.
pub open spec fn pending_model(pending: Map<Seq<char>, MappedTensor>) -> Map<
    Seq<char>,
    Placement,
> {
    pending.map_values(|t: MappedTensor| t@)
}

/// Adds the tensors of one shard.
fn gather_shard(pending: &mut StringHashMap<MappedTensor>, tensors: Vec<MappedTensor>) -> (added:
    Result<(), EvokeError>)
    ensures
        match gathered_with(pending_model(old(pending)@), mapped_models(tensors@)) {
            Ok(known) => added is Ok && pending_model(final(pending)@) == known,
            Err(fault) => added matches Err(e) && e@ == fault,
        },
{
    let ghost before = pending_model(pending@);
    let ghost models = mapped_models(tensors@);
    proof {
        assert(models.take(0) =~= Seq::<Placement>::empty());
    }
    for tensor in it: tensors
        invariant
            it.seq() == tensors@,
            models == mapped_models(tensors@),
            before == pending_model(old(pending)@),
            gathered_with(before, models.take(it.index() as int)) == Ok::<_, EvokeFault>(
                pending_model(pending@),
            ),
    {
        let ghost n = it.index() as int;
        proof {
            assert(models.take(n + 1).drop_last() =~= models.take(n));
            assert(models.take(n + 1).last() == tensor@);
        }
        if pending.contains_key(tensor.key.as_str()) {
            proof {
                gathering_ends_with_error(before, models, n + 1);
            }
            return Err(
                EvokeError::Config(join2("duplicate tensor key: ", tensor.key.as_str())),
            );
        }
        let ghost known = pending_model(pending@);
        let key: String = tensor.key.clone();
        pending.insert(key, tensor);
        proof {
            assert(pending_model(pending@) =~= known.insert(tensor@.key, tensor@));
        }
    }
    proof {
        assert(models.take(models.len() as int) =~= models);
    }
    Ok(())
}

/// A key that occurs twice ends the gathering.
proof fn gathering_ends_with_error(
    known: Map<Seq<char>, Placement>,
    tensors: Seq<Placement>,
    n: int,
)
    requires
        0 <= n <= tensors.len(),
        gathered_with(known, tensors.take(n)) is Err,
    ensures
        gathered_with(known, tensors) == gathered_with(known, tensors.take(n)),
    decreases tensors.len() - n,
{
    if n < tensors.len() {
        assert(tensors.take(n + 1).drop_last() =~= tensors.take(n));
        gathering_ends_with_error(known, tensors, n + 1);
    } else {
        assert(tensors.take(n) =~= tensors);
    }
}

/// The first error among the shards ends the gathering.
proof fn shards_end_with_error(outcomes: Seq<Result<Seq<Placement>, EvokeFault>>, n: int)
    requires
        0 <= n <= outcomes.len(),
        gathered(outcomes.take(n)) is Err,
    ensures
        gathered(outcomes) == gathered(outcomes.take(n)),
    decreases outcomes.len() - n,
{
    if n < outcomes.len() {
        assert(outcomes.take(n + 1).drop_last() =~= outcomes.take(n));
        shards_end_with_error(outcomes, n + 1);
    } else {
        assert(outcomes.take(n) =~= outcomes);
    }
}

/// Gathers the tensors of all shards by key.
fn gather(shards: Vec<Result<Vec<MappedTensor>, EvokeError>>) -> (all: Result<
    StringHashMap<MappedTensor>,
    EvokeError,
>)
    ensures
        match gathered(outcome_models(shards@)) {
            Ok(known) => all matches Ok(pending) && pending_model(pending@) == known,
            Err(fault) => all matches Err(e) && e@ == fault,
        },
{
    let ghost models = outcome_models(shards@);
    let mut pending: StringHashMap<MappedTensor> = StringHashMap::new();
    proof {
        assert(models.take(0) =~= Seq::<Result<Seq<Placement>, EvokeFault>>::empty());
        assert(pending_model(pending@) =~= Map::<Seq<char>, Placement>::empty());
    }
    for shard in it: shards
        invariant
            it.seq() == shards@,
            models == outcome_models(shards@),
            gathered(models.take(it.index() as int)) == Ok::<_, EvokeFault>(
                pending_model(pending@),
            ),
    {
        let ghost n = it.index() as int;
        proof {
            assert(models.take(n + 1).drop_last() =~= models.take(n));
            assert(models.take(n + 1).last() == outcome_model(shard));
        }
        match shard {
            Err(e) => {
                proof {
                    shards_end_with_error(models, n + 1);
                }
                return Err(e);
            },
            Ok(tensors) => match gather_shard(&mut pending, tensors) {
                Ok(_) => {},
                Err(e) => {
                    proof {
                        shards_end_with_error(models, n + 1);
                    }
                    return Err(e);
                },
            },
        }
    }
    proof {
        assert(models.take(models.len() as int) =~= models);
    }
    Ok(pending)
}

/// What placing the tensor under `key` leads to.
pub open spec fn placing(
    tensors: Map<Seq<char>, Placement>,
    arena: Arena,
    key: Seq<char>,
) -> Result<(Arena, TensorSpan), EvokeFault> {
    if !tensors.contains_key(key) {
        Err(EvokeFault::Config("missing "@ + key))
    } else if !arena.accepts(tensors[key]) {
        Err(arena.refusal(tensors[key]))
    } else {
        Ok((arena.placed(tensors[key]), arena.span(tensors[key])))
    }
}

/// Whether every tensor stands under its own key.
spec fn keyed(tensors: Map<Seq<char>, Placement>) -> bool {
    forall|key: Seq<char>| #[trigger] tensors.contains_key(key) ==> tensors[key].key == key
}

/// Takes the tensor of layer `layer` and slot `slot` out of `pending` and places it.
fn take_tensor(
    pending: &mut StringHashMap<MappedTensor>,
    manager: &mut WormMemoryManager,
    layer: usize,
    slot: usize,
) -> (taken: Result<TensorView, EvokeError>)
    requires
        slot < SLOTS,
        old(manager).wf(),
        keyed(pending_model(old(pending)@)),
    ensures
        final(manager).wf(),
        ({
            let key = layer_key(layer as nat, slot_part(slot as int));
            match placing(pending_model(old(pending)@), old(manager)@, key) {
                Ok((arena, span)) => {
                    &&& taken matches Ok(view)
                    &&& view@ == span
                    &&& final(manager)@ == arena
                    &&& final(pending)@ == old(pending)@.remove(key)
                },
                Err(fault) => taken matches Err(e) && e@ == fault,
            }
        }),
{
    let key: String = layer_key_text(layer, slot_name(slot));
    let view: TensorView = match pending.get(key.as_str()) {
        None => {
            return Err(EvokeError::Config(join2("missing ", key.as_str())));
        },
        Some(tensor) => {
            proof {
                assert(pending_model(old(pending)@).contains_key(key@));
                assert(tensor@ == pending_model(old(pending)@)[key@]);
            }
            match manager.allocate(
                tensor.data.as_slice(),
                key.as_str(),
                copy_shape(tensor.shape.as_slice()),
                tensor.dtype,
            ) {
                Ok(view) => view,
                Err(e) => {
                    return Err(e);
                },
            }
        },
    };
    pending.remove(key.as_str());
    Ok(view)
}

/// The block that the places of the nine tensors of a layer make up.
fn block_from(layer_idx: usize, parts: Vec<TensorView>) -> (block: GlmBlockView)
    requires
        parts@.len() == SLOTS,
    ensures
        block@ == (BlockSpans {
            layer_idx,
            q: parts@[0]@,
            k: parts@[1]@,
            v: parts@[2]@,
            o_proj: parts@[3]@,
            mlp_gate: parts@[4]@,
            mlp_up: parts@[5]@,
            mlp_down: parts@[6]@,
            input_norm: parts@[7]@,
            post_norm: parts@[8]@,
        }),
{
    GlmBlockView {
        layer_idx,
        q: parts[0].clone(),
        k: parts[1].clone(),
        v: parts[2].clone(),
        o_proj: parts[3].clone(),
        mlp_gate: parts[4].clone(),
        mlp_up: parts[5].clone(),
        mlp_down: parts[6].clone(),
        input_norm: parts[7].clone(),
        post_norm: parts[8].clone(),
    }
}

/// Whether `pending` still holds every tensor from the `n`-th on, as `all` holds it.
spec fn holds_from(
    pending: Map<Seq<char>, Placement>,
    all: Map<Seq<char>, Placement>,
    n: nat,
) -> bool {
    forall|m: nat|
        n <= m ==> (pending.contains_key(#[trigger] slot_key(m)) == all.contains_key(slot_key(m))
            && (all.contains_key(slot_key(m)) ==> pending[slot_key(m)] == all[slot_key(m)]))
}

/// Taking out the `n`-th tensor leaves those behind it.
proof fn taking_keeps_the_rest(
    pending: Map<Seq<char>, Placement>,
    all: Map<Seq<char>, Placement>,
    n: nat,
)
    requires
        holds_from(pending, all, n),
        keyed(pending),
    ensures
        holds_from(pending.remove(slot_key(n)), all, n + 1),
        keyed(pending.remove(slot_key(n))),
{
    let rest = pending.remove(slot_key(n));
    assert forall|m: nat| n + 1 <= m implies (rest.contains_key(#[trigger] slot_key(m))
        == all.contains_key(slot_key(m)) && (all.contains_key(slot_key(m)) ==> rest[slot_key(m)]
        == all[slot_key(m)])) by {
        if slot_key(m) == slot_key(n) {
            slot_keys_are_unique(m, n);
        }
    }
}

/// The places of a sequence of views.
spec fn spans_of(views: Seq<TensorView>) -> Seq<TensorSpan> {
    views.map_values(|v: TensorView| v@)
}

/// Places the nine tensors of layer `layer`.
fn place_layer(
    pending: &mut StringHashMap<MappedTensor>,
    manager: &mut WormMemoryManager,
    layer: usize,
    Ghost(all): Ghost<Map<Seq<char>, Placement>>,
    Ghost(start): Ghost<Arena>,
) -> (placed: Result<GlmBlockView, EvokeError>)
    requires
        old(manager).wf(),
        keyed(pending_model(old(pending)@)),
        holds_from(pending_model(old(pending)@), all, (layer * SLOTS) as nat),
        assembled(all, start, (layer * SLOTS) as nat) matches Ok((arena, _)) && arena == old(
            manager,
        )@,
    ensures
        final(manager).wf(),
        match assembled(all, start, ((layer + 1) * SLOTS) as nat) {
            Ok((arena, spans)) => {
                &&& placed matches Ok(block)
                &&& block@ == block_at(spans, layer as int)
                &&& final(manager)@ == arena
                &&& keyed(pending_model(final(pending)@))
                &&& holds_from(pending_model(final(pending)@), all, ((layer + 1) * SLOTS) as nat)
            },
            Err(fault) => placed matches Err(e) && e@ == fault,
        },
{
    let ghost base = (layer * SLOTS) as nat;
    let ghost before = assembled(all, start, base)->Ok_0.1;
    let mut parts: Vec<TensorView> = Vec::new();
    proof {
        assert(before + spans_of(parts@) =~= before);
    }
    let mut slot: usize = 0;
    while slot < SLOTS
        invariant
            slot <= SLOTS,
            base == layer * SLOTS,
            parts@.len() == slot,
            manager.wf(),
            keyed(pending_model(pending@)),
            holds_from(pending_model(pending@), all, base + slot as nat),
            assembled(all, start, base + slot as nat) == Ok::<_, EvokeFault>(
                (manager@, before + spans_of(parts@)),
            ),
        decreases SLOTS - slot,
    {
        let ghost n = base + slot as nat;
        let ghost known = pending_model(pending@);
        let ghost so_far = spans_of(parts@);
        proof {
            assert(n / SLOTS as nat == layer && n % SLOTS as nat == slot);
            assert(slot_key(n) == layer_key(layer as nat, slot_part(slot as int)));
            assert(assembled(all, start, (n + 1) as nat) == match placing(
                known,
                manager@,
                slot_key(n),
            ) {
                Ok((arena, span)) => Ok((arena, (before + so_far).push(span))),
                Err(fault) => Err(fault),
            });
        }
        match take_tensor(pending, manager, layer, slot) {
            Ok(view) => {
                proof {
                    taking_keeps_the_rest(known, all, n);
                    assert(pending_model(pending@) =~= known.remove(slot_key(n)));
                }
                parts.push(view);
                proof {
                    assert(before + spans_of(parts@) =~= (before + so_far).push(view@));
                }
            },
            Err(e) => {
                proof {
                    assembly_ends_with_error(
                        all,
                        start,
                        (n + 1) as nat,
                        ((layer + 1) * SLOTS) as nat,
                    );
                }
                return Err(e);
            },
        }
        slot += 1;
    }
    proof {
        assembly_has_all_spans(all, start, base);
        assert(base + SLOTS == (layer + 1) * SLOTS);
    }
    Ok(block_from(layer, parts))
}

/// An assembly without error has one place for each tensor.
proof fn assembly_has_all_spans(tensors: Map<Seq<char>, Placement>, arena: Arena, n: nat)
    requires
        assembled(tensors, arena, n) is Ok,
    ensures
        assembled(tensors, arena, n)->Ok_0.1.len() == n,
    decreases n,
{
    if n > 0 {
        assembly_has_all_spans(tensors, arena, (n - 1) as nat);
    }
}

/// Later tensors do not move earlier ones.
proof fn assembly_extends_spans(
    tensors: Map<Seq<char>, Placement>,
    arena: Arena,
    n: nat,
    m: nat,
)
    requires
        n <= m,
        assembled(tensors, arena, m) is Ok,
    ensures
        assembled(tensors, arena, n) is Ok,
        assembled(tensors, arena, n)->Ok_0.1.is_prefix_of(assembled(tensors, arena, m)->Ok_0.1),
    decreases m - n,
{
    if n < m {
        assert(assembled(tensors, arena, (m - 1) as nat) is Ok);
        assembly_extends_spans(tensors, arena, n, (m - 1) as nat);
    }
}

/// Gathering puts every tensor under its own key.
proof fn gathering_keeps_keys(known: Map<Seq<char>, Placement>, tensors: Seq<Placement>)
    requires
        keyed(known),
        gathered_with(known, tensors) is Ok,
    ensures
        keyed(gathered_with(known, tensors)->Ok_0),
    decreases tensors.len(),
{
    if tensors.len() > 0 {
        gathering_keeps_keys(known, tensors.drop_last());
    }
}

/// The gathered tensors of all shards stand under their own keys.
proof fn gathered_is_keyed(outcomes: Seq<Result<Seq<Placement>, EvokeFault>>)
    requires
        gathered(outcomes) is Ok,
    ensures
        keyed(gathered(outcomes)->Ok_0),
    decreases outcomes.len(),
{
    if outcomes.len() > 0 {
        gathered_is_keyed(outcomes.drop_last());
        let known = gathered(outcomes.drop_last())->Ok_0;
        gathering_keeps_keys(known, outcomes.last()->Ok_0);
    }
}

/// What a checkpoint becomes: the filled arena, the layers, and the record of the sealing that is
/// due.
pub struct Ingested {
    pub arena: WormMemoryManager,
    pub layers: Vec<GlmBlockView>,
    pub record: ExecutionRecord,
}

impl View for Ingested {
    type V = (Seq<u8>, Seq<BlockSpans>);

    /// The bytes to be sealed, and the layers.
    open spec fn view(&self) -> (Seq<u8>, Seq<BlockSpans>) {
        (self.arena@.bytes, block_models(self.layers@))
    }
}

impl Ingested {
    /// Whether the arena can still be sealed.
    pub open spec fn wf(&self) -> bool {
        self.arena.wf() && self.arena@.state == MemoryState::Staging
    }

    /// The bytes to be sealed, for the memory lock to be asked for.
    pub fn staged(&self) -> (bytes: &[u8])
        requires
            self.wf(),
        ensures
            bytes@ == self@.0,
    {
        self.arena.staged()
    }

    /// Seals the weights and hands them out with the layers.
    ///
    /// `lock_status` is what the system answered when it was asked to keep the staged bytes in
    /// memory; anything but zero is a failure, unless there was nothing to keep.
    pub fn seal(self, lock_status: i32) -> (sealed: Result<
        (Arc<SealedRegion>, Vec<GlmBlockView>),
        EvokeError,
    >)
        requires
            self.wf(),
        ensures
            sealed is Ok <==> lock_status == 0 || self@.0.len() == 0,
            match sealed {
                Ok((weights, layers)) => weights@ == self@.0 && block_models(layers@) == self@.1,
                Err(e) => e@ == EvokeFault::Seal("memory lock failed"@),
            },
    {
        match self.arena.seal(lock_status) {
            Ok(weights) => Ok((weights, self.layers)),
            Err(e) => Err(e),
        }
    }
}

/// The record of the sealing.
pub open spec fn seal_record() -> RecordModel {
    RecordModel { seq: 0, phase: "seal"@, layer: None, detail: "sealing WORM region"@ }
}

/// What the shards of a checkpoint become in an arena of the given capacity: the bytes to be
/// sealed and the layers.
pub open spec fn ingestion(
    cfg: GlmConfig,
    outcomes: Seq<Result<Seq<Placement>, EvokeFault>>,
    capacity: nat,
) -> Result<(Seq<u8>, Seq<BlockSpans>), EvokeFault> {
    if !cfg.valid() {
        Err(cfg.fault())
    } else {
        match gathered(outcomes) {
            Err(fault) => Err(fault),
            Ok(tensors) => match assembled(
                tensors,
                empty_arena(capacity),
                cfg.num_layers as nat * SLOTS as nat,
            ) {
                Err(fault) => Err(fault),
                Ok((arena, spans)) => Ok(
                    (arena.bytes, blocks_of(spans, cfg.num_layers as nat)),
                ),
            },
        }
    }
}

/// The outcome of an ingestion as a mathematical value.
pub open spec fn ingested_model(ingested: Result<Ingested, EvokeError>) -> Result<
    (Seq<u8>, Seq<BlockSpans>),
    EvokeFault,
> {
    match ingested {
        Ok(done) => Ok(done@),
        Err(e) => Err(e@),
    }
}

/// Gathers the mapped shards in the order in which they arrive and places the tensors layer by
/// layer. The arena has the size that the configuration asks for, and is then ready to be
/// sealed.
pub fn ingest_checkpoint(
    shards: Vec<Result<Vec<MappedTensor>, EvokeError>>,
    config: &GlmConfig,
) -> (ingested: Result<Ingested, EvokeError>)
    requires
        config.num_attention_heads != 0,
        config.valid() ==> config.arena_fits(),
    ensures
        ingested_model(ingested) == ingestion(
            *config,
            outcome_models(shards@),
            config.staging_bytes(),
        ),
        ingested matches Ok(done) ==> done.wf() && done.record@ == seal_record(),
{
    let ghost outcomes = outcome_models(shards@);
    let ghost capacity = config.staging_bytes();
    match config.validate() {
        Ok(_) => {},
        Err(e) => {
            proof {
                assert(ingestion(*config, outcomes, capacity) == Err::<
                    (Seq<u8>, Seq<BlockSpans>),
                    EvokeFault,
                >(e@));
            }
            return Err(e);
        },
    }
    let size: usize = config.staging_capacity().unwrap();
    let mut manager: WormMemoryManager = WormMemoryManager::new(size);
    let ghost start = manager@;
    proof {
        assert(start == empty_arena(capacity));
    }
    let mut pending: StringHashMap<MappedTensor> = match gather(shards) {
        Ok(pending) => pending,
        Err(e) => {
            proof {
                assert(ingestion(*config, outcomes, capacity) == Err::<
                    (Seq<u8>, Seq<BlockSpans>),
                    EvokeFault,
                >(e@));
            }
            return Err(e);
        },
    };
    let ghost all = pending_model(pending@);
    proof {
        gathered_is_keyed(outcomes);
    }
    let mut layers: Vec<GlmBlockView> = Vec::new();
    let mut idx: usize = 0;
    while idx < config.num_layers
        invariant
            idx <= config.num_layers,
            config.valid(),
            capacity == config.staging_bytes(),
            start == empty_arena(capacity),
            gathered(outcomes) == Ok::<_, EvokeFault>(all),
            outcomes == outcome_models(shards@),
            manager.wf(),
            keyed(pending_model(pending@)),
            holds_from(pending_model(pending@), all, (idx * SLOTS) as nat),
            assembled(all, start, (idx * SLOTS) as nat) is Ok,
            assembled(all, start, (idx * SLOTS) as nat)->Ok_0.0 == manager@,
            block_models(layers@) == blocks_of(
                assembled(all, start, (idx * SLOTS) as nat)->Ok_0.1,
                idx as nat,
            ),
        decreases config.num_layers - idx,
    {
        let ghost now = (idx * SLOTS) as nat;
        let ghost next = ((idx + 1) * SLOTS) as nat;
        let ghost before = block_models(layers@);
        match place_layer(&mut pending, &mut manager, idx, Ghost(all), Ghost(start)) {
            Ok(block) => {
                layers.push(block);
                proof {
                    assembly_extends_spans(all, start, now, next);
                    assembly_has_all_spans(all, start, now);
                    let spans = assembled(all, start, next)->Ok_0.1;
                    assert(block_models(layers@) =~= before.push(block@));
                    assert(block_models(layers@) =~= blocks_of(spans, (idx + 1) as nat));
                }
            },
            Err(e) => {
                proof {
                    assert(next <= config.num_layers as nat * SLOTS as nat);
                    assembly_ends_with_error(
                        all,
                        start,
                        next,
                        config.num_layers as nat * SLOTS as nat,
                    );
                    assert(ingestion(*config, outcomes, capacity) == Err::<
                        (Seq<u8>, Seq<BlockSpans>),
                        EvokeFault,
                    >(e@));
                }
                return Err(e);
            },
        }
        idx += 1;
    }
    proof {
        assembly_keeps_state(all, start, config.num_layers as nat * SLOTS as nat);
    }
    let record = ExecutionRecord {
        seq: 0,
        phase: "seal",
        layer: None,
        detail: "sealing WORM region".to_owned(),
    };
    let done = Ingested { arena: manager, layers, record };
    proof {
        assert(ingestion(*config, outcomes, capacity) == Ok::<
            (Seq<u8>, Seq<BlockSpans>),
            EvokeFault,
        >(done@));
    }
    Ok(done)
}

/// Placing tensors does not end the writable phase.
proof fn assembly_keeps_state(tensors: Map<Seq<char>, Placement>, arena: Arena, n: nat)
    requires
        assembled(tensors, arena, n) is Ok,
    ensures
        assembled(tensors, arena, n)->Ok_0.0.state == arena.state,
        assembled(tensors, arena, n)->Ok_0.0.capacity == arena.capacity,
    decreases n,
{
    if n > 0 {
        assembly_keeps_state(tensors, arena, (n - 1) as nat);
    }
}

} // verus!
