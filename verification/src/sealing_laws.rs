//! What the arena does with a tensor, and what the sealed layers hold of the files of a checkpoint.

use vstd::prelude::*;

use crate::checkpoint_laws::assembly_succeeds_exactly_if_complete;
use crate::checkpoint_laws::block_span;
use crate::checkpoint_laws::footprint;
use crate::checkpoint_laws::gathering_keeps_every_tensor;
use crate::checkpoint_laws::holds_tensor;
use crate::checkpoint_laws::is_consistent;
use crate::checkpoint_laws::is_supplied;
use crate::checkpoint_laws::names_tensor;
use crate::checkpoint_laws::roles_are_distinct;
use crate::checkpoint_laws::sealed_layers_hold_the_checkpoint;
use crate::checkpoint_laws::tensor_at;
use crate::config::GlmConfig;
use crate::error::EvokeFault;
use crate::graph::BlockSpans;
use crate::grouping_laws::gathering_in_portions;
use crate::grouping_laws::mapped_files;
use crate::ingest::assembled;
use crate::ingest::empty_arena;
use crate::ingest::gathered;
use crate::ingest::gathered_with;
use crate::ingest::ingestion;
use crate::ingest::slot_key;
use crate::keys::canonical_key;
use crate::keys::layer_key;
use crate::keys::slot_part;
use crate::keys::SLOTS;
use crate::mapping_laws::attention_matrix_is_kept;
use crate::mapping_laws::fits_whole_times;
use crate::mapping_laws::network_matrix_is_kept;
use crate::mapping_laws::whole_tensors_are_kept;
use crate::shard::RawModel;
use crate::text::decimal;
use crate::transform::mapping_of;
use crate::transform::shard_mapping;
use crate::worm::align_up;
use crate::worm::read_span;
use crate::worm::Arena;
use crate::worm::MemoryState;
use crate::worm::Placement;
use crate::worm::TensorSpan;

verus! {

/// Whether `offset` is the first multiple of 64 at or behind `end`.
pub open spec fn is_next_multiple(offset: nat, end: nat) -> bool {
    offset % 64 == 0 && end <= offset < end + 64
}

/// A tensor is taken exactly if the arena is writable and the tensor fits behind the next multiple
/// of 64. It then lies there byte for byte, with zeros before it; what was written before stays,
/// and so do the places of all other tensors.
pub proof fn tensors_are_placed_behind_the_last_one(arena: Arena, p: Placement)
    ensures
        ({
            let written = arena.bytes.len();
            let place = arena.span(p);
            let after = arena.placed(p);
            &&& is_next_multiple(place.offset, written)
            &&& place.len == p.data.len() && place.shape == p.shape && place.dtype == p.dtype
            &&& arena.accepts(p) <==> arena.state == MemoryState::Staging && place.offset
                + p.data.len() <= arena.capacity
            &&& after.bytes.len() == place.offset + p.data.len()
            &&& forall|i: int| 0 <= i < written ==> #[trigger] after.bytes[i] == arena.bytes[i]
            &&& forall|i: int| written <= i < place.offset ==> #[trigger] after.bytes[i] == 0
            &&& forall|i: int|
                place.offset <= i < place.offset + p.data.len() ==> #[trigger] after.bytes[i]
                    == p.data[i - place.offset]
            &&& after.state == arena.state
            &&& after.capacity == arena.capacity
            &&& after.table.contains_key(p.key) && after.table[p.key] == place
            &&& forall|key: Seq<char>|
                key != p.key ==> (#[trigger] after.table.contains_key(key)
                    <==> arena.table.contains_key(key)) && after.table[key] == arena.table[key]
        }),
{
}

/// A tensor that is not taken is told why: the arena is sealed, or how many bytes it would need
/// and how many there are. An arena that cannot be sealed is told why as well.
pub proof fn refusals_are_explained(arena: Arena, p: Placement)
    ensures
        arena.state == MemoryState::Sealed ==> arena.refusal(p) == EvokeFault::Seal(
            "alloc after seal"@,
        ),
        arena.state == MemoryState::Staging ==> arena.refusal(p) == (EvokeFault::Shard {
            shard: p.key,
            msg: "OOM: need "@ + decimal(arena.span(p).offset + p.data.len()) + ", capacity "@
                + decimal(arena.capacity),
        }),
        arena.state == MemoryState::Sealed ==> arena.seal_refusal() == EvokeFault::Seal(
            "double seal"@,
        ),
        arena.state == MemoryState::Staging ==> arena.seal_refusal() == EvokeFault::Seal(
            "memory lock failed"@,
        ),
{
}

/// Requests are dealt with one after the other, and one that is refused leaves no trace.
pub proof fn requests_are_dealt_with_in_order(
    arena: Arena,
    a: Seq<Placement>,
    b: Seq<Placement>,
    p: Placement,
)
    ensures
        arena.after(Seq::empty()) == arena,
        arena.after(seq![p]) == if arena.accepts(p) {
            arena.placed(p)
        } else {
            arena
        },
        arena.after(a + b) == arena.after(a).after(b),
    decreases b.len(),
{
    assert(seq![p].drop_last() =~= Seq::<Placement>::empty());
    assert(arena.after(seq![p].drop_last()) == arena);
    if b.len() == 0 {
        assert(a + b =~= a);
    } else {
        assert((a + b).drop_last() =~= a + b.drop_last());
        requests_are_dealt_with_in_order(arena, a, b.drop_last(), p);
    }
}

/// The bytes of a place are those of the region from its offset on.
pub proof fn places_are_read_from_their_offset(bytes: Seq<u8>, place: TensorSpan)
    requires
        place.offset + place.len <= bytes.len(),
    ensures
        read_span(bytes, place).len() == place.len,
        forall|i: int|
            0 <= i < place.len ==> #[trigger] read_span(bytes, place)[i] == bytes[place.offset + i],
{
}

/// The first shard that failed is reported, unless a key occurs twice before.
pub proof fn first_failed_shard_is_reported(
    cfg: GlmConfig,
    outcomes: Seq<Result<Seq<Placement>, EvokeFault>>,
    capacity: nat,
    i: int,
    fault: EvokeFault,
)
    requires
        cfg.valid(),
        0 <= i < outcomes.len(),
        is_consistent(outcomes.take(i)),
        outcomes[i] == Err::<Seq<Placement>, _>(fault),
    ensures
        ingestion(cfg, outcomes, capacity) == Err::<(Seq<u8>, Seq<BlockSpans>), _>(fault),
{
    gathering_keeps_every_tensor(outcomes.take(i));
    assert(outcomes.take(i + 1).drop_last() =~= outcomes.take(i));
    assert(gathered(outcomes.take(i + 1)) == Err::<Map<Seq<char>, Placement>, _>(fault));
    failure_stays(outcomes, i + 1);
}

/// A failure among the first shards is the failure of all.
proof fn failure_stays(outcomes: Seq<Result<Seq<Placement>, EvokeFault>>, n: int)
    requires
        0 <= n <= outcomes.len(),
        gathered(outcomes.take(n)) is Err,
    ensures
        gathered(outcomes) == gathered(outcomes.take(n)),
    decreases outcomes.len() - n,
{
    if n < outcomes.len() {
        assert(outcomes.take(n + 1).drop_last() =~= outcomes.take(n));
        failure_stays(outcomes, n + 1);
    } else {
        assert(outcomes.take(n) =~= outcomes);
    }
}

/// The first tensor whose key was there before is reported by its key.
pub proof fn first_repeated_key_is_reported(
    cfg: GlmConfig,
    outcomes: Seq<Result<Seq<Placement>, EvokeFault>>,
    capacity: nat,
    i: int,
    j: int,
)
    requires
        cfg.valid(),
        names_tensor(outcomes, i, j),
        is_consistent(outcomes.take(i).push(Ok(outcomes[i]->Ok_0.take(j)))),
        is_supplied(
            outcomes.take(i).push(Ok(outcomes[i]->Ok_0.take(j))),
            outcomes[i]->Ok_0[j].key,
        ),
    ensures
        ingestion(cfg, outcomes, capacity) == Err::<(Seq<u8>, Seq<BlockSpans>), _>(
            EvokeFault::Config("duplicate tensor key: "@ + outcomes[i]->Ok_0[j].key),
        ),
{
    let tensors = outcomes[i]->Ok_0;
    let so_far = outcomes.take(i).push(Ok(tensors.take(j)));
    gathering_keeps_every_tensor(so_far);
    assert(so_far.drop_last() =~= outcomes.take(i));
    assert(so_far.last() == Ok::<_, EvokeFault>(tensors.take(j)));
    let known = gathered(outcomes.take(i))->Ok_0;
    assert(gathered(outcomes.take(i)) is Ok);
    assert(gathered(so_far) == gathered_with(known, tensors.take(j)));
    assert(gathered(so_far)->Ok_0.contains_key(tensors[j].key));
    assert(tensors.take(j + 1).drop_last() =~= tensors.take(j));
    assert(gathered_with(known, tensors.take(j + 1)) is Err);
    assert(tensors =~= tensors.take(j + 1) + tensors.skip(j + 1));
    gathering_in_portions(known, tensors.take(j + 1), tensors.skip(j + 1));
    assert(outcomes.take(i + 1).drop_last() =~= outcomes.take(i));
    failure_stays(outcomes, i + 1);
}

/// A failure of the first placements is the failure of all.
proof fn placing_stops(tensors: Map<Seq<char>, Placement>, arena: Arena, n: nat, m: nat)
    requires
        n <= m,
        assembled(tensors, arena, n) is Err,
    ensures
        assembled(tensors, arena, m) == assembled(tensors, arena, n),
    decreases m - n,
{
    if n < m {
        placing_stops(tensors, arena, n, (m - 1) as nat);
    }
}

/// The part of a layer that is placed as the `slot`-th.
pub open spec fn placed_part(slot: nat) -> Seq<char> {
    if slot == 0 {
        "attn.q"@
    } else if slot == 1 {
        "attn.k"@
    } else if slot == 2 {
        "attn.v"@
    } else if slot == 3 {
        "attn.o_proj"@
    } else if slot == 4 {
        "mlp.gate"@
    } else if slot == 5 {
        "mlp.up"@
    } else if slot == 6 {
        "mlp.down"@
    } else if slot == 7 {
        "input_norm"@
    } else {
        "post_norm"@
    }
}

/// The key of the tensor that is placed as the `n`-th: layer after layer, nine parts each.
pub open spec fn placed_key(n: nat) -> Seq<char> {
    "layer."@ + decimal(n / 9) + "."@ + placed_part(n % 9)
}

/// What the placement of a tensor fails with, once all before it were placed: the tensor is
/// missing, or it does not fit.
pub proof fn first_lacking_tensor_is_reported(
    cfg: GlmConfig,
    outcomes: Seq<Result<Seq<Placement>, EvokeFault>>,
    capacity: nat,
    m: nat,
)
    requires
        cfg.valid(),
        is_consistent(outcomes),
        m < cfg.num_layers as nat * 9,
        forall|i: nat| i < m ==> is_supplied(outcomes, #[trigger] placed_key(i)),
        footprint(gathered(outcomes)->Ok_0, m) <= capacity,
    ensures
        !is_supplied(outcomes, placed_key(m)) ==> ingestion(cfg, outcomes, capacity) == Err::<
            (Seq<u8>, Seq<BlockSpans>),
            _,
        >(EvokeFault::Config("missing "@ + placed_key(m))),
        is_supplied(outcomes, placed_key(m)) ==> ({
            let tensor = gathered(outcomes)->Ok_0[placed_key(m)];
            let need = align_up(footprint(gathered(outcomes)->Ok_0, m)) + tensor.data.len();
            need > capacity ==> ingestion(cfg, outcomes, capacity) == Err::<
                (Seq<u8>, Seq<BlockSpans>),
                _,
            >(
                EvokeFault::Shard {
                    shard: placed_key(m),
                    msg: "OOM: need "@ + decimal(need) + ", capacity "@ + decimal(capacity),
                },
            )
        }),
{
    gathering_keeps_every_tensor(outcomes);
    let tensors = gathered(outcomes)->Ok_0;
    let n = cfg.num_layers as nat * SLOTS as nat;
    assert forall|i: nat| #[trigger] slot_key(i) == placed_key(i) by {}
    assert forall|i: nat| i < m implies tensors.contains_key(#[trigger] slot_key(i)) by {
        assert(is_supplied(outcomes, placed_key(i)));
    }
    assembly_succeeds_exactly_if_complete(tensors, capacity, m);
    assembly_succeeds_exactly_if_complete(tensors, capacity, (m + 1) as nat);
    assert(slot_key(m) == placed_key(m));
    let start = empty_arena(capacity);
    if is_supplied(outcomes, placed_key(m)) {
        let (i, j) = choose|i: int, j: int| #[trigger]
            names_tensor(outcomes, i, j) && tensor_at(outcomes, i, j).key == placed_key(m);
        assert(tensors[placed_key(m)] == tensor_at(outcomes, i, j));
    }
    if assembled(tensors, start, (m + 1) as nat) is Err {
        placing_stops(tensors, start, (m + 1) as nat, n);
    }
}

/// A configuration that is not valid is reported before anything else.
pub proof fn invalid_configuration_is_reported(
    cfg: GlmConfig,
    outcomes: Seq<Result<Seq<Placement>, EvokeFault>>,
    capacity: nat,
)
    ensures
        !cfg.valid() ==> ingestion(cfg, outcomes, capacity) == Err::<
            (Seq<u8>, Seq<BlockSpans>),
            _,
        >(cfg.fault()),
{
}

/// Whether the bytes of a region at a place are those of a tensor, with its shape and its element
/// type.
pub open spec fn lies_at(bytes: Seq<u8>, place: TensorSpan, tensor: Placement) -> bool {
    &&& place.offset + place.len <= bytes.len()
    &&& bytes.subrange(place.offset as int, (place.offset + place.len) as int) == tensor.data
    &&& place.shape == tensor.shape
    &&& place.dtype == tensor.dtype
}

/// Every layer of a sealed model names the place of each of its parts: under `q` lies the tensor
/// with the key of the queries of that layer, under `k` that of the keys, and so on.
pub proof fn layers_name_the_places_of_their_parts(
    cfg: GlmConfig,
    outcomes: Seq<Result<Seq<Placement>, EvokeFault>>,
    capacity: nat,
    layer: int,
)
    requires
        ingestion(cfg, outcomes, capacity) is Ok,
        0 <= layer < cfg.num_layers,
    ensures
        ({
            let (bytes, blocks) = ingestion(cfg, outcomes, capacity)->Ok_0;
            let tensors = gathered(outcomes)->Ok_0;
            let block = blocks[layer];
            let prefix = "layer."@ + decimal(layer as nat) + "."@;
            &&& blocks.len() == cfg.num_layers
            &&& block.layer_idx == layer
            &&& tensors.contains_key(prefix + "attn.q"@)
            &&& lies_at(bytes, block.q, tensors[prefix + "attn.q"@])
            &&& tensors.contains_key(prefix + "attn.k"@)
            &&& lies_at(bytes, block.k, tensors[prefix + "attn.k"@])
            &&& tensors.contains_key(prefix + "attn.v"@)
            &&& lies_at(bytes, block.v, tensors[prefix + "attn.v"@])
            &&& tensors.contains_key(prefix + "attn.o_proj"@)
            &&& lies_at(bytes, block.o_proj, tensors[prefix + "attn.o_proj"@])
            &&& tensors.contains_key(prefix + "mlp.gate"@)
            &&& lies_at(bytes, block.mlp_gate, tensors[prefix + "mlp.gate"@])
            &&& tensors.contains_key(prefix + "mlp.up"@)
            &&& lies_at(bytes, block.mlp_up, tensors[prefix + "mlp.up"@])
            &&& tensors.contains_key(prefix + "mlp.down"@)
            &&& lies_at(bytes, block.mlp_down, tensors[prefix + "mlp.down"@])
            &&& tensors.contains_key(prefix + "input_norm"@)
            &&& lies_at(bytes, block.input_norm, tensors[prefix + "input_norm"@])
            &&& tensors.contains_key(prefix + "post_norm"@)
            &&& lies_at(bytes, block.post_norm, tensors[prefix + "post_norm"@])
        }),
{
    let (bytes, blocks) = ingestion(cfg, outcomes, capacity)->Ok_0;
    let tensors = gathered(outcomes)->Ok_0;
    assert forall|slot: int| 0 <= slot < SLOTS implies tensors.contains_key(
        layer_key(layer as nat, #[trigger] slot_part(slot)),
    ) && holds_tensor(
        bytes,
        block_span(blocks[layer], slot),
        tensors[layer_key(layer as nat, slot_part(slot))],
    ) && blocks.len() == cfg.num_layers && blocks[layer].layer_idx == layer by {
        sealed_layers_hold_the_checkpoint(cfg, outcomes, capacity, layer, slot);
    }
    assert(slot_part(0) == "attn.q"@ && slot_part(1) == "attn.k"@ && slot_part(2) == "attn.v"@);
    assert(slot_part(3) == "attn.o_proj"@ && slot_part(4) == "mlp.gate"@ && slot_part(5)
        == "mlp.up"@);
    assert(slot_part(6) == "mlp.down"@ && slot_part(7) == "input_norm"@ && slot_part(8)
        == "post_norm"@);
}

/// Where the `n`-th tensor of a model lies.
pub open spec fn nth_place(blocks: Seq<BlockSpans>, n: int) -> TensorSpan {
    let block = blocks[n / 9];
    let slot = n % 9;
    if slot == 0 {
        block.q
    } else if slot == 1 {
        block.k
    } else if slot == 2 {
        block.v
    } else if slot == 3 {
        block.o_proj
    } else if slot == 4 {
        block.mlp_gate
    } else if slot == 5 {
        block.mlp_up
    } else if slot == 6 {
        block.mlp_down
    } else if slot == 7 {
        block.input_norm
    } else {
        block.post_norm
    }
}

/// Whether the `i`-th place follows the one before it: at the next multiple of 64, with zeros
/// between the two.
pub open spec fn follows(bytes: Seq<u8>, before: TensorSpan, place: TensorSpan) -> bool {
    &&& is_next_multiple(place.offset, before.offset + before.len)
    &&& forall|x: int|
        before.offset + before.len <= x < place.offset && x < bytes.len() ==> #[trigger] bytes[x]
            == 0
}

/// The tensors of an assembly lie one behind the other.
proof fn assembly_is_dense(tensors: Map<Seq<char>, Placement>, capacity: nat, n: nat)
    requires
        assembled(tensors, empty_arena(capacity), n) is Ok,
    ensures
        ({
            let (arena, places) = assembled(tensors, empty_arena(capacity), n)->Ok_0;
            &&& places.len() == n
            &&& n == 0 ==> arena.bytes.len() == 0
            &&& n > 0 ==> places[0].offset == 0 && arena.bytes.len() == places[n - 1].offset
                + places[n - 1].len
            &&& forall|i: int|
                0 < i < n ==> follows(arena.bytes, places[i - 1], #[trigger] places[i])
                    && places[i].offset + places[i].len <= arena.bytes.len()
        }),
    decreases n,
{
    if n > 0 {
        let m = (n - 1) as nat;
        assembly_is_dense(tensors, capacity, m);
        let (before, earlier) = assembled(tensors, empty_arena(capacity), m)->Ok_0;
        let (arena, places) = assembled(tensors, empty_arena(capacity), n)->Ok_0;
        let last = tensors[slot_key(m)];
        tensors_are_placed_behind_the_last_one(before, last);
        assert forall|i: int| 0 < i < n implies follows(
            arena.bytes,
            places[i - 1],
            #[trigger] places[i],
        ) && places[i].offset + places[i].len <= arena.bytes.len() by {
            if i < m {
                assert(places[i] == earlier[i] && places[i - 1] == earlier[i - 1]);
                assert(follows(before.bytes, earlier[i - 1], earlier[i]));
            } else {
                assert(places[i - 1] == earlier[i - 1]);
            }
        }
    }
}

/// The tensors of a sealed model lie one behind the other, layer after layer and part after part:
/// the first one at the start, each other one at the next multiple of 64 with zeros before it,
/// and nothing behind the last one.
pub proof fn sealed_tensors_lie_one_behind_the_other(
    cfg: GlmConfig,
    outcomes: Seq<Result<Seq<Placement>, EvokeFault>>,
    capacity: nat,
    n: int,
)
    requires
        ingestion(cfg, outcomes, capacity) is Ok,
        0 < n < cfg.num_layers * 9,
    ensures
        ({
            let (bytes, blocks) = ingestion(cfg, outcomes, capacity)->Ok_0;
            let last = nth_place(blocks, cfg.num_layers * 9 - 1);
            &&& nth_place(blocks, 0).offset == 0
            &&& follows(bytes, nth_place(blocks, n - 1), nth_place(blocks, n))
            &&& bytes.len() == last.offset + last.len
        }),
{
    let tensors = gathered(outcomes)->Ok_0;
    let count = cfg.num_layers as nat * SLOTS as nat;
    assembly_is_dense(tensors, capacity, count);
    let places = assembled(tensors, empty_arena(capacity), count)->Ok_0.1;
    let blocks = ingestion(cfg, outcomes, capacity)->Ok_0.1;
    assert forall|i: int| 0 <= i < count implies nth_place(blocks, i) == #[trigger] places[i] by {
        assert(blocks[i / 9].q == places[(i / 9) * 9]);
        assert(i == (i / 9) * 9 + i % 9);
    }
    assert(nth_place(blocks, 0) == places[0]);
    assert(nth_place(blocks, n) == places[n] && nth_place(blocks, n - 1) == places[n - 1]);
    assert(nth_place(blocks, count - 1) == places[count - 1]);
}

/// What a tensor of a shard contributes is among what the shard contributes.
proof fn contributions_are_in_the_shard(cfg: GlmConfig, shard: Seq<RawModel>, t: int, j: int)
    requires
        shard_mapping(cfg, shard).result is Ok,
        0 <= t < shard.len(),
    ensures
        mapping_of(cfg, shard[t]) is Ok,
        0 <= j < mapping_of(cfg, shard[t])->Ok_0.1.len() ==> exists|k: int|
            0 <= k < shard_mapping(cfg, shard).result->Ok_0.len()
                && #[trigger] shard_mapping(cfg, shard).result->Ok_0[k] == mapping_of(
                cfg,
                shard[t],
            )->Ok_0.1[j],
    decreases shard.len(),
{
    let front = shard.drop_last();
    let before = shard_mapping(cfg, front).result->Ok_0;
    let all = shard_mapping(cfg, shard).result->Ok_0;
    if t < front.len() {
        contributions_are_in_the_shard(cfg, front, t, j);
        if 0 <= j < mapping_of(cfg, shard[t])->Ok_0.1.len() {
            let k = choose|k: int|
                0 <= k < before.len() && #[trigger] before[k] == mapping_of(
                    cfg,
                    front[t],
                )->Ok_0.1[j];
            assert(all[k] == before[k]);
        }
    } else {
        assert(shard[t] == shard.last());
        if 0 <= j < mapping_of(cfg, shard[t])->Ok_0.1.len() {
            assert(all[before.len() + j] == mapping_of(cfg, shard[t])->Ok_0.1[j]);
        }
    }
}

/// What a tensor of a file contributes is gathered under its key.
proof fn contributions_are_gathered(
    cfg: GlmConfig,
    files: Seq<Seq<RawModel>>,
    f: int,
    t: int,
    j: int,
)
    requires
        gathered(mapped_files(cfg, files)) is Ok,
        0 <= f < files.len(),
        0 <= t < files[f].len(),
    ensures
        mapping_of(cfg, files[f][t]) is Ok,
        0 <= j < mapping_of(cfg, files[f][t])->Ok_0.1.len() ==> ({
            let tensor = mapping_of(cfg, files[f][t])->Ok_0.1[j];
            let tensors = gathered(mapped_files(cfg, files))->Ok_0;
            tensors.contains_key(tensor.key) && tensors[tensor.key] == tensor
        }),
{
    let outcomes = mapped_files(cfg, files);
    gathering_keeps_every_tensor(outcomes);
    assert(outcomes[f] is Ok);
    contributions_are_in_the_shard(cfg, files[f], t, j);
    if 0 <= j < mapping_of(cfg, files[f][t])->Ok_0.1.len() {
        let mapped = shard_mapping(cfg, files[f]).result->Ok_0;
        let tensor = mapping_of(cfg, files[f][t])->Ok_0.1[j];
        let k = choose|k: int| 0 <= k < mapped.len() && #[trigger] mapped[k] == tensor;
        assert(names_tensor(outcomes, f, k));
        assert(tensor_at(outcomes, f, k) == tensor);
        assert(is_supplied(outcomes, tensor.key));
    }
}

/// The bytes of a region at a place.
pub open spec fn bytes_at(bytes: Seq<u8>, place: TensorSpan) -> Seq<u8> {
    bytes.subrange(place.offset as int, (place.offset + place.len) as int)
}

/// What a file holds is what the sealed layers read back. A tensor that is not fused reads back
/// under the place of its role in its layer, byte for byte and with its shape; the pieces of a
/// fused one, read back one after the other, are the bytes of the file.
pub proof fn sealed_layers_read_back_the_files(
    cfg: GlmConfig,
    files: Seq<Seq<RawModel>>,
    capacity: nat,
    f: int,
    t: int,
    elem: nat,
)
    requires
        cfg.dims_fit(),
        ingestion(cfg, mapped_files(cfg, files), capacity) is Ok,
        0 <= f < files.len(),
        0 <= t < files[f].len(),
    ensures
        ({
            let raw = files[f][t];
            let (bytes, blocks) = ingestion(cfg, mapped_files(cfg, files), capacity)->Ok_0;
            &&& canonical_key(raw.name) matches Some((layer, role))
            &&& layer < blocks.len()
            &&& {
                let block = blocks[layer as int];
                let fused = raw.shape.len() == 2 && raw.shape[0] as nat * raw.shape[1] as nat != 0
                    && fits_whole_times(
                    raw.data.len(),
                    raw.shape[0] as nat * raw.shape[1] as nat,
                    elem,
                );
                &&& role == "attn.o_proj"@ ==> bytes_at(bytes, block.o_proj) == raw.data
                    && block.o_proj.shape == raw.shape
                &&& role == "mlp.down"@ ==> bytes_at(bytes, block.mlp_down) == raw.data
                    && block.mlp_down.shape == raw.shape
                &&& role == "input_norm"@ ==> bytes_at(bytes, block.input_norm) == raw.data
                    && block.input_norm.shape == raw.shape
                &&& role == "post_norm"@ ==> bytes_at(bytes, block.post_norm) == raw.data
                    && block.post_norm.shape == raw.shape
                &&& role == "attn.qkv"@ && fused ==> {
                    &&& bytes_at(bytes, block.q) + bytes_at(bytes, block.k) + bytes_at(
                        bytes,
                        block.v,
                    ) == raw.data
                    &&& block.q.len == cfg.hidden_size as nat * (cfg.hidden_size as nat * elem)
                    &&& block.k.len == cfg.spec_kv_dim() * (cfg.hidden_size as nat * elem)
                }
                &&& role == "mlp.gate_up"@ && fused ==> {
                    &&& bytes_at(bytes, block.mlp_gate) + bytes_at(bytes, block.mlp_up) == raw.data
                    &&& block.mlp_gate.len == cfg.intermediate_size as nat * (cfg.hidden_size as nat
                        * elem)
                }
            }
        }),
{
    let raw = files[f][t];
    let outcomes = mapped_files(cfg, files);
    contributions_are_gathered(cfg, files, f, t, 0);
    contributions_are_gathered(cfg, files, f, t, 1);
    contributions_are_gathered(cfg, files, f, t, 2);
    let (layer, role) = canonical_key(raw.name).unwrap();
    layers_name_the_places_of_their_parts(cfg, outcomes, capacity, layer as int);
    roles_are_distinct();
    if role == "attn.qkv"@ {
        if raw.shape.len() == 2 && raw.shape[0] as nat * raw.shape[1] as nat != 0
            && fits_whole_times(
            raw.data.len(),
            raw.shape[0] as nat * raw.shape[1] as nat,
            elem,
        ) {
            attention_matrix_is_kept(cfg, raw, layer, elem);
        }
    } else if role == "mlp.gate_up"@ {
        if raw.shape.len() == 2 && raw.shape[0] as nat * raw.shape[1] as nat != 0
            && fits_whole_times(
            raw.data.len(),
            raw.shape[0] as nat * raw.shape[1] as nat,
            elem,
        ) {
            network_matrix_is_kept(cfg, raw, layer, elem);
        }
    } else {
        whole_tensors_are_kept(cfg, raw, layer, role);
    }
}

} // verus!
