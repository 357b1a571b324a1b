//! What holds of a checkpoint from end to end.

use vstd::prelude::*;

use crate::config::GlmConfig;
use crate::error::EvokeFault;
use crate::graph::BlockSpans;
use crate::ingest::assembled;
use crate::ingest::block_at;
use crate::ingest::empty_arena;
use crate::ingest::gathered;
use crate::ingest::gathered_with;
use crate::ingest::ingestion;
use crate::ingest::slot_key;
use crate::keys::canonical_key;
use crate::keys::layer_key;
use crate::keys::layer_keys_are_unique;
use crate::keys::slot_part;
use crate::keys::slot_parts_are_unique;
use crate::keys::SLOTS;
use crate::shard::RawModel;
use crate::transform::map_record;
use crate::transform::mapping_of;
use crate::transform::shard_mapping;
use crate::worm::align_up;
use crate::worm::read_span;
use crate::worm::Arena;
use crate::worm::MemoryState;
use crate::worm::Placement;
use crate::worm::TensorSpan;

verus! {

/// The places of a block by slot.
pub open spec fn block_span(block: BlockSpans, slot: int) -> TensorSpan {
    if slot == 0 {
        block.q
    } else if slot == 1 {
        block.k
    } else if slot == 2 {
        block.v
    } else if slot == 3 {
        block.o_proj
    } else if slot == 4 {
        block.mlp_gate
    } else if slot == 5 {
        block.mlp_up
    } else if slot == 6 {
        block.mlp_down
    } else if slot == 7 {
        block.input_norm
    } else {
        block.post_norm
    }
}

/// Whether `span` is a place in `bytes` that holds `tensor`: its bytes, shape and element type,
/// at a multiple of 64.
pub open spec fn holds_tensor(bytes: Seq<u8>, span: TensorSpan, tensor: Placement) -> bool {
    &&& span.offset + span.len <= bytes.len()
    &&& span.offset % 64 == 0
    &&& span.shape == tensor.shape
    &&& span.dtype == tensor.dtype
    &&& read_span(bytes, span) == tensor.data
}

/// Whether the `i`-th tensor of a model is among `tensors` and lies in `bytes` at its place.
pub open spec fn slot_is_held(
    tensors: Map<Seq<char>, Placement>,
    bytes: Seq<u8>,
    spans: Seq<TensorSpan>,
    i: int,
) -> bool {
    &&& tensors.contains_key(slot_key(i as nat))
    &&& holds_tensor(bytes, spans[i], tensors[slot_key(i as nat)])
}

/// After the assembly every tensor can be read back from its place, and no two places share a
/// byte.
pub proof fn assembled_tensors_read_back(
    tensors: Map<Seq<char>, Placement>,
    arena: Arena,
    n: nat,
)
    requires
        assembled(tensors, arena, n) is Ok,
    ensures
        ({
            let (end, spans) = assembled(tensors, arena, n)->Ok_0;
            &&& spans.len() == n
            &&& forall|i: int| 0 <= i < n ==> #[trigger] slot_is_held(tensors, end.bytes, spans, i)
            &&& forall|i: int, j: int|
                0 <= i < j < n ==> (#[trigger] spans[i]).offset + spans[i].len <= (
                #[trigger] spans[j]).offset
        }),
    decreases n,
{
    if n > 0 {
        let m = (n - 1) as nat;
        assembled_tensors_read_back(tensors, arena, m);
        let (before, earlier) = assembled(tensors, arena, m)->Ok_0;
        let (end, spans) = assembled(tensors, arena, n)->Ok_0;
        let last = tensors[slot_key(m)];
        assert(before.bytes.is_prefix_of(end.bytes));
        assert forall|i: int| 0 <= i < n implies #[trigger] slot_is_held(
            tensors,
            end.bytes,
            spans,
            i,
        ) by {
            if i < m {
                assert(slot_is_held(tensors, before.bytes, earlier, i));
                assert(spans[i] == earlier[i]);
                assert(read_span(end.bytes, spans[i]) =~= read_span(before.bytes, earlier[i]));
            } else {
                assert(read_span(end.bytes, spans[i]) =~= last.data);
            }
        }
        assert forall|i: int, j: int| 0 <= i < j < n implies (#[trigger] spans[i]).offset
            + spans[i].len <= (#[trigger] spans[j]).offset by {
            assert(spans[i] == earlier[i]);
            if j < m {
                assert(spans[j] == earlier[j]);
            } else {
                assert(slot_is_held(tensors, before.bytes, earlier, i));
            }
        }
    }
}

/// What a checkpoint holds is what can be read back: after a successful ingestion every tensor
/// of every layer lies unchanged in the sealed bytes, under the place that its block names.
pub proof fn sealed_layers_hold_the_checkpoint(
    cfg: GlmConfig,
    outcomes: Seq<Result<Seq<Placement>, EvokeFault>>,
    capacity: nat,
    layer: int,
    slot: int,
)
    requires
        ingestion(cfg, outcomes, capacity) is Ok,
        0 <= layer < cfg.num_layers,
        0 <= slot < SLOTS,
    ensures
        ({
            let (bytes, blocks) = ingestion(cfg, outcomes, capacity)->Ok_0;
            let tensors = gathered(outcomes)->Ok_0;
            let key = layer_key(layer as nat, slot_part(slot));
            &&& blocks.len() == cfg.num_layers
            &&& blocks[layer].layer_idx == layer
            &&& gathered(outcomes) is Ok
            &&& tensors.contains_key(key)
            &&& holds_tensor(bytes, block_span(blocks[layer], slot), tensors[key])
            &&& bytes.len() <= capacity
        }),
{
    let tensors = gathered(outcomes)->Ok_0;
    let n = cfg.num_layers as nat * SLOTS as nat;
    let arena = empty_arena(capacity);
    assembled_tensors_read_back(tensors, arena, n);
    assembly_stays_bounded(tensors, arena, n);
    let (end, spans) = assembled(tensors, arena, n)->Ok_0;
    let i = layer * SLOTS + slot;
    assert(0 <= i < n) by (nonlinear_arith)
        requires
            0 <= layer < cfg.num_layers,
            0 <= slot < SLOTS,
            SLOTS == 9,
            n == cfg.num_layers * SLOTS,
            i == layer * SLOTS + slot,
    ;
    assert((i as nat) / (SLOTS as nat) == layer && (i as nat) % (SLOTS as nat) == slot);
    assert(slot_key(i as nat) == layer_key(layer as nat, slot_part(slot)));
    assert(slot_is_held(tensors, end.bytes, spans, i));
    assert(block_span(block_at(spans, layer), slot) == spans[i]);
}

/// The assembly never outgrows the arena.
proof fn assembly_stays_bounded(tensors: Map<Seq<char>, Placement>, arena: Arena, n: nat)
    requires
        arena.bounded(),
        assembled(tensors, arena, n) is Ok,
    ensures
        assembled(tensors, arena, n)->Ok_0.0.bounded(),
        assembled(tensors, arena, n)->Ok_0.0.capacity == arena.capacity,
    decreases n,
{
    if n > 0 {
        assembly_stays_bounded(tensors, arena, (n - 1) as nat);
    }
}

/// A larger arena takes whatever a smaller one takes, and puts it at the same place.
proof fn assembly_needs_no_more_room(
    tensors: Map<Seq<char>, Placement>,
    small: nat,
    large: nat,
    n: nat,
)
    requires
        small <= large,
        assembled(tensors, empty_arena(small), n) is Ok,
    ensures
        assembled(tensors, empty_arena(large), n) is Ok,
        assembled(tensors, empty_arena(large), n)->Ok_0 == (
            Arena { capacity: large, ..assembled(tensors, empty_arena(small), n)->Ok_0.0 },
            assembled(tensors, empty_arena(small), n)->Ok_0.1,
        ),
    decreases n,
{
    if n > 0 {
        assembly_needs_no_more_room(tensors, small, large, (n - 1) as nat);
        assembly_stays_bounded(tensors, empty_arena(small), (n - 1) as nat);
    }
}

/// Room to spare does not matter: a checkpoint that fits an arena becomes the same sealed bytes and
/// the same layers in every larger one.
pub proof fn extra_capacity_changes_nothing(
    cfg: GlmConfig,
    outcomes: Seq<Result<Seq<Placement>, EvokeFault>>,
    small: nat,
    large: nat,
)
    requires
        small <= large,
        ingestion(cfg, outcomes, small) is Ok,
    ensures
        ingestion(cfg, outcomes, large) == ingestion(cfg, outcomes, small),
{
    assembly_needs_no_more_room(
        gathered(outcomes)->Ok_0,
        small,
        large,
        cfg.num_layers as nat * SLOTS as nat,
    );
}

/// Whether the tensor at position `j` of shard `i` exists.
pub open spec fn names_tensor(
    outcomes: Seq<Result<Seq<Placement>, EvokeFault>>,
    i: int,
    j: int,
) -> bool {
    0 <= i < outcomes.len() && outcomes[i] is Ok && 0 <= j < outcomes[i]->Ok_0.len()
}

/// The tensor at position `j` of shard `i`.
pub open spec fn tensor_at(
    outcomes: Seq<Result<Seq<Placement>, EvokeFault>>,
    i: int,
    j: int,
) -> Placement {
    outcomes[i]->Ok_0[j]
}

/// Whether no shard failed and no key occurs twice.
pub open spec fn is_consistent(outcomes: Seq<Result<Seq<Placement>, EvokeFault>>) -> bool {
    &&& forall|i: int| 0 <= i < outcomes.len() ==> (#[trigger] outcomes[i]) is Ok
    &&& forall|i1: int, j1: int, i2: int, j2: int|
        #![trigger names_tensor(outcomes, i1, j1), names_tensor(outcomes, i2, j2)]
        names_tensor(outcomes, i1, j1) && names_tensor(outcomes, i2, j2) && tensor_at(
            outcomes,
            i1,
            j1,
        ).key == tensor_at(outcomes, i2, j2).key ==> i1 == i2 && j1 == j2
}

/// Whether one of `tensors` has the key `key`.
pub open spec fn has_key(tensors: Seq<Placement>, key: Seq<char>) -> bool {
    exists|j: int| 0 <= j < tensors.len() && (#[trigger] tensors[j]).key == key
}

/// Whether the tensors of one shard can be added: no key is known, none occurs twice.
pub open spec fn is_addable(known: Map<Seq<char>, Placement>, tensors: Seq<Placement>) -> bool {
    &&& forall|j: int|
        0 <= j < tensors.len() ==> !known.contains_key((#[trigger] tensors[j]).key)
    &&& forall|j1: int, j2: int|
        0 <= j1 < j2 < tensors.len() ==> (#[trigger] tensors[j1]).key != (
        #[trigger] tensors[j2]).key
}

/// What adding the tensors of one shard leads to.
pub proof fn gathering_a_shard(known: Map<Seq<char>, Placement>, tensors: Seq<Placement>)
    ensures
        gathered_with(known, tensors) is Ok <==> is_addable(known, tensors),
        gathered_with(known, tensors) matches Ok(all) ==> {
            &&& forall|key: Seq<char>| #[trigger]
                all.contains_key(key) <==> known.contains_key(key) || has_key(tensors, key)
            &&& forall|key: Seq<char>| #[trigger]
                known.contains_key(key) ==> all[key] == known[key]
            &&& forall|j: int|
                0 <= j < tensors.len() ==> all[(#[trigger] tensors[j]).key] == tensors[j]
        },
    decreases tensors.len(),
{
    if tensors.len() > 0 {
        let front = tensors.drop_last();
        let last = tensors.last();
        let n = front.len() as int;
        gathering_a_shard(known, front);
        assert(forall|j: int| 0 <= j < n ==> #[trigger] front[j] == tensors[j]);
        assert(forall|j: int| 0 <= j < n ==> front[j] == #[trigger] tensors[j]);
        assert(last == tensors[n]);
        assert(is_addable(known, tensors) <==> {
            &&& is_addable(known, front)
            &&& !known.contains_key(last.key)
            &&& !has_key(front, last.key)
        }) by {
            if is_addable(known, tensors) {
                if has_key(front, last.key) {
                    let j = choose|j: int|
                        0 <= j < front.len() && (#[trigger] front[j]).key == last.key;
                    assert(tensors[j].key == tensors[n].key);
                }
            }
        }
        assert forall|key: Seq<char>| #[trigger] has_key(tensors, key) <==> has_key(front, key)
            || key == last.key by {
            if has_key(front, key) {
                let j = choose|j: int| 0 <= j < front.len() && (#[trigger] front[j]).key == key;
                assert(tensors[j].key == key);
            }
            if key == last.key {
                assert(tensors[n].key == key);
            }
        }
        if gathered_with(known, tensors) is Ok {
            let before = gathered_with(known, front)->Ok_0;
            let all = gathered_with(known, tensors)->Ok_0;
            assert forall|j: int| 0 <= j < tensors.len() implies all[(
            #[trigger] tensors[j]).key] == tensors[j] by {
                if j < n {
                    assert(has_key(front, front[j].key));
                    assert(before.contains_key(front[j].key));
                }
            }
        }
    }
}

/// Whether some shard holds a tensor with the key `key`.
pub open spec fn is_supplied(
    outcomes: Seq<Result<Seq<Placement>, EvokeFault>>,
    key: Seq<char>,
) -> bool {
    exists|i: int, j: int| #[trigger]
        names_tensor(outcomes, i, j) && tensor_at(outcomes, i, j).key == key
}

/// The gathering succeeds exactly when no shard failed and no key occurs twice, and then holds
/// exactly the tensors of the shards, each under its own key.
pub proof fn gathering_keeps_every_tensor(outcomes: Seq<Result<Seq<Placement>, EvokeFault>>)
    ensures
        gathered(outcomes) is Ok <==> is_consistent(outcomes),
        gathered(outcomes) matches Ok(all) ==> {
            &&& forall|key: Seq<char>| #[trigger]
                all.contains_key(key) <==> is_supplied(outcomes, key)
            &&& forall|i: int, j: int| #[trigger]
                names_tensor(outcomes, i, j) ==> all[tensor_at(outcomes, i, j).key] == tensor_at(
                    outcomes,
                    i,
                    j,
                )
        },
    decreases outcomes.len(),
{
    if outcomes.len() == 0 {
        assert(gathered(outcomes) == Ok::<_, EvokeFault>(Map::<Seq<char>, Placement>::empty()));
        assert forall|key: Seq<char>| !is_supplied(outcomes, key) by {}
    } else {
        let front = outcomes.drop_last();
        let n = front.len() as int;
        gathering_keeps_every_tensor(front);
        assert(forall|i: int| 0 <= i < n ==> #[trigger] front[i] == outcomes[i]);
        assert(forall|i: int| 0 <= i < n ==> front[i] == #[trigger] outcomes[i]);
        assert(outcomes.last() == outcomes[n]);
        assert forall|i: int, j: int| #[trigger] names_tensor(outcomes, i, j) && i < n implies
            names_tensor(front, i, j) && tensor_at(front, i, j) == tensor_at(outcomes, i, j) by {}
        assert forall|i: int, j: int| #[trigger] names_tensor(front, i, j) implies
            names_tensor(outcomes, i, j) && tensor_at(front, i, j) == tensor_at(outcomes, i, j) by {}
        if gathered(front) is Ok && outcomes[n] is Ok {
            let known = gathered(front)->Ok_0;
            let tensors = outcomes[n]->Ok_0;
            gathering_a_shard(known, tensors);
            assert(is_consistent(outcomes) <==> is_addable(known, tensors)) by {
                last_shard_decides(outcomes, known);
            }
            if gathered(outcomes) is Ok {
                let all = gathered(outcomes)->Ok_0;
                assert forall|key: Seq<char>| #[trigger] is_supplied(outcomes, key) <==> (
                is_supplied(front, key) || has_key(tensors, key)) by {
                    if is_supplied(front, key) {
                        let (i, j) = choose|i: int, j: int| #[trigger]
                            names_tensor(front, i, j) && tensor_at(front, i, j).key == key;
                        assert(names_tensor(outcomes, i, j));
                    }
                    if has_key(tensors, key) {
                        let j = choose|j: int|
                            0 <= j < tensors.len() && (#[trigger] tensors[j]).key == key;
                        assert(names_tensor(outcomes, n, j));
                    }
                    if is_supplied(outcomes, key) {
                        let (i, j) = choose|i: int, j: int| #[trigger]
                            names_tensor(outcomes, i, j) && tensor_at(outcomes, i, j).key == key;
                        if i < n {
                            assert(names_tensor(front, i, j));
                        } else {
                            assert(tensors[j].key == key);
                        }
                    }
                }
                assert forall|i: int, j: int| #[trigger] names_tensor(outcomes, i, j) implies all[
                tensor_at(outcomes, i, j).key] == tensor_at(outcomes, i, j) by {
                    if i < n {
                        assert(names_tensor(front, i, j));
                        assert(is_supplied(front, tensor_at(front, i, j).key));
                        assert(known.contains_key(tensor_at(front, i, j).key));
                    } else {
                        assert(tensors[j] == tensor_at(outcomes, i, j));
                    }
                }
            }
        } else if gathered(front) is Err {
            assert(!is_consistent(outcomes)) by {
                if is_consistent(outcomes) {
                    assert(is_consistent(front));
                }
            }
        }
    }
}

/// Once the shards before the last one agree, whether all agree is decided by the last one.
proof fn last_shard_decides(
    outcomes: Seq<Result<Seq<Placement>, EvokeFault>>,
    known: Map<Seq<char>, Placement>,
)
    requires
        outcomes.len() > 0,
        outcomes.last() is Ok,
        is_consistent(outcomes.drop_last()),
        forall|key: Seq<char>| #[trigger]
            known.contains_key(key) <==> is_supplied(outcomes.drop_last(), key),
    ensures
        is_consistent(outcomes) <==> is_addable(known, outcomes.last()->Ok_0),
{
    let front = outcomes.drop_last();
    let n = front.len() as int;
    let tensors = outcomes.last()->Ok_0;
    assert(forall|i: int| 0 <= i < n ==> #[trigger] front[i] == outcomes[i]);
    if is_consistent(outcomes) {
        assert forall|j: int| 0 <= j < tensors.len() implies !known.contains_key(
            (#[trigger] tensors[j]).key,
        ) by {
            assert(names_tensor(outcomes, n, j));
            if is_supplied(front, tensors[j].key) {
                let (i, k) = choose|i: int, k: int| #[trigger]
                    names_tensor(front, i, k) && tensor_at(front, i, k).key == tensors[j].key;
                assert(names_tensor(outcomes, i, k));
            }
        }
        assert forall|j1: int, j2: int| 0 <= j1 < j2 < tensors.len() implies (
        #[trigger] tensors[j1]).key != (#[trigger] tensors[j2]).key by {
            assert(names_tensor(outcomes, n, j1));
            assert(names_tensor(outcomes, n, j2));
        }
    }
    if is_addable(known, tensors) {
        assert forall|i: int| 0 <= i < outcomes.len() implies (#[trigger] outcomes[i]) is Ok by {
            if i < n {
                assert(front[i] is Ok);
            }
        }
        assert forall|i1: int, j1: int, i2: int, j2: int|
            #![trigger names_tensor(outcomes, i1, j1), names_tensor(outcomes, i2, j2)]
            names_tensor(outcomes, i1, j1) && names_tensor(outcomes, i2, j2) && tensor_at(
                outcomes,
                i1,
                j1,
            ).key == tensor_at(outcomes, i2, j2).key implies i1 == i2 && j1 == j2 by {
            if i1 < n {
                assert(names_tensor(front, i1, j1));
                assert(is_supplied(front, tensor_at(front, i1, j1).key));
            } else {
                assert(tensors[j1] == tensor_at(outcomes, i1, j1));
            }
            if i2 < n {
                assert(names_tensor(front, i2, j2));
                assert(is_supplied(front, tensor_at(front, i2, j2).key));
            } else {
                assert(tensors[j2] == tensor_at(outcomes, i2, j2));
            }
        }
    }
}

/// Whether `places` puts the items of `from` in the order of `to`.
pub open spec fn reorders(
    places: Seq<int>,
    from: Seq<Result<Seq<Placement>, EvokeFault>>,
    to: Seq<Result<Seq<Placement>, EvokeFault>>,
) -> bool {
    &&& places.len() == to.len()
    &&& from.len() == to.len()
    &&& forall|i: int|
        0 <= i < places.len() ==> 0 <= #[trigger] places[i] < from.len() && to[i]
            == from[places[i]]
    &&& forall|i: int, j: int|
        0 <= i < j < places.len() ==> #[trigger] places[i] != #[trigger] places[j]
    &&& forall|k: int| 0 <= k < from.len() ==> #[trigger] places.contains(k)
}

/// The order in which the shards arrive does not matter to a sound checkpoint: if the tensors can
/// be gathered in one order, they are gathered in every order, with the same result.
pub proof fn arrival_order_is_irrelevant(
    from: Seq<Result<Seq<Placement>, EvokeFault>>,
    to: Seq<Result<Seq<Placement>, EvokeFault>>,
    places: Seq<int>,
)
    requires
        gathered(from) is Ok,
        reorders(places, from, to),
    ensures
        gathered(to) == gathered(from),
{
    gathering_keeps_every_tensor(from);
    gathering_keeps_every_tensor(to);
    assert forall|i: int, j: int| #[trigger] names_tensor(to, i, j) implies names_tensor(
        from,
        places[i],
        j,
    ) && tensor_at(to, i, j) == tensor_at(from, places[i], j) by {}
    assert(is_consistent(to)) by {
        assert forall|i: int| 0 <= i < to.len() implies (#[trigger] to[i]) is Ok by {
            assert(to[i] == from[places[i]]);
        }
    }
    let all = gathered(from)->Ok_0;
    let again = gathered(to)->Ok_0;
    assert forall|key: Seq<char>| #[trigger] all.contains_key(key) <==> again.contains_key(
        key,
    ) by {
        if is_supplied(from, key) {
            let (k, j) = choose|k: int, j: int| #[trigger]
                names_tensor(from, k, j) && tensor_at(from, k, j).key == key;
            assert(places.contains(k));
            let i = choose|i: int| 0 <= i < places.len() && places[i] == k;
            assert(names_tensor(to, i, j));
        }
        if is_supplied(to, key) {
            let (i, j) = choose|i: int, j: int| #[trigger]
                names_tensor(to, i, j) && tensor_at(to, i, j).key == key;
            assert(names_tensor(from, places[i], j));
        }
    }
    assert forall|key: Seq<char>| #[trigger] all.contains_key(key) implies again[key]
        == all[key] by {
        assert(again.contains_key(key));
        let (i, j) = choose|i: int, j: int| #[trigger]
            names_tensor(to, i, j) && tensor_at(to, i, j).key == key;
        assert(names_tensor(from, places[i], j));
    }
    assert(again =~= all);
}

/// The shape of a tensor of the model, by slot.
pub open spec fn slot_shape(cfg: GlmConfig, slot: int) -> Seq<usize> {
    let hidden = cfg.hidden_size;
    let kv = cfg.spec_kv_dim() as usize;
    if slot == 0 || slot == 3 {
        seq![hidden, hidden]
    } else if slot == 1 || slot == 2 {
        seq![kv, hidden]
    } else if slot == 4 || slot == 5 {
        seq![cfg.intermediate_size, hidden]
    } else if slot == 6 {
        seq![hidden, cfg.intermediate_size]
    } else {
        seq![hidden]
    }
}

/// Whether `tensor` has the key and the shape of the given slot of the given layer.
pub open spec fn fills_slot(cfg: GlmConfig, tensor: Placement, layer: nat, slot: int) -> bool {
    &&& layer < cfg.num_layers
    &&& 0 <= slot < SLOTS
    &&& tensor.key == layer_key(layer, slot_part(slot))
    &&& tensor.shape == slot_shape(cfg, slot)
}

/// Whether `tensor` has the key and the shape of some slot of the model.
pub open spec fn belongs_to_model(cfg: GlmConfig, tensor: Placement) -> bool {
    exists|layer: nat, slot: int| #[trigger] fills_slot(cfg, tensor, layer, slot)
}

/// Whatever a tensor of a shard contributes belongs to the model.
pub proof fn mapped_tensors_belong_to_model(cfg: GlmConfig, raw: RawModel)
    requires
        cfg.dims_fit(),
    ensures
        mapping_of(cfg, raw) matches Ok((layer, tensors)) ==> layer < cfg.num_layers && forall|
            i: int,
        |
            0 <= i < tensors.len() ==> belongs_to_model(cfg, #[trigger] tensors[i]),
{
    if mapping_of(cfg, raw) is Ok {
        let (layer, tensors) = mapping_of(cfg, raw)->Ok_0;
        let (_, role) = canonical_key(raw.name).unwrap();
        part_names_join();
        roles_are_distinct();
        if role == "attn.qkv"@ {
            assert(fills_slot(cfg, tensors[0], layer as nat, 0));
            assert(fills_slot(cfg, tensors[1], layer as nat, 1));
            assert(fills_slot(cfg, tensors[2], layer as nat, 2));
        } else if role == "mlp.gate_up"@ {
            assert(fills_slot(cfg, tensors[0], layer as nat, 4));
            assert(fills_slot(cfg, tensors[1], layer as nat, 5));
        } else if role == "attn.o_proj"@ {
            assert(fills_slot(cfg, tensors[0], layer as nat, 3));
        } else if role == "mlp.down"@ {
            assert(fills_slot(cfg, tensors[0], layer as nat, 6));
        } else if role == "input_norm"@ {
            assert(fills_slot(cfg, tensors[0], layer as nat, 7));
        } else {
            assert(fills_slot(cfg, tensors[0], layer as nat, 8));
        }
    }
}

/// The names of the pieces of the fused matrices, put together.
pub proof fn part_names_join()
    ensures
        "attn."@ + "q"@ == "attn.q"@,
        "attn."@ + "k"@ == "attn.k"@,
        "attn."@ + "v"@ == "attn.v"@,
        "mlp."@ + "gate"@ == "mlp.gate"@,
        "mlp."@ + "up"@ == "mlp.up"@,
{
    reveal_strlit("attn.");
    reveal_strlit("mlp.");
    reveal_strlit("q");
    reveal_strlit("k");
    reveal_strlit("v");
    reveal_strlit("gate");
    reveal_strlit("up");
    reveal_strlit("attn.q");
    reveal_strlit("attn.k");
    reveal_strlit("attn.v");
    reveal_strlit("mlp.gate");
    reveal_strlit("mlp.up");
    assert("attn."@ + "q"@ =~= "attn.q"@);
    assert("attn."@ + "k"@ =~= "attn.k"@);
    assert("attn."@ + "v"@ =~= "attn.v"@);
    assert("mlp."@ + "gate"@ =~= "mlp.gate"@);
    assert("mlp."@ + "up"@ =~= "mlp.up"@);
}

/// No role has the name of another.
pub proof fn roles_are_distinct()
    ensures
        "attn.qkv"@ != "attn.o_proj"@,
        "attn.qkv"@ != "mlp.gate_up"@,
        "attn.o_proj"@ != "mlp.gate_up"@,
        "mlp.down"@ != "attn.qkv"@,
        "mlp.down"@ != "attn.o_proj"@,
        "mlp.down"@ != "mlp.gate_up"@,
        "input_norm"@ != "attn.qkv"@,
        "input_norm"@ != "attn.o_proj"@,
        "input_norm"@ != "mlp.gate_up"@,
        "input_norm"@ != "mlp.down"@,
        "post_norm"@ != "attn.qkv"@,
        "post_norm"@ != "attn.o_proj"@,
        "post_norm"@ != "mlp.gate_up"@,
        "post_norm"@ != "mlp.down"@,
{
    reveal_strlit("attn.qkv");
    reveal_strlit("attn.o_proj");
    reveal_strlit("mlp.gate_up");
    reveal_strlit("mlp.down");
    reveal_strlit("input_norm");
    reveal_strlit("post_norm");
    assert("attn.qkv"@.len() == 8 && "attn.o_proj"@.len() == 11 && "mlp.gate_up"@.len() == 11
        && "mlp.down"@.len() == 8 && "input_norm"@.len() == 10 && "post_norm"@.len() == 9);
    assert("attn.qkv"@[0] == 'a' && "mlp.down"@[0] == 'm' && "attn.o_proj"@[0] == 'a'
        && "mlp.gate_up"@[0] == 'm');
}

/// Whatever a shard contributes belongs to the model.
pub proof fn mapped_shards_belong_to_model(cfg: GlmConfig, shard: Seq<RawModel>)
    requires
        cfg.dims_fit(),
    ensures
        shard_mapping(cfg, shard).result matches Ok(tensors) ==> forall|i: int|
            0 <= i < tensors.len() ==> belongs_to_model(cfg, #[trigger] tensors[i]),
    decreases shard.len(),
{
    if shard.len() > 0 {
        mapped_shards_belong_to_model(cfg, shard.drop_last());
        mapped_tensors_belong_to_model(cfg, shard.last());
    }
}

/// Every tensor of a sealed model has the shape that the configuration asks for.
pub proof fn sealed_layers_have_the_models_shapes(
    cfg: GlmConfig,
    shards: Seq<Seq<RawModel>>,
    capacity: nat,
    layer: int,
    slot: int,
)
    requires
        cfg.dims_fit(),
        ingestion(
            cfg,
            shards.map_values(|shard: Seq<RawModel>| shard_mapping(cfg, shard).result),
            capacity,
        ) is Ok,
        0 <= layer < cfg.num_layers,
        0 <= slot < SLOTS,
    ensures
        ({
            let outcomes = shards.map_values(
                |shard: Seq<RawModel>| shard_mapping(cfg, shard).result,
            );
            let (bytes, blocks) = ingestion(cfg, outcomes, capacity)->Ok_0;
            block_span(blocks[layer], slot).shape == slot_shape(cfg, slot)
        }),
{
    let outcomes = shards.map_values(|shard: Seq<RawModel>| shard_mapping(cfg, shard).result);
    sealed_layers_hold_the_checkpoint(cfg, outcomes, capacity, layer, slot);
    gathering_keeps_every_tensor(outcomes);
    let key = layer_key(layer as nat, slot_part(slot));
    let tensors = gathered(outcomes)->Ok_0;
    assert(tensors.contains_key(key));
    assert(is_supplied(outcomes, key));
    let (i, j) = choose|i: int, j: int| #[trigger]
        names_tensor(outcomes, i, j) && tensor_at(outcomes, i, j).key == key;
    mapped_shards_belong_to_model(cfg, shards[i]);
    let tensor = tensor_at(outcomes, i, j);
    assert(belongs_to_model(cfg, tensor));
    let (layer2, slot2) = choose|layer2: nat, slot2: int| #[trigger]
        fills_slot(cfg, tensor, layer2, slot2);
    layer_keys_are_unique(layer as nat, slot_part(slot), layer2, slot_part(slot2));
    slot_parts_are_unique(slot, slot2);
}

/// Every mapped tensor is on record: the records name, in order, exactly the tensors that were
/// mapped before the first error, or all of them if there was none.
pub proof fn every_mapped_tensor_is_recorded(cfg: GlmConfig, shard: Seq<RawModel>)
    ensures
        ({
            let mapped = shard_mapping(cfg, shard);
            &&& mapped.result is Ok ==> mapped.records.len() == shard.len()
            &&& mapped.result is Err ==> mapped.records.len() < shard.len() && mapping_of(
                cfg,
                shard[mapped.records.len() as int],
            ) is Err
            &&& forall|i: int|
                0 <= i < mapped.records.len() ==> mapping_of(cfg, shard[i]) is Ok
                    && #[trigger] mapped.records[i] == map_record(
                    mapping_of(cfg, shard[i])->Ok_0.0,
                    shard[i].name,
                )
        }),
    decreases shard.len(),
{
    if shard.len() > 0 {
        let front = shard.drop_last();
        every_mapped_tensor_is_recorded(cfg, front);
        assert(forall|i: int| 0 <= i < front.len() ==> front[i] == #[trigger] shard[i]);
        let before = shard_mapping(cfg, front);
        let mapped = shard_mapping(cfg, shard);
        assert forall|i: int| 0 <= i < mapped.records.len() implies mapping_of(cfg, shard[i]) is Ok
            && #[trigger] mapped.records[i] == map_record(
            mapping_of(cfg, shard[i])->Ok_0.0,
            shard[i].name,
        ) by {
            if i < before.records.len() {
                assert(before.records[i] == mapped.records[i]);
            }
        }
    }
}

/// How many bytes the first `n` tensors of a model take up, with the padding between them.
pub open spec fn footprint(tensors: Map<Seq<char>, Placement>, n: nat) -> nat
    decreases n,
{
    if n == 0 {
        0
    } else {
        align_up(footprint(tensors, (n - 1) as nat)) + tensors[slot_key(
            (n - 1) as nat,
        )].data.len()
    }
}

/// The first `n` tensors can be placed exactly if they are all there and fit the arena.
pub proof fn assembly_succeeds_exactly_if_complete(
    tensors: Map<Seq<char>, Placement>,
    capacity: nat,
    n: nat,
)
    ensures
        assembled(tensors, empty_arena(capacity), n) is Ok <==> {
            &&& forall|i: nat| i < n ==> tensors.contains_key(#[trigger] slot_key(i))
            &&& footprint(tensors, n) <= capacity
        },
        assembled(tensors, empty_arena(capacity), n) matches Ok((arena, _)) ==> {
            &&& arena.bytes.len() == footprint(tensors, n)
            &&& arena.capacity == capacity
            &&& arena.state == MemoryState::Staging
        },
    decreases n,
{
    if n > 0 {
        let m = (n - 1) as nat;
        assembly_succeeds_exactly_if_complete(tensors, capacity, m);
        assert(footprint(tensors, m) <= align_up(footprint(tensors, m)));
        if assembled(tensors, empty_arena(capacity), m) is Err {
            if forall|i: nat| i < m ==> tensors.contains_key(#[trigger] slot_key(i)) {
                assert(footprint(tensors, m) > capacity);
            } else {
                let i = choose|i: nat| i < m && !tensors.contains_key(#[trigger] slot_key(i));
                assert(!tensors.contains_key(slot_key(i)));
            }
        } else if tensors.contains_key(slot_key(m)) {
            assert forall|i: nat| i < n implies tensors.contains_key(#[trigger] slot_key(i)) by {
                if i < m {
                    assert(tensors.contains_key(slot_key(i)));
                }
            }
        }
    }
}

/// An ingestion succeeds exactly if the configuration is valid, no shard failed, no key occurs
/// twice, every tensor of every layer is there, and all of them fit the arena.
pub proof fn ingestion_succeeds_exactly_if_complete(
    cfg: GlmConfig,
    outcomes: Seq<Result<Seq<Placement>, EvokeFault>>,
    capacity: nat,
)
    ensures
        ingestion(cfg, outcomes, capacity) is Ok <==> {
            let n = cfg.num_layers as nat * SLOTS as nat;
            &&& cfg.valid()
            &&& is_consistent(outcomes)
            &&& forall|i: nat| i < n ==> is_supplied(outcomes, #[trigger] slot_key(i))
            &&& footprint(gathered(outcomes)->Ok_0, n) <= capacity
        },
{
    gathering_keeps_every_tensor(outcomes);
    if gathered(outcomes) is Ok {
        let tensors = gathered(outcomes)->Ok_0;
        let n = cfg.num_layers as nat * SLOTS as nat;
        assembly_succeeds_exactly_if_complete(tensors, capacity, n);
        assert forall|i: nat| tensors.contains_key(#[trigger] slot_key(i)) <==> is_supplied(
            outcomes,
            slot_key(i),
        ) by {}
    }
}

} // verus!
