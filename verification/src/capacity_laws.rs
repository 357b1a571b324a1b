//! A complete checkpoint of two- or four-byte elements is ingested: it is mapped, and it fits.

use vstd::prelude::*;

use crate::checkpoint_laws::assembly_succeeds_exactly_if_complete;
use crate::checkpoint_laws::block_span;
use crate::checkpoint_laws::fills_slot;
use crate::checkpoint_laws::footprint;
use crate::checkpoint_laws::gathering_a_shard;
use crate::checkpoint_laws::has_key;
use crate::checkpoint_laws::holds_tensor;
use crate::checkpoint_laws::part_names_join;
use crate::checkpoint_laws::roles_are_distinct;
use crate::checkpoint_laws::sealed_layers_hold_the_checkpoint;
use crate::checkpoint_laws::slot_shape;
use crate::config::GlmConfig;
use crate::error::EvokeFault;
use crate::grouping_laws::all_map;
use crate::grouping_laws::all_tensors;
use crate::grouping_laws::contribution;
use crate::grouping_laws::contributions;
use crate::grouping_laws::files_gather_as_one;
use crate::grouping_laws::gathering_in_portions;
use crate::grouping_laws::mapped_files;
use crate::grouping_laws::same_tensors_are_ingested_alike;
use crate::ingest::gathered_with;
use crate::ingest::ingestion;
use crate::ingest::slot_key;
use crate::keys::canonical_key;
use crate::keys::layer_key;
use crate::keys::layer_keys_are_unique;
use crate::keys::slot_part;
use crate::keys::slot_parts_are_unique;
use crate::keys::SLOTS;
use crate::shard::element_count;
use crate::shard::is_well_sized;
use crate::shard::matrix_element_count;
use crate::shard::type_size;
use crate::shard::vector_element_count;
use crate::shard::RawModel;
use crate::transform::expected_shape;
use crate::transform::gate_up_pieces_match_their_shapes;
use crate::transform::is_empty_fused;
use crate::transform::mapping_of;
use crate::transform::qkv_pieces_match_their_shapes;
use crate::worm::align_up;
use crate::worm::Placement;

verus! {

/// The roles of the tensors of a layer.
pub open spec fn role_name(role: int) -> Seq<char> {
    if role == 0 {
        "attn.qkv"@
    } else if role == 1 {
        "attn.o_proj"@
    } else if role == 2 {
        "mlp.gate_up"@
    } else if role == 3 {
        "mlp.down"@
    } else if role == 4 {
        "input_norm"@
    } else {
        "post_norm"@
    }
}

/// How many roles there are.
pub const ROLES: usize = 6;

/// The first slot that a tensor of the given role fills.
pub open spec fn first_slot(role: int) -> int {
    if role == 0 {
        0
    } else if role == 1 {
        3
    } else if role == 2 {
        4
    } else {
        role + 3
    }
}

/// How many slots a tensor of the given role fills.
pub open spec fn slot_count(role: int) -> int {
    if role == 0 {
        3
    } else if role == 2 {
        2
    } else {
        1
    }
}

/// The role of the tensor that fills the given slot.
pub open spec fn role_of_slot(slot: int) -> int {
    if slot < 3 {
        0
    } else if slot == 3 {
        1
    } else if slot < 6 {
        2
    } else {
        slot - 3
    }
}

/// Whether a tensor has the given role in the given layer.
pub open spec fn plays_role(raw: RawModel, layer: int, role: int) -> bool {
    canonical_key(raw.name) matches Some((l, r)) && l == layer && r == role_name(role)
}

/// Whether a tensor belongs to the model, has the expected shape, and holds whole elements of two
/// or four bytes.
pub open spec fn is_sound(cfg: GlmConfig, raw: RawModel) -> bool {
    &&& canonical_key(raw.name) matches Some((layer, role))
    &&& layer < cfg.num_layers
    &&& expected_shape(cfg, role) == Some(raw.shape)
    &&& is_well_sized(raw)
    &&& type_size(raw.dtype) == 2 || type_size(raw.dtype) == 4
    &&& !is_empty_fused(cfg, raw)
}

/// Whether the given tensors are those of a whole model: every tensor of every layer once, and
/// nothing else.
pub open spec fn is_complete(cfg: GlmConfig, tensors: Seq<RawModel>) -> bool {
    &&& forall|i: int| 0 <= i < tensors.len() ==> is_sound(cfg, #[trigger] tensors[i])
    &&& forall|i: int, j: int|
        0 <= i < j < tensors.len() ==> canonical_key((#[trigger] tensors[i]).name)
            != canonical_key((#[trigger] tensors[j]).name)
    &&& forall|layer: int, role: int|
        0 <= layer < cfg.num_layers && 0 <= role < ROLES ==> #[trigger] is_played(
            tensors,
            layer,
            role,
        )
}

/// Whether some tensor has the given role in the given layer.
pub open spec fn is_played(tensors: Seq<RawModel>, layer: int, role: int) -> bool {
    exists|i: int| 0 <= i < tensors.len() && plays_role(#[trigger] tensors[i], layer, role)
}

/// Every known name has one of the roles.
proof fn some_role(raw: RawModel) -> (role: int)
    requires
        canonical_key(raw.name) is Some,
    ensures
        0 <= role < ROLES,
        plays_role(raw, canonical_key(raw.name).unwrap().0 as int, role),
{
    let (_, name) = canonical_key(raw.name).unwrap();
    if name == role_name(0) {
        0
    } else if name == role_name(1) {
        1
    } else if name == role_name(2) {
        2
    } else if name == role_name(3) {
        3
    } else if name == role_name(4) {
        4
    } else {
        5
    }
}

/// A sound tensor is mapped, and each tensor that it contributes has as many bytes as its shape and
/// the element type announce.
pub proof fn sound_tensors_are_mapped(cfg: GlmConfig, raw: RawModel)
    requires
        cfg.dims_fit(),
        is_sound(cfg, raw),
    ensures
        mapping_of(cfg, raw) matches Ok((_, tensors)) && forall|i: int|
            0 <= i < tensors.len() ==> (#[trigger] tensors[i]).data.len() == element_count(
                tensors[i].shape,
            ) * type_size(raw.dtype),
{
    let (layer, role) = canonical_key(raw.name).unwrap();
    let elem = type_size(raw.dtype);
    roles_are_distinct();
    if role == "attn.qkv"@ {
        matrix_element_count(raw.shape);
        qkv_pieces_match_their_shapes(raw.data, raw.shape, cfg, elem);
    } else if role == "mlp.gate_up"@ {
        matrix_element_count(raw.shape);
        gate_up_pieces_match_their_shapes(raw.data, raw.shape, cfg, elem);
    }
}

/// A sound tensor fills exactly the slots of its role.
proof fn sound_tensors_fill_their_slots(cfg: GlmConfig, raw: RawModel, layer: int, role: int)
    requires
        cfg.dims_fit(),
        is_sound(cfg, raw),
        0 <= role < ROLES,
        plays_role(raw, layer, role),
    ensures
        mapping_of(cfg, raw) is Ok,
        contribution(cfg, raw).len() == slot_count(role),
        forall|j: int|
            0 <= j < slot_count(role) ==> fills_slot(
                cfg,
                #[trigger] contribution(cfg, raw)[j],
                layer as nat,
                first_slot(role) + j,
            ) && contribution(cfg, raw)[j].data.len() <= 4 * element_count(
                contribution(cfg, raw)[j].shape,
            ),
{
    sound_tensors_are_mapped(cfg, raw);
    roles_are_distinct();
    part_names_join();
    let tensors = contribution(cfg, raw);
    let elem = type_size(raw.dtype);
    assert forall|j: int| 0 <= j < slot_count(role) implies fills_slot(
        cfg,
        #[trigger] tensors[j],
        layer as nat,
        first_slot(role) + j,
    ) && tensors[j].data.len() <= 4 * element_count(tensors[j].shape) by {
        let count = element_count(tensors[j].shape);
        assert(count * elem <= 4 * count) by (nonlinear_arith)
            requires
                elem == 2 || elem == 4,
        ;
        assert(tensors[j].shape =~= slot_shape(cfg, first_slot(role) + j));
        assert(tensors[j].key == layer_key(layer as nat, slot_part(first_slot(role) + j)));
    }
}

/// Two sound tensors with different names in the model contribute nothing under one key, and one
/// contributes nothing twice.
proof fn sound_tensors_do_not_collide(
    cfg: GlmConfig,
    a: RawModel,
    b: RawModel,
    i: int,
    j: int,
)
    requires
        cfg.dims_fit(),
        is_sound(cfg, a),
        is_sound(cfg, b),
        0 <= i < contribution(cfg, a).len(),
        0 <= j < contribution(cfg, b).len(),
        contribution(cfg, a)[i].key == contribution(cfg, b)[j].key,
    ensures
        canonical_key(a.name) == canonical_key(b.name),
        i == j,
{
    let ra = some_role(a);
    let rb = some_role(b);
    let la = canonical_key(a.name).unwrap().0 as int;
    let lb = canonical_key(b.name).unwrap().0 as int;
    sound_tensors_fill_their_slots(cfg, a, la, ra);
    sound_tensors_fill_their_slots(cfg, b, lb, rb);
    let sa = first_slot(ra) + i;
    let sb = first_slot(rb) + j;
    assert(fills_slot(cfg, contribution(cfg, a)[i], la as nat, sa));
    assert(fills_slot(cfg, contribution(cfg, b)[j], lb as nat, sb));
    layer_keys_are_unique(la as nat, slot_part(sa), lb as nat, slot_part(sb));
    slot_parts_are_unique(sa, sb);
    assert(role_of_slot(sa) == ra && role_of_slot(sb) == rb);
}

/// Where no two sound tensors have the same name in the model, all of them can be gathered, and
/// what is gathered is what they contribute.
#[verifier::rlimit(40)]
proof fn sound_tensors_gather(cfg: GlmConfig, tensors: Seq<RawModel>)
    requires
        cfg.dims_fit(),
        forall|i: int| 0 <= i < tensors.len() ==> is_sound(cfg, #[trigger] tensors[i]),
        forall|i: int, j: int|
            0 <= i < j < tensors.len() ==> canonical_key((#[trigger] tensors[i]).name)
                != canonical_key((#[trigger] tensors[j]).name),
    ensures
        all_map(cfg, tensors),
        gathered_with(Map::empty(), contributions(cfg, tensors)) matches Ok(known) && {
            &&& forall|i: int, j: int|
                0 <= i < tensors.len() && 0 <= j < contribution(
                    cfg,
                    tensors[i],
                ).len() ==> known.contains_key(
                    (#[trigger] contribution(cfg, tensors[i])[j]).key,
                ) && known[contribution(cfg, tensors[i])[j].key] == contribution(
                    cfg,
                    tensors[i],
                )[j]
            &&& forall|key: Seq<char>| #[trigger]
                known.contains_key(key) ==> is_contributed(cfg, tensors, key)
        },
    decreases tensors.len(),
{
    let none = Map::<Seq<char>, Placement>::empty();
    if tensors.len() > 0 {
        let front = tensors.drop_last();
        let n = front.len() as int;
        let last = tensors.last();
        assert(last == tensors[n]);
        assert forall|i: int| 0 <= i < n implies is_sound(cfg, #[trigger] front[i]) by {
            assert(front[i] == tensors[i]);
        }
        assert forall|i: int, j: int| 0 <= i < j < n implies canonical_key(
            (#[trigger] front[i]).name,
        ) != canonical_key((#[trigger] front[j]).name) by {
            assert(front[i] == tensors[i] && front[j] == tensors[j]);
        }
        sound_tensors_gather(cfg, front);
        let role = some_role(last);
        sound_tensors_fill_their_slots(
            cfg,
            last,
            canonical_key(last.name).unwrap().0 as int,
            role,
        );
        assert forall|i: int| 0 <= i < tensors.len() implies mapping_of(
            cfg,
            #[trigger] tensors[i],
        ) is Ok by {
            if i < n {
                assert(front[i] == tensors[i]);
            }
        }
        let known = gathered_with(none, contributions(cfg, front))->Ok_0;
        let more = contribution(cfg, last);
        gathering_in_portions(none, contributions(cfg, front), more);
        gathering_a_shard(known, more);
        assert forall|j: int| 0 <= j < more.len() implies !known.contains_key(
            (#[trigger] more[j]).key,
        ) by {
            if known.contains_key(more[j].key) {
                let (i, k) = choose|i: int, k: int|
                    0 <= i < n && 0 <= k < contribution(cfg, front[i]).len() && (
                    #[trigger] contribution(cfg, front[i])[k]).key == more[j].key;
                sound_tensors_do_not_collide(cfg, front[i], last, k, j);
                assert(front[i] == tensors[i]);
            }
        }
        assert forall|j1: int, j2: int| 0 <= j1 < j2 < more.len() implies (#[trigger] more[j1]).key
            != (#[trigger] more[j2]).key by {
            if more[j1].key == more[j2].key {
                sound_tensors_do_not_collide(cfg, last, last, j1, j2);
            }
        }
        let all = gathered_with(none, contributions(cfg, tensors))->Ok_0;
        assert forall|i: int, j: int|
            0 <= i < tensors.len() && 0 <= j < contribution(
                cfg,
                tensors[i],
            ).len() implies all.contains_key((#[trigger] contribution(cfg, tensors[i])[j]).key)
            && all[contribution(cfg, tensors[i])[j].key] == contribution(cfg, tensors[i])[j] by {
            if i < n {
                assert(front[i] == tensors[i]);
                assert(known.contains_key(contribution(cfg, front[i])[j].key));
            } else {
                assert(more[j] == contribution(cfg, tensors[i])[j]);
                assert(has_key(more, more[j].key));
            }
        }
        assert forall|key: Seq<char>| #[trigger] all.contains_key(key) implies is_contributed(
            cfg,
            tensors,
            key,
        ) by {
            if known.contains_key(key) {
                let (i, k) = choose|i: int, k: int|
                    0 <= i < n && 0 <= k < contribution(cfg, front[i]).len() && (
                    #[trigger] contribution(cfg, front[i])[k]).key == key;
                assert(front[i] == tensors[i]);
                assert(contribution(cfg, tensors[i])[k].key == key);
            } else {
                let j = choose|j: int| 0 <= j < more.len() && (#[trigger] more[j]).key == key;
                assert(contribution(cfg, tensors[n])[j].key == key);
            }
        }
    }
}

/// Whether one of the tensors contributes something under the given key.
pub open spec fn is_contributed(cfg: GlmConfig, tensors: Seq<RawModel>, key: Seq<char>) -> bool {
    exists|i: int, k: int|
        0 <= i < tensors.len() && 0 <= k < contribution(cfg, tensors[i]).len() && (
        #[trigger] contribution(cfg, tensors[i])[k]).key == key
}

/// How many elements the tensor of the given slot has.
pub open spec fn slot_elements(cfg: GlmConfig, slot: int) -> nat {
    element_count(slot_shape(cfg, slot))
}

/// The tensors of a layer have as many elements as the configuration counts.
proof fn layer_counts_its_slots(cfg: GlmConfig)
    requires
        cfg.dims_fit(),
    ensures
        slot_elements(cfg, 0) + slot_elements(cfg, 1) + slot_elements(cfg, 2) + slot_elements(
            cfg,
            3,
        ) + slot_elements(cfg, 4) + slot_elements(cfg, 5) + slot_elements(cfg, 6) + slot_elements(
            cfg,
            7,
        ) + slot_elements(cfg, 8) == cfg.layer_elements(),
{
    let h = cfg.hidden_size as nat;
    let i = cfg.intermediate_size as nat;
    let kv = cfg.spec_kv_dim();
    matrix_element_count(slot_shape(cfg, 0));
    matrix_element_count(slot_shape(cfg, 1));
    matrix_element_count(slot_shape(cfg, 4));
    matrix_element_count(slot_shape(cfg, 6));
    vector_element_count(slot_shape(cfg, 7));
    assert((h + 2 * kv) * h == h * h + 2 * (kv * h) && h * i == i * h) by (nonlinear_arith);
}

/// Each further tensor takes up its bytes and less than 64 bytes of padding.
proof fn footprint_grows(tensors: Map<Seq<char>, Placement>, n: nat)
    ensures
        footprint(tensors, n + 1) <= footprint(tensors, n) + 63 + tensors[slot_key(n)].data.len(),
{
    assert(align_up(footprint(tensors, n)) <= footprint(tensors, n) + 63);
}

/// The tensors of the first layers take up no more than the configuration reserves for them.
proof fn footprint_is_reserved(cfg: GlmConfig, tensors: Map<Seq<char>, Placement>, layers: nat)
    requires
        cfg.dims_fit(),
        forall|n: nat|
            n < layers * SLOTS ==> tensors[#[trigger] slot_key(n)].data.len() <= 4
                * slot_elements(cfg, (n % SLOTS as nat) as int),
    ensures
        footprint(tensors, layers * SLOTS as nat) <= layers * cfg.layer_bytes(),
    decreases layers,
{
    if layers > 0 {
        let before = (layers - 1) as nat;
        let at = before * SLOTS as nat;
        assert forall|n: nat| n < before * SLOTS implies tensors[#[trigger] slot_key(
            n,
        )].data.len() <= 4 * slot_elements(cfg, (n % SLOTS as nat) as int) by {
            assert(n < layers * SLOTS);
        }
        footprint_is_reserved(cfg, tensors, before);
        layer_counts_its_slots(cfg);
        layer_slot(cfg, tensors, layers, 0);
        layer_slot(cfg, tensors, layers, 1);
        layer_slot(cfg, tensors, layers, 2);
        layer_slot(cfg, tensors, layers, 3);
        layer_slot(cfg, tensors, layers, 4);
        layer_slot(cfg, tensors, layers, 5);
        layer_slot(cfg, tensors, layers, 6);
        layer_slot(cfg, tensors, layers, 7);
        layer_slot(cfg, tensors, layers, 8);
        assert(at + 9 == layers * SLOTS as nat);
        assert(footprint(tensors, at + 9) <= footprint(tensors, at) + 9 * 63 + 4
            * cfg.layer_elements());
        let bytes = cfg.layer_bytes();
        assert(layers * bytes == before * bytes + bytes) by (nonlinear_arith)
            requires
                layers == before + 1,
        ;
    } else {
        assert(footprint(tensors, 0) == 0);
    }
}

/// One tensor of the last of the given layers.
proof fn layer_slot(
    cfg: GlmConfig,
    tensors: Map<Seq<char>, Placement>,
    layers: nat,
    slot: nat,
)
    requires
        layers > 0,
        slot < SLOTS,
        forall|n: nat|
            n < layers * SLOTS ==> tensors[#[trigger] slot_key(n)].data.len() <= 4
                * slot_elements(cfg, (n % SLOTS as nat) as int),
    ensures
        footprint(tensors, ((layers - 1) * SLOTS + slot + 1) as nat) <= footprint(
            tensors,
            ((layers - 1) * SLOTS + slot) as nat,
        ) + 63 + 4 * slot_elements(cfg, slot as int),
{
    let n = ((layers - 1) * SLOTS + slot) as nat;
    assert(n < layers * SLOTS && n % SLOTS as nat == slot) by (nonlinear_arith)
        requires
            n == (layers - 1) * SLOTS + slot,
            slot < SLOTS,
            SLOTS == 9,
            layers > 0,
    ;
    footprint_grows(tensors, n);
    assert(tensors[slot_key(n)].data.len() <= 4 * slot_elements(cfg, slot as int));
}

/// Every slot of a complete checkpoint is filled by the tensor of its role.
proof fn complete_checkpoint_fills_slot(
    cfg: GlmConfig,
    tensors: Seq<RawModel>,
    known: Map<Seq<char>, Placement>,
    n: nat,
)
    requires
        cfg.dims_fit(),
        is_complete(cfg, tensors),
        gathered_with(Map::empty(), contributions(cfg, tensors)) == Ok::<
            _,
            EvokeFault,
        >(known),
        n < cfg.num_layers * SLOTS,
    ensures
        known.contains_key(slot_key(n)),
        known[slot_key(n)].data.len() <= 4 * slot_elements(cfg, (n % SLOTS as nat) as int),
{
    sound_tensors_gather(cfg, tensors);
    let layer = (n / SLOTS as nat) as int;
    let slot = (n % SLOTS as nat) as int;
    let role = role_of_slot(slot);
    assert(layer < cfg.num_layers) by (nonlinear_arith)
        requires
            n < cfg.num_layers * SLOTS,
            layer == n / SLOTS as nat,
            SLOTS == 9,
    ;
    assert(is_played(tensors, layer, role));
    let i = choose|i: int| 0 <= i < tensors.len() && plays_role(#[trigger] tensors[i], layer, role);
    assert(is_sound(cfg, tensors[i]));
    sound_tensors_fill_their_slots(cfg, tensors[i], layer, role);
    let j = slot - first_slot(role);
    let tensor = contribution(cfg, tensors[i])[j];
    assert(fills_slot(cfg, tensor, layer as nat, first_slot(role) + j));
    assert(known.contains_key(tensor.key) && known[tensor.key] == tensor);
    assert(tensor.key == slot_key(n));
}

/// A complete checkpoint of two- or four-byte elements is ingested, in every arena that has at
/// least the size that the configuration asks for, however its tensors are spread over files. Every
/// tensor of every file then lies unchanged, in one piece or in its pieces, under the places of
/// its layer.
pub proof fn complete_checkpoint_is_ingested(
    cfg: GlmConfig,
    files: Seq<Seq<RawModel>>,
    capacity: nat,
)
    requires
        cfg.dims_fit(),
        cfg.valid(),
        is_complete(cfg, all_tensors(files)),
        capacity >= cfg.staging_bytes(),
    ensures
        ingestion(cfg, mapped_files(cfg, files), capacity) matches Ok((bytes, blocks)) && {
            &&& blocks.len() == cfg.num_layers
            &&& forall|i: int, layer: int, role: int, j: int|
                0 <= i < all_tensors(files).len() && 0 <= role < ROLES && #[trigger] plays_role(
                    all_tensors(files)[i],
                    layer,
                    role,
                ) && 0 <= j < slot_count(role) ==> holds_tensor(
                    bytes,
                    block_span(blocks[layer], first_slot(role) + j),
                    #[trigger] contribution(cfg, all_tensors(files)[i])[j],
                )
        },
{
    let tensors = all_tensors(files);
    let outcomes = mapped_files(cfg, files);
    sound_tensors_gather(cfg, tensors);
    files_gather_as_one(cfg, files);
    let known = gathered_with(Map::empty(), contributions(cfg, tensors))->Ok_0;
    let n = cfg.num_layers as nat * SLOTS as nat;
    assert forall|m: nat| m < n implies known.contains_key(#[trigger] slot_key(m))
        && known[slot_key(m)].data.len() <= 4 * slot_elements(
        cfg,
        (m % SLOTS as nat) as int,
    ) by {
        complete_checkpoint_fills_slot(cfg, tensors, known, m);
    }
    footprint_is_reserved(cfg, known, cfg.num_layers as nat);
    assembly_succeeds_exactly_if_complete(known, capacity, n);
    let (bytes, blocks) = ingestion(cfg, outcomes, capacity)->Ok_0;
    assert forall|i: int, layer: int, role: int, j: int|
        0 <= i < tensors.len() && 0 <= role < ROLES && #[trigger] plays_role(
            tensors[i],
            layer,
            role,
        ) && 0 <= j < slot_count(role) implies holds_tensor(
        bytes,
        block_span(blocks[layer], first_slot(role) + j),
        #[trigger] contribution(cfg, tensors[i])[j],
    ) by {
        let slot = first_slot(role) + j;
        assert(is_sound(cfg, tensors[i]));
        sound_tensors_fill_their_slots(cfg, tensors[i], layer, role);
        let tensor = contribution(cfg, tensors[i])[j];
        assert(fills_slot(cfg, tensor, layer as nat, slot));
        assert(known.contains_key(tensor.key) && known[tensor.key] == tensor);
        sealed_layers_hold_the_checkpoint(cfg, outcomes, capacity, layer, slot);
    }
}

/// Two runs over the same complete checkpoint give the same sealed bytes and the same layers,
/// however the tensors are spread over files, in arenas of any size that suffices.
pub proof fn complete_checkpoints_are_ingested_alike(
    cfg: GlmConfig,
    files: Seq<Seq<RawModel>>,
    others: Seq<Seq<RawModel>>,
    first: nat,
    second: nat,
)
    requires
        cfg.dims_fit(),
        cfg.valid(),
        is_complete(cfg, all_tensors(files)),
        all_tensors(files).to_multiset() == all_tensors(others).to_multiset(),
        first >= cfg.staging_bytes(),
        second >= cfg.staging_bytes(),
    ensures
        ingestion(cfg, mapped_files(cfg, files), first) is Ok,
        ingestion(cfg, mapped_files(cfg, others), second) == ingestion(
            cfg,
            mapped_files(cfg, files),
            first,
        ),
{
    let requested = cfg.staging_bytes();
    complete_checkpoint_is_ingested(cfg, files, requested);
    same_tensors_are_ingested_alike(cfg, files, files, requested, first);
    same_tensors_are_ingested_alike(cfg, files, others, requested, second);
}

} // verus!
