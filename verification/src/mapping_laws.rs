//! What the names of tensors mean, and what becomes of the bytes of a checkpoint on their way to
//! the sealed layers.

use vstd::arithmetic::div_mod::*;
use vstd::arithmetic::mul::*;
use vstd::prelude::*;

use crate::checkpoint_laws::part_names_join;
use crate::checkpoint_laws::roles_are_distinct;
use crate::config::GlmConfig;
use crate::error::EvokeFault;
use crate::keys::canonical_key;
use crate::keys::layer_part;
use crate::keys::role_of;
use crate::shard::header_ends;
use crate::shard::header_length;
use crate::shard::safetensors_content;
use crate::shard::RawModel;
use crate::telemetry::RecordModel;
use crate::text::contains_text;
use crate::text::decimal;
use crate::text::first_occurrence;
use crate::text::parsed_usize;
use crate::text_laws::containing_is_being_framed;
use crate::text_laws::first_occurrence_is_shortest_front;
use crate::text_laws::is_made_of;
use crate::text_laws::reading_undoes_writing;
use crate::text_laws::spells;
use crate::transform::dtype_named;
use crate::transform::element_size;
use crate::transform::expected_shape;
use crate::transform::fused_qkv_parts;
use crate::transform::gate_up_parts;
use crate::transform::gate_up_split_is_lossless;
use crate::transform::is_empty_fused;
use crate::transform::is_unmappable;
use crate::transform::joined_data;
use crate::transform::map_record;
use crate::transform::mapping_of;
use crate::transform::qkv_split_is_lossless;
use crate::transform::readable_content;
use crate::transform::shape_fault;
use crate::transform::shard_mapping;
use crate::transform::PartModel;
use crate::worm::DType;
use crate::worm::Placement;

verus! {

/// The part of a name that gives away the `k`-th role.
pub open spec fn role_marker(k: int) -> Seq<char> {
    if k == 0 {
        "query_key_value.weight"@
    } else if k == 1 {
        "self_attention.dense.weight"@
    } else if k == 2 {
        "dense_h_to_4h.weight"@
    } else if k == 3 {
        "dense_4h_to_h.weight"@
    } else if k == 4 {
        "input_layernorm.weight"@
    } else {
        "post_attention_layernorm.weight"@
    }
}

/// The `k`-th role.
pub open spec fn marked_role(k: int) -> Seq<char> {
    if k == 0 {
        "attn.qkv"@
    } else if k == 1 {
        "attn.o_proj"@
    } else if k == 2 {
        "mlp.gate_up"@
    } else if k == 3 {
        "mlp.down"@
    } else if k == 4 {
        "input_norm"@
    } else {
        "post_norm"@
    }
}

/// Whether `pattern` stands somewhere in `name`.
pub open spec fn mentions(name: Seq<char>, pattern: Seq<char>) -> bool {
    exists|before: Seq<char>, after: Seq<char>| is_made_of(name, before, pattern, after)
}

/// Whether the `k`-th role is the first one that a name mentions.
pub open spec fn mentions_first(name: Seq<char>, k: int) -> bool {
    &&& 0 <= k < 6
    &&& mentions(name, role_marker(k))
    &&& forall|j: int| 0 <= j < k ==> !mentions(name, #[trigger] role_marker(j))
}

/// The role of a tensor is the first one that its name mentions, whatever else the name holds; a
/// name that mentions none has no role.
pub proof fn first_mentioned_role_counts(name: Seq<char>, k: int)
    ensures
        mentions_first(name, k) ==> role_of(name) == Some(marked_role(k)),
        role_of(name) is None <==> forall|j: int|
            0 <= j < 6 ==> !mentions(name, #[trigger] role_marker(j)),
{
    containing_is_being_framed(name, role_marker(0));
    containing_is_being_framed(name, role_marker(1));
    containing_is_being_framed(name, role_marker(2));
    containing_is_being_framed(name, role_marker(3));
    containing_is_being_framed(name, role_marker(4));
    containing_is_being_framed(name, role_marker(5));
    assert(mentions(name, role_marker(0)) == contains_text(name, role_marker(0)));
    assert(mentions(name, role_marker(1)) == contains_text(name, role_marker(1)));
    assert(mentions(name, role_marker(2)) == contains_text(name, role_marker(2)));
    assert(mentions(name, role_marker(3)) == contains_text(name, role_marker(3)));
    assert(mentions(name, role_marker(4)) == contains_text(name, role_marker(4)));
    assert(mentions(name, role_marker(5)) == contains_text(name, role_marker(5)));
}

/// Whether a name is `before`, the first `.layers.`, a numeral of `layer`, a dot, and `after`.
pub open spec fn names_layer(
    name: Seq<char>,
    layer: usize,
    before: Seq<char>,
    part: Seq<char>,
    after: Seq<char>,
) -> bool {
    &&& name == before + ".layers."@ + part + "."@ + after
    &&& forall|b: Seq<char>, a: Seq<char>|
        is_made_of(name, b, ".layers."@, a) ==> before.len() <= b.len()
    &&& forall|i: int| 0 <= i < part.len() ==> #[trigger] part[i] != '.'
    &&& exists|plus: bool, k: nat| spells(part, layer as nat, plus, k)
}

/// What stands between the first `.layers.` and the next dot can be told from the rest of the name.
proof fn layer_part_is_framed(name: Seq<char>, part: Seq<char>) -> (frame: (Seq<char>, Seq<char>))
    requires
        layer_part(name) == Some(part),
    ensures
        name == frame.0 + ".layers."@ + part + "."@ + frame.1,
        forall|b: Seq<char>, a: Seq<char>|
            is_made_of(name, b, ".layers."@, a) ==> frame.0.len() <= b.len(),
        forall|i: int| 0 <= i < part.len() ==> #[trigger] part[i] != '.',
{
    let marker = ".layers."@;
    let n = marker.len() as int;
    first_occurrence_is_shortest_front(name, marker);
    let at = first_occurrence(name, marker).unwrap();
    let rest = name.skip(at + n);
    let after = next_dot_ends_the_part(rest, part);
    let front = name.take(at);
    assert(name == front + marker + rest);
    assert(front + marker + (part + "."@ + after) =~= front + marker + part + "."@ + after);
    (front, after)
}

/// A part that ends at the first dot has no dot in it.
proof fn next_dot_ends_the_part(rest: Seq<char>, part: Seq<char>) -> (after: Seq<char>)
    requires
        first_occurrence(rest, "."@) matches Some(dot) && part == rest.take(dot),
    ensures
        rest == part + "."@ + after,
        forall|i: int| 0 <= i < part.len() ==> #[trigger] part[i] != '.',
{
    reveal_strlit(".");
    first_occurrence_is_shortest_front(rest, "."@);
    let dot = first_occurrence(rest, "."@).unwrap();
    assert forall|i: int| 0 <= i < part.len() implies #[trigger] part[i] != '.' by {
        if part[i] == '.' {
            assert(rest =~= rest.take(i) + "."@ + rest.skip(i + 1));
            assert(is_made_of(rest, rest.take(i), "."@, rest.skip(i + 1)));
        }
    }
    rest.skip(dot + "."@.len())
}

/// The first dot behind a part without dots ends that part.
proof fn part_ends_at_the_next_dot(part: Seq<char>, after: Seq<char>)
    requires
        forall|i: int| 0 <= i < part.len() ==> #[trigger] part[i] != '.',
    ensures
        first_occurrence(part + "."@ + after, "."@) == Some(part.len() as int),
{
    reveal_strlit(".");
    let rest = part + "."@ + after;
    first_occurrence_is_shortest_front(rest, "."@);
    assert(is_made_of(rest, part, "."@, after));
    let dot = first_occurrence(rest, "."@).unwrap();
    assert(rest[dot] == '.') by {
        assert(rest == rest.take(dot) + "."@ + rest.skip(dot + 1));
    }
    if dot < part.len() {
        assert(part[dot] == rest[dot]);
    }
}

/// What is framed so is what stands between the first `.layers.` and the next dot.
proof fn framed_part_is_layer_part(
    name: Seq<char>,
    before: Seq<char>,
    part: Seq<char>,
    after: Seq<char>,
)
    requires
        name == before + ".layers."@ + part + "."@ + after,
        forall|b: Seq<char>, a: Seq<char>|
            is_made_of(name, b, ".layers."@, a) ==> before.len() <= b.len(),
        forall|i: int| 0 <= i < part.len() ==> #[trigger] part[i] != '.',
    ensures
        layer_part(name) == Some(part),
{
    let marker = ".layers."@;
    let tail = part + "."@ + after;
    assert(name =~= before + marker + tail);
    assert(is_made_of(name, before, marker, tail));
    first_occurrence_is_shortest_front(name, marker);
    let at = first_occurrence(name, marker).unwrap();
    assert(at == before.len());
    assert(name.skip(at + marker.len()) =~= tail);
    part_ends_at_the_next_dot(part, after);
    assert(tail.take(part.len() as int) =~= part);
}

/// A name stands for a layer and a role exactly if the number of the layer follows the first
/// `.layers.`, up to the next dot, and the role is the first one that the name mentions.
pub proof fn names_tell_layer_and_role(name: Seq<char>, layer: usize, k: int)
    requires
        mentions_first(name, k),
    ensures
        canonical_key(name) == Some((layer, marked_role(k))) <==> exists|
            before: Seq<char>,
            part: Seq<char>,
            after: Seq<char>,
        | names_layer(name, layer, before, part, after),
        canonical_key(name) matches Some((_, role)) ==> role == marked_role(k),
{
    first_mentioned_role_counts(name, k);
    if canonical_key(name) == Some((layer, marked_role(k))) {
        let part = layer_part(name).unwrap();
        let (before, after) = layer_part_is_framed(name, part);
        reading_undoes_writing(part, layer);
        assert(names_layer(name, layer, before, part, after));
    }
    if exists|before: Seq<char>, part: Seq<char>, after: Seq<char>|
        names_layer(name, layer, before, part, after) {
        let (before, part, after) = choose|
            before: Seq<char>,
            part: Seq<char>,
            after: Seq<char>,
        | names_layer(name, layer, before, part, after);
        framed_part_is_layer_part(name, before, part, after);
        reading_undoes_writing(part, layer);
        assert(parsed_usize(part) == Some(layer));
    }
}

/// A name without a role, without a `.layers.` that a dot follows, or without a number between
/// the two stands for nothing; every other name stands for something.
pub proof fn other_names_are_unknown(name: Seq<char>)
    ensures
        canonical_key(name) is None <==> (forall|k: int| !#[trigger] mentions_first(name, k))
            || forall|layer: usize, before: Seq<char>, part: Seq<char>, after: Seq<char>|
            !names_layer(name, layer, before, part, after),
{
    if exists|k: int| #[trigger] mentions_first(name, k) {
        let k = choose|k: int| #[trigger] mentions_first(name, k);
        if canonical_key(name) is Some {
            let (layer, _) = canonical_key(name).unwrap();
            names_tell_layer_and_role(name, layer, k);
        }
        if exists|layer: usize, before: Seq<char>, part: Seq<char>, after: Seq<char>|
            names_layer(name, layer, before, part, after) {
            let (layer, before, part, after) = choose|
                layer: usize,
                before: Seq<char>,
                part: Seq<char>,
                after: Seq<char>,
            | names_layer(name, layer, before, part, after);
            names_tell_layer_and_role(name, layer, k);
        }
    } else {
        assert forall|j: int| 0 <= j < 6 implies !mentions(name, #[trigger] role_marker(j)) by {
            if mentions(name, role_marker(j)) {
                first_mention_exists(name, j);
            }
        }
        first_mentioned_role_counts(name, 0);
    }
}

/// A name that mentions a role mentions some role first.
proof fn first_mention_exists(name: Seq<char>, j: int)
    requires
        0 <= j < 6,
        mentions(name, role_marker(j)),
    ensures
        exists|k: int| #[trigger] mentions_first(name, k),
    decreases j,
{
    if exists|i: int| 0 <= i < j && mentions(name, #[trigger] role_marker(i)) {
        let i = choose|i: int| 0 <= i < j && mentions(name, #[trigger] role_marker(i));
        first_mention_exists(name, i);
    } else {
        assert(mentions_first(name, j));
    }
}

/// Whether `elem` whole times `area` fit into `len`, and not once more.
pub open spec fn fits_whole_times(len: nat, area: nat, elem: nat) -> bool {
    elem * area <= len < (elem + 1) * area
}

/// The size of an element is how many whole times the elements fit the bytes.
proof fn element_size_is_quotient(len: nat, shape: Seq<usize>, elem: nat)
    requires
        fits_whole_times(len, shape[0] as nat * shape[1] as nat, elem),
    ensures
        element_size(len, shape) == elem,
{
    let area = (shape[0] as nat * shape[1] as nat) as int;
    assert((elem + 1) * area == elem * area + area) by (nonlinear_arith);
    lemma_fundamental_div_mod_converse(len as int, area, elem as int, len - elem * area);
}

/// The fused attention matrix is cut between rows: the first piece has as many rows as the hidden
/// vector is wide, the two others as many as a key is wide, and the three pieces, one after the
/// other, are the matrix. It is refused exactly if its elements are not of two or four bytes, or
/// if it has another number of rows.
pub proof fn attention_matrix_is_cut_between_rows(
    data: Seq<u8>,
    shape: Seq<usize>,
    cfg: GlmConfig,
    elem: nat,
)
    requires
        shape.len() >= 2,
        shape[0] as nat * shape[1] as nat != 0,
        cfg.num_attention_heads != 0,
        cfg.spec_qkv_fused_dim() <= usize::MAX,
        fits_whole_times(data.len(), shape[0] as nat * shape[1] as nat, elem),
    ensures
        match fused_qkv_parts(data, shape, cfg) {
            Ok(parts) => {
                &&& elem == 2 || elem == 4
                &&& shape[0] == cfg.hidden_size + 2 * cfg.spec_kv_dim()
                &&& parts.len() == 3
                &&& parts[0].tag == "q"@ && parts[1].tag == "k"@ && parts[2].tag == "v"@
                &&& parts[0].data + parts[1].data + parts[2].data == data
                &&& parts[0].data.len() == cfg.hidden_size as nat * (shape[1] as nat * elem)
                &&& parts[1].data.len() == cfg.spec_kv_dim() * (shape[1] as nat * elem)
                &&& parts[0].shape == seq![cfg.hidden_size, shape[1]]
                &&& parts[1].shape.len() == 2
                &&& parts[1].shape[0] == cfg.spec_kv_dim() && parts[1].shape[1] == shape[1]
                &&& parts[2].shape == parts[1].shape
            },
            Err(fault) => if elem != 2 && elem != 4 {
                fault == EvokeFault::Config(
                    "unexpected elem size "@ + decimal(elem) + " for qkv"@,
                )
            } else {
                &&& shape[0] != cfg.hidden_size + 2 * cfg.spec_kv_dim()
                &&& fault == EvokeFault::Config(
                    "qkv row mismatch: "@ + decimal(shape[0] as nat) + " vs "@ + decimal(
                        (cfg.hidden_size + 2 * cfg.spec_kv_dim()) as nat,
                    ),
                )
            },
        },
{
    element_size_is_quotient(data.len(), shape, elem);
    if fused_qkv_parts(data, shape, cfg) is Ok {
        let parts = fused_qkv_parts(data, shape, cfg)->Ok_0;
        qkv_split_is_lossless(data, shape, cfg);
        reveal_with_fuel(joined_data, 4);
        assert(parts.drop_last().drop_last().drop_last() =~= Seq::<PartModel>::empty());
        assert(parts[0].data + parts[1].data + parts[2].data =~= joined_data(parts));
        let rows = shape[0] as nat;
        let cols = shape[1] as nat;
        let row = cols * elem;
        let q = cfg.hidden_size as nat;
        let kv = cfg.spec_kv_dim();
        assert(q * row + kv * row + kv * row == rows * cols * elem && q * row >= 0 && kv * row
            >= 0) by (nonlinear_arith)
            requires
                rows == q + 2 * kv,
                row == cols * elem,
        ;
        assert(rows * cols * elem == elem * (rows * cols)) by (nonlinear_arith);
    }
}

/// The fused matrix of the gated network is cut in the middle of its rows, and the two halves, one
/// after the other, are the matrix. It is refused exactly if it has another number of rows.
pub proof fn network_matrix_is_cut_in_the_middle(
    data: Seq<u8>,
    shape: Seq<usize>,
    cfg: GlmConfig,
    elem: nat,
)
    requires
        shape.len() >= 2,
        shape[0] as nat * shape[1] as nat != 0,
        fits_whole_times(data.len(), shape[0] as nat * shape[1] as nat, elem),
    ensures
        match gate_up_parts(data, shape, cfg) {
            Ok(parts) => {
                &&& shape[0] == cfg.intermediate_size + cfg.intermediate_size
                &&& parts.len() == 2
                &&& parts[0].tag == "gate"@ && parts[1].tag == "up"@
                &&& parts[0].data + parts[1].data == data
                &&& parts[0].data.len() == cfg.intermediate_size as nat * (shape[1] as nat * elem)
                &&& parts[0].shape == seq![cfg.intermediate_size, shape[1]]
                &&& parts[1].shape == parts[0].shape
            },
            Err(fault) => {
                &&& shape[0] != cfg.intermediate_size + cfg.intermediate_size
                &&& fault == EvokeFault::Config(
                    "mlp gate_up row mismatch "@ + decimal(shape[0] as nat),
                )
            },
        },
{
    element_size_is_quotient(data.len(), shape, elem);
    if gate_up_parts(data, shape, cfg) is Ok {
        let parts = gate_up_parts(data, shape, cfg)->Ok_0;
        gate_up_split_is_lossless(data, shape, cfg);
        reveal_with_fuel(joined_data, 3);
        assert(parts.drop_last().drop_last() =~= Seq::<PartModel>::empty());
        assert(parts[0].data + parts[1].data =~= joined_data(parts));
        let rows = shape[0] as nat;
        let cols = shape[1] as nat;
        let half = cfg.intermediate_size as nat;
        assert(half * (cols * elem) + half * (cols * elem) == elem * (rows * cols) && half * (cols
            * elem) >= 0) by (nonlinear_arith)
            requires
                rows == half + half,
        ;
    }
}

/// Whether `dtype` stands for the element type that a file calls `name`.
pub open spec fn stands_for(dtype: DType, name: Seq<char>) -> bool {
    match dtype {
        DType::F32 => name == "F32"@,
        DType::F16 => name == "F16"@,
        DType::BF16 => name != "F32"@ && name != "F16"@,
    }
}

/// Every element type stands for its own name, and the last one for all that are not known.
pub proof fn element_types_stand_for_their_names(name: Seq<char>, dtype: DType)
    ensures
        dtype_named(name) == dtype <==> stands_for(dtype, name),
{
    reveal_strlit("F32");
    reveal_strlit("F16");
    assert("F32"@[1] == '3' && "F16"@[1] == '1');
}

/// A tensor that is not fused contributes exactly one tensor, of the same bytes and the same shape,
/// under the key of its layer and its role. It is mapped exactly if its layer is one of the
/// model and its shape is the one of its role.
pub proof fn whole_tensors_are_kept(
    cfg: GlmConfig,
    raw: RawModel,
    layer: usize,
    role: Seq<char>,
)
    requires
        canonical_key(raw.name) == Some((layer, role)),
        role != "attn.qkv"@,
        role != "mlp.gate_up"@,
    ensures
        mapping_of(cfg, raw) is Ok <==> {
            &&& layer < cfg.num_layers
            &&& {
                ||| role == "attn.o_proj"@ && raw.shape == seq![cfg.hidden_size, cfg.hidden_size]
                ||| role == "mlp.down"@ && raw.shape == seq![cfg.hidden_size, cfg.intermediate_size]
                ||| (role == "input_norm"@ || role == "post_norm"@) && raw.shape == seq![
                    cfg.hidden_size,
                ]
            }
        },
        mapping_of(cfg, raw) matches Ok((mapped, tensors)) ==> {
            &&& mapped == layer
            &&& tensors.len() == 1
            &&& tensors[0].data == raw.data
            &&& tensors[0].shape == raw.shape
            &&& tensors[0].key == "layer."@ + decimal(layer as nat) + "."@ + role
            &&& stands_for(tensors[0].dtype, raw.dtype)
        },
{
    roles_are_distinct();
    element_types_stand_for_their_names(raw.dtype, dtype_named(raw.dtype));
}

/// The fused attention matrix contributes its three pieces, whose bytes, one after the other, are
/// the bytes of the file, each under the key of its layer and its part. It is mapped exactly
/// if its layer is one of the model, it has the right shape, and its elements are of two or four
/// bytes.
pub proof fn attention_matrix_is_kept(cfg: GlmConfig, raw: RawModel, layer: usize, elem: nat)
    requires
        cfg.dims_fit(),
        canonical_key(raw.name) == Some((layer, "attn.qkv"@)),
        raw.shape.len() == 2,
        raw.shape[0] as nat * raw.shape[1] as nat != 0,
        fits_whole_times(raw.data.len(), raw.shape[0] as nat * raw.shape[1] as nat, elem),
    ensures
        mapping_of(cfg, raw) is Ok <==> {
            &&& layer < cfg.num_layers
            &&& raw.shape[0] == cfg.hidden_size + 2 * cfg.spec_kv_dim()
            &&& raw.shape[1] == cfg.hidden_size
            &&& elem == 2 || elem == 4
        },
        mapping_of(cfg, raw) matches Ok((mapped, tensors)) ==> {
            let prefix = "layer."@ + decimal(layer as nat) + "."@;
            &&& mapped == layer
            &&& tensors.len() == 3
            &&& tensors[0].data + tensors[1].data + tensors[2].data == raw.data
            &&& tensors[0].data.len() == cfg.hidden_size as nat * (cfg.hidden_size as nat * elem)
            &&& tensors[1].data.len() == cfg.spec_kv_dim() * (cfg.hidden_size as nat * elem)
            &&& tensors[0].shape == seq![cfg.hidden_size, cfg.hidden_size]
            &&& tensors[1].shape == seq![cfg.spec_kv_dim() as usize, cfg.hidden_size]
            &&& tensors[2].shape == tensors[1].shape
            &&& tensors[0].key == prefix + "attn.q"@
            &&& tensors[1].key == prefix + "attn.k"@
            &&& tensors[2].key == prefix + "attn.v"@
            &&& forall|j: int| 0 <= j < 3 ==> stands_for((#[trigger] tensors[j]).dtype, raw.dtype)
        },
{
    roles_are_distinct();
    part_names_join();
    element_types_stand_for_their_names(raw.dtype, dtype_named(raw.dtype));
    attention_matrix_is_cut_between_rows(raw.data, raw.shape, cfg, elem);
    assert(raw.shape =~= seq![raw.shape[0], raw.shape[1]]);
    if mapping_of(cfg, raw) is Ok {
        let tensors = mapping_of(cfg, raw)->Ok_0.1;
        assert(tensors[1].shape =~= seq![cfg.spec_kv_dim() as usize, cfg.hidden_size]);
    }
}

/// The fused matrix of the gated network contributes its two halves, whose bytes, one after the
/// other, are the bytes of the file, each under the key of its layer and its part. It is mapped
/// exactly if its layer is one of the model and it has the right shape.
pub proof fn network_matrix_is_kept(cfg: GlmConfig, raw: RawModel, layer: usize, elem: nat)
    requires
        cfg.dims_fit(),
        canonical_key(raw.name) == Some((layer, "mlp.gate_up"@)),
        raw.shape.len() == 2,
        raw.shape[0] as nat * raw.shape[1] as nat != 0,
        fits_whole_times(raw.data.len(), raw.shape[0] as nat * raw.shape[1] as nat, elem),
    ensures
        mapping_of(cfg, raw) is Ok <==> {
            &&& layer < cfg.num_layers
            &&& raw.shape[0] == cfg.intermediate_size + cfg.intermediate_size
            &&& raw.shape[1] == cfg.hidden_size
        },
        mapping_of(cfg, raw) matches Ok((mapped, tensors)) ==> {
            let prefix = "layer."@ + decimal(layer as nat) + "."@;
            &&& mapped == layer
            &&& tensors.len() == 2
            &&& tensors[0].data + tensors[1].data == raw.data
            &&& tensors[0].data.len() == cfg.intermediate_size as nat * (cfg.hidden_size as nat
                * elem)
            &&& tensors[0].shape == seq![cfg.intermediate_size, cfg.hidden_size]
            &&& tensors[1].shape == tensors[0].shape
            &&& tensors[0].key == prefix + "mlp.gate"@
            &&& tensors[1].key == prefix + "mlp.up"@
            &&& forall|j: int| 0 <= j < 2 ==> stands_for((#[trigger] tensors[j]).dtype, raw.dtype)
        },
{
    roles_are_distinct();
    part_names_join();
    element_types_stand_for_their_names(raw.dtype, dtype_named(raw.dtype));
    network_matrix_is_cut_in_the_middle(raw.data, raw.shape, cfg, elem);
    assert(raw.shape =~= seq![raw.shape[0], raw.shape[1]]);
}

/// Why a tensor is not mapped: its name says nothing, its layer is none of the model, or its
/// shape is another one than that of its role. The error names the tensor.
pub proof fn unmapped_tensors_are_explained(cfg: GlmConfig, raw: RawModel)
    ensures
        canonical_key(raw.name) is None ==> mapping_of(cfg, raw) == Err::<
            (usize, Seq<Placement>),
            _,
        >(EvokeFault::Config("unknown key: "@ + raw.name)),
        canonical_key(raw.name) matches Some((layer, role)) ==> {
            &&& layer >= cfg.num_layers ==> mapping_of(cfg, raw) == Err::<
                (usize, Seq<Placement>),
                _,
            >(
                (EvokeFault::ShapeMismatch {
                    key: raw.name,
                    expected: seq![cfg.num_layers],
                    got: seq![layer],
                }),
            )
            &&& layer < cfg.num_layers && expected_shape(cfg, role) != Some(raw.shape)
                ==> (mapping_of(cfg, raw) matches Err(EvokeFault::ShapeMismatch {
                key,
                expected,
                got,
            }) && key == raw.name && got == raw.shape && expected != got && expected_shape(
                cfg,
                role,
            ) == Some(expected))
        },
{
    if canonical_key(raw.name) is Some {
        let (layer, role) = canonical_key(raw.name).unwrap();
        assert(role_of(raw.name) == Some(role));
        assert(expected_shape(cfg, role) is Some);
    }
}

/// The shape of a role: square for the output matrix, one row for each part of the fused matrices,
/// and a vector for the norms. Nothing else has a shape.
pub proof fn roles_have_their_shapes(cfg: GlmConfig, role: Seq<char>, shape: Seq<usize>)
    requires
        cfg.dims_fit(),
    ensures
        expected_shape(cfg, role) == Some(shape) <==> {
            let h = cfg.hidden_size;
            let kv = cfg.spec_kv_dim();
            ||| {
                &&& role == "attn.qkv"@
                &&& shape.len() == 2 && shape[0] == h + kv + kv && shape[1] == h
            }
            ||| {
                &&& role == "mlp.gate_up"@
                &&& shape.len() == 2 && shape[1] == h && shape[0] == cfg.intermediate_size
                    + cfg.intermediate_size
            }
            ||| role == "attn.o_proj"@ && shape == seq![h, h]
            ||| role == "mlp.down"@ && shape == seq![h, cfg.intermediate_size]
            ||| role == "input_norm"@ && shape == seq![h]
            ||| role == "post_norm"@ && shape == seq![h]
        },
{
    roles_are_distinct();
    if shape.len() == 2 {
        assert(shape =~= seq![shape[0], shape[1]]);
    }
}

/// A shape that is not accepted is reported with the name of the tensor, the shape of its role and
/// its own; a role without a shape is reported with its name.
pub proof fn refused_shapes_are_explained(
    cfg: GlmConfig,
    role: Seq<char>,
    got: Seq<usize>,
    name: Seq<char>,
)
    ensures
        match expected_shape(cfg, role) {
            Some(expected) => shape_fault(cfg, role, got, name) == (EvokeFault::ShapeMismatch {
                key: name,
                expected,
                got,
            }),
            None => shape_fault(cfg, role, got, name) == EvokeFault::Config(
                "no shape rule for "@ + role + " ("@ + name + ")"@,
            ),
        },
{
}

/// The tensors of a shard are mapped one after the other: a shard in two portions contributes what
/// the first portion contributes and then what the second does, with the records of both; an error
/// in the first portion is the error of the whole, and the second is then not looked at.
pub proof fn shards_are_mapped_in_portions(cfg: GlmConfig, a: Seq<RawModel>, b: Seq<RawModel>)
    ensures
        ({
            let first = shard_mapping(cfg, a);
            let second = shard_mapping(cfg, b);
            let both = shard_mapping(cfg, a + b);
            match (first.result, second.result) {
                (Err(_), _) => both == first,
                (Ok(_), Err(fault)) => both.records == first.records + second.records
                    && both.result == Err::<Seq<Placement>, EvokeFault>(fault),
                (Ok(x), Ok(y)) => both.records == first.records + second.records && both.result
                    == Ok::<_, EvokeFault>(x + y),
            }
        }),
    decreases b.len(),
{
    let first = shard_mapping(cfg, a);
    if b.len() == 0 {
        assert(a + b =~= a);
        assert(first.records + Seq::<RecordModel>::empty() =~= first.records);
        if first.result is Ok {
            assert(first.result->Ok_0 + Seq::<Placement>::empty() =~= first.result->Ok_0);
        }
    } else {
        let front = b.drop_last();
        assert((a + b).drop_last() =~= a + front);
        assert((a + b).last() == b.last());
        shards_are_mapped_in_portions(cfg, a, front);
        let before = shard_mapping(cfg, front);
        if first.result is Ok && before.result is Ok && mapping_of(cfg, b.last()) is Ok {
            let (layer, more) = mapping_of(cfg, b.last())->Ok_0;
            let record = map_record(layer, b.last().name);
            assert((first.records + before.records).push(record) =~= first.records
                + before.records.push(record));
            assert((first.result->Ok_0 + before.result->Ok_0) + more =~= first.result->Ok_0 + (
            before.result->Ok_0 + more));
        }
    }
}

/// A shard of one tensor contributes what the tensor does, and records that the tensor was mapped,
/// by its layer and its name; a shard of none contributes nothing.
pub proof fn single_tensors_are_mapped(cfg: GlmConfig, raw: RawModel)
    ensures
        shard_mapping(cfg, Seq::empty()).records == Seq::<RecordModel>::empty(),
        shard_mapping(cfg, Seq::empty()).result == Ok::<_, EvokeFault>(Seq::<Placement>::empty()),
        match mapping_of(cfg, raw) {
            Ok((layer, tensors)) => {
                let mapped = shard_mapping(cfg, seq![raw]);
                &&& mapped.result == Ok::<_, EvokeFault>(tensors)
                &&& mapped.records.len() == 1
                &&& mapped.records[0].seq == 0
                &&& mapped.records[0].phase == "map"@
                &&& mapped.records[0].layer == Some(layer)
                &&& mapped.records[0].detail == "mapped "@ + raw.name
            },
            Err(fault) => {
                let mapped = shard_mapping(cfg, seq![raw]);
                &&& mapped.result == Err::<Seq<Placement>, _>(fault)
                &&& mapped.records.len() == 0
            },
        },
{
    let one = seq![raw];
    assert(one.drop_last() =~= Seq::<RawModel>::empty());
    assert(one.last() == raw);
    assert(shard_mapping(cfg, one.drop_last()).result == Ok::<_, EvokeFault>(
        Seq::<Placement>::empty(),
    ));
    if mapping_of(cfg, raw) is Ok {
        let (_, tensors) = mapping_of(cfg, raw)->Ok_0;
        assert(Seq::<Placement>::empty() + tensors =~= tensors);
    }
}

/// A tensor would have to be split though it has no elements exactly if it is a fused matrix of
/// the right shape of a layer of the model, and that shape has no rows or no columns: the model
/// has no width or, for the network matrix, no inner width.
pub proof fn only_models_without_width_split_nothing(cfg: GlmConfig, raw: RawModel)
    requires
        cfg.dims_fit(),
    ensures
        is_empty_fused(cfg, raw) <==> (canonical_key(raw.name) matches Some((layer, role))
            && layer < cfg.num_layers && expected_shape(cfg, role) == Some(raw.shape) && {
            ||| role == "attn.qkv"@ && cfg.hidden_size == 0
            ||| role == "mlp.gate_up"@ && (cfg.hidden_size == 0 || cfg.intermediate_size == 0)
        }),
{
    roles_are_distinct();
    if canonical_key(raw.name) is Some {
        let (layer, role) = canonical_key(raw.name).unwrap();
        if expected_shape(cfg, role) == Some(raw.shape) {
            roles_have_their_shapes(cfg, role, raw.shape);
            if role == "attn.qkv"@ || role == "mlp.gate_up"@ {
                let rows = raw.shape[0] as int;
                let cols = raw.shape[1] as int;
                assert(rows * cols == 0 <==> rows == 0 || cols == 0) by (nonlinear_arith);
            }
        }
    }
}

/// Whether the bytes from `i` up to the eighth spell `n`, the lowest one first.
pub open spec fn is_written_from(bytes: Seq<u8>, i: int, n: nat) -> bool
    decreases 8 - i,
{
    if i >= 8 {
        n == 0
    } else {
        bytes[i] == n % 256 && is_written_from(bytes, i + 1, n / 256)
    }
}

/// A file is refused if it is not in the format, or if an end offset in its header overflows when
/// the length of the header and of its prefix is added; every other file holds what the format
/// says.
pub proof fn readable_files_are_read(bytes: Seq<u8>, len: nat)
    requires
        bytes.len() >= 8 ==> is_written_from(bytes, 0, len),
    ensures
        readable_content(bytes) is None <==> safetensors_content(bytes) is None || {
            &&& bytes.len() >= 8
            &&& len <= 100_000_000
            &&& 8 + len <= bytes.len()
            &&& header_ends(bytes.subrange(8, 8 + len as int)) matches Some(ends)
            &&& exists|end: usize| #[trigger] ends.contains(end) && end + 8 + len > usize::MAX
        },
        readable_content(bytes) matches Some(content) ==> safetensors_content(bytes) == Some(
            content,
        ),
{
    if bytes.len() >= 8 {
        low_byte_first(bytes, len);
    }
}

/// The length of a header is written with its lowest byte first.
proof fn low_byte_first(bytes: Seq<u8>, len: nat)
    requires
        is_written_from(bytes, 0, len),
    ensures
        header_length(bytes) == len,
{
    reveal_with_fuel(is_written_from, 9);
    let q1 = len / 256;
    let q2 = q1 / 256;
    let q3 = q2 / 256;
    let q4 = q3 / 256;
    let q5 = q4 / 256;
    let q6 = q5 / 256;
    let q7 = q6 / 256;
    assert(len == bytes[0] + 256 * q1 && q1 == bytes[1] + 256 * q2 && q2 == bytes[2] + 256 * q3
        && q3 == bytes[3] + 256 * q4 && q4 == bytes[4] + 256 * q5 && q5 == bytes[5] + 256 * q6
        && q6 == bytes[6] + 256 * q7 && q7 == bytes[7]);
}

/// Where the model has a width and an inner width, every file can be mapped; otherwise a file
/// cannot be mapped exactly if it can be read and one of its tensors would have to be split though
/// it has no elements.
pub proof fn unmappable_files_hold_an_empty_matrix(cfg: GlmConfig, bytes: Seq<u8>)
    requires
        cfg.dims_fit(),
    ensures
        cfg.hidden_size > 0 && cfg.intermediate_size > 0 ==> !is_unmappable(cfg, bytes),
        is_unmappable(cfg, bytes) <==> (readable_content(bytes) matches Some(content) && exists|
            name: Seq<char>,
        | #[trigger]
            content.contains_key(name) && is_empty_fused(
                cfg,
                RawModel {
                    name,
                    dtype: content[name].0,
                    shape: content[name].1,
                    data: content[name].2,
                },
            )),
{
    assert forall|raw: RawModel| #[trigger] is_empty_fused(cfg, raw) implies cfg.hidden_size == 0
        || cfg.intermediate_size == 0 by {
        only_models_without_width_split_nothing(cfg, raw);
    }
}

} // verus!
