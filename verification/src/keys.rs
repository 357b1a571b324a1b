//! Tensor keys: how checkpoints name their tensors, and how the library names them.

use vstd::prelude::*;
use vstd::string::StringExecFns;

use crate::text::chars_of;
use crate::text::contains_text;
use crate::text::decimal;
use crate::text::decimal_is_digits;
use crate::text::decimal_round_trip;
use crate::text::find_text;
use crate::text::first_occurrence;
use crate::text::first_occurrence_holds;
use crate::text::has_text;
use crate::text::is_digit;
use crate::text::parse_usize;
use crate::text::parsed_usize;
use crate::text::push_decimal;

verus! {

/// What stands between the first `.layers.` of a tensor name and the dot that follows.
pub open spec fn layer_part(raw: Seq<char>) -> Option<Seq<char>> {
    match first_occurrence(raw, ".layers."@) {
        Some(at) => {
            let rest = raw.skip((at + ".layers."@.len()) as int);
            match first_occurrence(rest, "."@) {
                Some(dot) => Some(rest.take(dot)),
                None => None,
            }
        },
        None => None,
    }
}

/// The role of a tensor, by the part of its name that gives it away.
pub open spec fn role_of(raw: Seq<char>) -> Option<Seq<char>> {
    if contains_text(raw, "query_key_value.weight"@) {
        Some("attn.qkv"@)
    } else if contains_text(raw, "self_attention.dense.weight"@) {
        Some("attn.o_proj"@)
    } else if contains_text(raw, "dense_h_to_4h.weight"@) {
        Some("mlp.gate_up"@)
    } else if contains_text(raw, "dense_4h_to_h.weight"@) {
        Some("mlp.down"@)
    } else if contains_text(raw, "input_layernorm.weight"@) {
        Some("input_norm"@)
    } else if contains_text(raw, "post_attention_layernorm.weight"@) {
        Some("post_norm"@)
    } else {
        None
    }
}

/// The layer and the role that a tensor name stands for.
pub open spec fn canonical_key(raw: Seq<char>) -> Option<(usize, Seq<char>)> {
    match (layer_part(raw), role_of(raw)) {
        (Some(part), Some(role)) => match parsed_usize(part) {
            Some(layer) => Some((layer, role)),
            None => None,
        },
        _ => None,
    }
}

/// The layer and the role of a tensor with a GLM-4 style name, such as
/// `transformer.encoder.layers.3.self_attention.query_key_value.weight`.
pub fn canonical_glm_key(raw: &str) -> (key: Option<(usize, &'static str)>)
    ensures
        match key {
            Some((layer, role)) => canonical_key(raw@) == Some((layer, role@)),
            None => canonical_key(raw@) is None,
        },
{
    let name: Vec<char> = chars_of(raw);
    assert(name@.skip(0) =~= name@);
    let marker: Vec<char> = chars_of(".layers.");
    let at: usize = match find_text(&name, 0, ".layers.") {
        Some(at) => at,
        None => {
            return None;
        },
    };
    proof {
        first_occurrence_holds(name@, marker@, at as int);
        assert(at + marker@.len() <= name.len());
    }
    let start: usize = at + marker.len();
    let dot: usize = match find_text(&name, start, ".") {
        Some(dot) => dot,
        None => {
            return None;
        },
    };
    proof {
        first_occurrence_holds(name@.skip(start as int), "."@, dot as int);
        assert(name@.skip(start as int).take(dot as int) =~= name@.subrange(
            start as int,
            start + dot,
        ));
    }
    let layer: usize = match parse_usize(&name, start, start + dot) {
        Some(layer) => layer,
        None => {
            return None;
        },
    };
    let role: &'static str = if has_text(&name, "query_key_value.weight") {
        "attn.qkv"
    } else if has_text(&name, "self_attention.dense.weight") {
        "attn.o_proj"
    } else if has_text(&name, "dense_h_to_4h.weight") {
        "mlp.gate_up"
    } else if has_text(&name, "dense_4h_to_h.weight") {
        "mlp.down"
    } else if has_text(&name, "input_layernorm.weight") {
        "input_norm"
    } else if has_text(&name, "post_attention_layernorm.weight") {
        "post_norm"
    } else {
        return None;
    };
    Some((layer, role))
}

/// The library's name for a tensor of layer `layer`.
pub open spec fn layer_key(layer: nat, part: Seq<char>) -> Seq<char> {
    "layer."@ + decimal(layer) + "."@ + part
}

/// The library's name for a tensor of layer `layer`.
pub fn layer_key_text(layer: usize, part: &str) -> (key: String)
    ensures
        key@ == layer_key(layer as nat, part@),
{
    let mut key: String = "layer.".to_owned();
    push_decimal(&mut key, layer as u128);
    key.append(".");
    key.append(part);
    key
}

/// Two tensors have the same name only if they belong to the same layer and have the same part.
pub proof fn layer_keys_are_unique(layer1: nat, part1: Seq<char>, layer2: nat, part2: Seq<char>)
    requires
        layer_key(layer1, part1) == layer_key(layer2, part2),
    ensures
        layer1 == layer2,
        part1 == part2,
{
    reveal_strlit(".");
    let prefix = "layer."@;
    let d1 = decimal(layer1);
    let d2 = decimal(layer2);
    decimal_is_digits(layer1);
    decimal_is_digits(layer2);
    let k1 = layer_key(layer1, part1);
    let k2 = layer_key(layer2, part2);
    let n = prefix.len() as int;
    assert(k1[n + d1.len()] == '.');
    assert(k2[n + d2.len()] == '.');
    if d1.len() < d2.len() {
        assert(k2[n + d1.len()] == d2[d1.len() as int]);
        assert(is_digit(d2[d1.len() as int]));
    }
    if d2.len() < d1.len() {
        assert(k1[n + d2.len()] == d1[d2.len() as int]);
        assert(is_digit(d1[d2.len() as int]));
    }
    assert(d1.len() == d2.len());
    assert(d1 =~= k1.subrange(n, n + d1.len()));
    assert(d2 =~= k2.subrange(n, n + d2.len()));
    decimal_round_trip(layer1);
    decimal_round_trip(layer2);
    assert(part1 =~= k1.skip(n + d1.len() + 1));
    assert(part2 =~= k2.skip(n + d2.len() + 1));
}

/// How many tensors a layer has.
pub const SLOTS: usize = 9;

/// The parts of a layer, in the order in which they are placed.
pub open spec fn slot_part(slot: int) -> Seq<char> {
    if slot == 0 {
        "attn.q"@
    } else if slot == 1 {
        "attn.k"@
    } else if slot == 2 {
        "attn.v"@
    } else if slot == 3 {
        "attn.o_proj"@
    } else if slot == 4 {
        "mlp.gate"@
    } else if slot == 5 {
        "mlp.up"@
    } else if slot == 6 {
        "mlp.down"@
    } else if slot == 7 {
        "input_norm"@
    } else {
        "post_norm"@
    }
}

/// No two parts of a layer have the same name.
pub proof fn slot_parts_are_unique(slot1: int, slot2: int)
    requires
        0 <= slot1 < SLOTS,
        0 <= slot2 < SLOTS,
        slot_part(slot1) == slot_part(slot2),
    ensures
        slot1 == slot2,
{
    reveal_strlit("attn.q");
    reveal_strlit("attn.k");
    reveal_strlit("attn.v");
    reveal_strlit("attn.o_proj");
    reveal_strlit("mlp.gate");
    reveal_strlit("mlp.up");
    reveal_strlit("mlp.down");
    reveal_strlit("input_norm");
    reveal_strlit("post_norm");
    assert("attn.q"@[5] == 'q' && "attn.k"@[5] == 'k' && "attn.v"@[5] == 'v' && "mlp.up"@[5]
        == 'p');
    assert("mlp.gate"@[4] == 'g' && "mlp.down"@[4] == 'd');
    assert("attn.q"@.len() == 6 && "attn.k"@.len() == 6 && "attn.v"@.len() == 6 && "mlp.up"@.len()
        == 6);
    assert("attn.o_proj"@.len() == 11 && "mlp.gate"@.len() == 8 && "mlp.down"@.len() == 8
        && "input_norm"@.len() == 10 && "post_norm"@.len() == 9);
}

} // verus!
