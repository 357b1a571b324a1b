//! From the tensors of a shard to the tensors of the model: key mapping, shape checks, and the
//! splits of the fused matrices.

use vstd::arithmetic::div_mod::*;
use vstd::arithmetic::mul::*;
use vstd::prelude::*;
use vstd::slice::slice_subrange;
use vstd::slice::slice_to_vec;
use vstd::string::StringExecFns;

use crate::config::GlmConfig;
use crate::error::EvokeError;
use crate::error::EvokeFault;
use crate::keys::canonical_glm_key;
use crate::keys::canonical_key;
use crate::keys::layer_key;
use crate::keys::layer_key_text;
use crate::shard::declares_overflow;
use crate::shard::element_count;
use crate::shard::enumerates;
use crate::shard::is_well_sized;
use crate::shard::matrix_element_count;
use crate::shard::overflows_offsets;
use crate::shard::raw_models;
use crate::shard::read_tensors;
use crate::shard::safetensors_content;
use crate::shard::RawModel;
use crate::shard::RawTensor;
use crate::telemetry::record_models;
use crate::telemetry::ExecutionRecord;
use crate::telemetry::RecordModel;
use crate::text::decimal;
use crate::text::join2;
use crate::text::push_decimal;
use crate::text::same_text;
use crate::worm::copy_shape;
use crate::worm::DType;
use crate::worm::Placement;

verus! {

/// The shape that the configuration asks of a tensor with the given role.
pub open spec fn expected_shape(cfg: GlmConfig, role: Seq<char>) -> Option<Seq<usize>> {
    let hidden = cfg.hidden_size;
    if role == "attn.qkv"@ {
        Some(seq![cfg.spec_qkv_fused_dim() as usize, hidden])
    } else if role == "attn.o_proj"@ {
        Some(seq![hidden, hidden])
    } else if role == "mlp.gate_up"@ {
        Some(seq![(cfg.intermediate_size * 2) as usize, hidden])
    } else if role == "mlp.down"@ {
        Some(seq![hidden, cfg.intermediate_size])
    } else if role == "input_norm"@ || role == "post_norm"@ {
        Some(seq![hidden])
    } else {
        None
    }
}

/// What is reported of a tensor whose shape is not the expected one.
pub open spec fn shape_fault(
    cfg: GlmConfig,
    role: Seq<char>,
    got: Seq<usize>,
    name: Seq<char>,
) -> EvokeFault {
    match expected_shape(cfg, role) {
        Some(expected) => EvokeFault::ShapeMismatch { key: name, expected, got },
        None => EvokeFault::Config("no shape rule for "@ + role + " ("@ + name + ")"@),
    }
}

/// Whether two shapes are the same.
fn same_shape(a: &[usize], b: &[usize]) -> (same: bool)
    ensures
        same == (a@ == b@),
{
    if a.len() != b.len() {
        return false;
    }
    let mut i: usize = 0;
    while i < a.len()
        invariant
            i <= a@.len(),
            a@.len() == b@.len(),
            forall|j: int| 0 <= j < i ==> a@[j] == b@[j],
        decreases a@.len() - i,
    {
        if a[i] != b[i] {
            return false;
        }
        i += 1;
    }
    proof {
        assert(a@ =~= b@);
    }
    true
}

/// Whether the shape that the configuration asks of a tensor with the given role can be computed.
pub open spec fn rule_fits(cfg: GlmConfig, role: Seq<char>) -> bool {
    &&& role == "attn.qkv"@ ==> cfg.num_attention_heads != 0 && cfg.spec_qkv_fused_dim()
        <= usize::MAX
    &&& role == "mlp.gate_up"@ ==> cfg.intermediate_size * 2 <= usize::MAX
}

/// Checks a tensor against the shape that the configuration asks for.
pub fn assert_expected_shape(
    cfg: &GlmConfig,
    role: &str,
    got: &[usize],
    name: &str,
) -> (checked: Result<(), EvokeError>)
    requires
        rule_fits(*cfg, role@),
    ensures
        checked is Ok <==> expected_shape(*cfg, role@) == Some(got@),
        match checked {
            Ok(_) => true,
            Err(e) => e@ == shape_fault(*cfg, role@, got@, name@),
        },
{
    let hidden: usize = cfg.hidden_size;
    let expected: Vec<usize> = if same_text(role, "attn.qkv") {
        vec![cfg.qkv_fused_dim(), hidden]
    } else if same_text(role, "attn.o_proj") {
        vec![hidden, hidden]
    } else if same_text(role, "mlp.gate_up") {
        vec![cfg.intermediate_size * 2, hidden]
    } else if same_text(role, "mlp.down") {
        vec![hidden, cfg.intermediate_size]
    } else if same_text(role, "input_norm") || same_text(role, "post_norm") {
        vec![hidden]
    } else {
        let mut msg: String = join2("no shape rule for ", role);
        msg.append(" (");
        msg.append(name);
        msg.append(")");
        return Err(EvokeError::Config(msg));
    };
    proof {
        assert(expected_shape(*cfg, role@)->0 =~= expected@);
    }
    if !same_shape(got, expected.as_slice()) {
        return Err(
            EvokeError::ShapeMismatch { key: name.to_owned(), expected, got: copy_shape(got) },
        );
    }
    Ok(())
}

/// The element type that stands for the one a shard declares. Types that the library does not
/// know are taken as `BF16`.
pub open spec fn dtype_named(name: Seq<char>) -> DType {
    if name == "F32"@ {
        DType::F32
    } else if name == "F16"@ {
        DType::F16
    } else {
        DType::BF16
    }
}

/// The element type that stands for the one a shard declares.
pub fn dtype_of(name: &str) -> (dtype: DType)
    ensures
        dtype == dtype_named(name@),
{
    if same_text(name, "F32") {
        DType::F32
    } else if same_text(name, "F16") {
        DType::F16
    } else {
        DType::BF16
    }
}

/// A piece of a fused matrix.
#[derive(Debug)]
pub struct TensorPart {
    pub tag: &'static str,
    pub data: Vec<u8>,
    pub shape: Vec<usize>,
}

/// A [`TensorPart`] as a mathematical value.
pub ghost struct PartModel {
    pub tag: Seq<char>,
    pub data: Seq<u8>,
    pub shape: Seq<usize>,
}

impl View for TensorPart {
    type V = PartModel;

    open spec fn view(&self) -> PartModel {
        PartModel { tag: self.tag@, data: self.data@, shape: self.shape@ }
    }
}

/// The pieces as mathematical values.
pub open spec fn part_models(parts: Seq<TensorPart>) -> Seq<PartModel> {
    parts.map_values(|p: TensorPart| p@)
}

/// The outcome of a split as a mathematical value.
pub open spec fn split_model(split: Result<Vec<TensorPart>, EvokeError>) -> Result<
    Seq<PartModel>,
    EvokeFault,
> {
    match split {
        Ok(parts) => Ok(part_models(parts@)),
        Err(e) => Err(e@),
    }
}

/// Bytes of one element of a matrix with the given shape.
pub open spec fn element_size(len: nat, shape: Seq<usize>) -> nat {
    len / (shape[0] as nat * shape[1] as nat)
}

/// The query, key and value rows of a fused matrix that is stored row by row.
pub open spec fn fused_qkv_parts(data: Seq<u8>, shape: Seq<usize>, cfg: GlmConfig) -> Result<
    Seq<PartModel>,
    EvokeFault,
> {
    let elem = element_size(data.len(), shape);
    let row = shape[1] as nat * elem;
    let q_end = (cfg.hidden_size as nat * row) as int;
    let k_end = q_end + cfg.spec_kv_dim() * row;
    if elem != 2 && elem != 4 {
        Err(EvokeFault::Config("unexpected elem size "@ + decimal(elem) + " for qkv"@))
    } else if shape[0] as nat != cfg.spec_qkv_fused_dim() {
        Err(
            EvokeFault::Config(
                "qkv row mismatch: "@ + decimal(shape[0] as nat) + " vs "@ + decimal(
                    cfg.spec_qkv_fused_dim(),
                ),
            ),
        )
    } else {
        let kv = cfg.spec_kv_dim() as usize;
        Ok(
            seq![
                PartModel {
                    tag: "q"@,
                    data: data.take(q_end),
                    shape: seq![cfg.hidden_size, shape[1]],
                },
                PartModel {
                    tag: "k"@,
                    data: data.subrange(q_end, k_end),
                    shape: seq![kv, shape[1]],
                },
                PartModel { tag: "v"@, data: data.skip(k_end), shape: seq![kv, shape[1]] },
            ],
        )
    }
}

/// The rows of a matrix with whole elements lie within its bytes.
proof fn rows_lie_within(len: nat, rows: nat, cols: nat, first: nat, second: nat)
    requires
        rows * cols != 0,
        first + second <= rows,
    ensures
        ({
            let row = cols * (len / (rows * cols));
            &&& row <= len
            &&& first * row + second * row <= len
            &&& first * row >= 0
            &&& second * row >= 0
        }),
{
    let area = rows * cols;
    let elem = len / area;
    let row = cols * elem;
    assert(rows >= 1 && cols >= 1) by (nonlinear_arith)
        requires
            rows * cols != 0,
    ;
    lemma_fundamental_div_mod(len as int, area as int);
    assert(area * elem == rows * row) by (nonlinear_arith)
        requires
            area == rows * cols,
            row == cols * elem,
    ;
    assert(rows * row <= len);
    assert(row <= rows * row) by (nonlinear_arith)
        requires
            rows >= 1,
            row >= 0,
    ;
    assert(first * row + second * row <= rows * row) by (nonlinear_arith)
        requires
            first + second <= rows,
            row >= 0,
    ;
    lemma_mul_nonnegative(first as int, row as int);
    lemma_mul_nonnegative(second as int, row as int);
}

/// Splits the fused query, key and value matrix by rows, byte for byte.
pub fn split_fused_qkv(data: &[u8], shape: &[usize], cfg: &GlmConfig) -> (split: Result<
    Vec<TensorPart>,
    EvokeError,
>)
    requires
        shape@.len() >= 2,
        shape@[0] * shape@[1] != 0,
        shape@[0] * shape@[1] <= usize::MAX,
        (element_size(data@.len(), shape@) == 2 || element_size(data@.len(), shape@) == 4) ==> {
            &&& cfg.num_attention_heads != 0
            &&& cfg.spec_qkv_fused_dim() <= usize::MAX
        },
    ensures
        split_model(split) == fused_qkv_parts(data@, shape@, *cfg),
{
    let rows: usize = shape[0];
    let cols: usize = shape[1];
    let elem: usize = data.len() / (rows * cols);
    if elem != 2 && elem != 4 {
        let mut msg: String = "unexpected elem size ".to_owned();
        push_decimal(&mut msg, elem as u128);
        msg.append(" for qkv");
        return Err(EvokeError::Config(msg));
    }
    let fused: usize = cfg.qkv_fused_dim();
    if rows != fused {
        let mut msg: String = "qkv row mismatch: ".to_owned();
        push_decimal(&mut msg, rows as u128);
        msg.append(" vs ");
        push_decimal(&mut msg, fused as u128);
        return Err(EvokeError::Config(msg));
    }
    let q_rows: usize = cfg.hidden_size;
    let kv_rows: usize = cfg.kv_dim();
    proof {
        rows_lie_within(
            data@.len(),
            rows as nat,
            cols as nat,
            q_rows as nat,
            kv_rows as nat,
        );
    }
    let row: usize = cols * elem;
    let q_end: usize = q_rows * row;
    let k_end: usize = q_end + kv_rows * row;
    let q: Vec<u8> = slice_to_vec(slice_subrange(data, 0, q_end));
    let k: Vec<u8> = slice_to_vec(slice_subrange(data, q_end, k_end));
    let v: Vec<u8> = slice_to_vec(slice_subrange(data, k_end, data.len()));
    let parts: Vec<TensorPart> = vec![
        TensorPart { tag: "q", data: q, shape: vec![q_rows, cols] },
        TensorPart { tag: "k", data: k, shape: vec![kv_rows, cols] },
        TensorPart { tag: "v", data: v, shape: vec![kv_rows, cols] },
    ];
    proof {
        let model = fused_qkv_parts(data@, shape@, *cfg)->Ok_0;
        assert(parts@[0]@.data =~= model[0].data && parts@[0]@.shape =~= model[0].shape);
        assert(parts@[1]@.data =~= model[1].data && parts@[1]@.shape =~= model[1].shape);
        assert(parts@[2]@.data =~= model[2].data && parts@[2]@.shape =~= model[2].shape);
        assert(part_models(parts@) =~= model);
    }
    Ok(parts)
}

/// The halves `gate` and `up` of a fused matrix that is stored row by row.
pub open spec fn gate_up_parts(data: Seq<u8>, shape: Seq<usize>, cfg: GlmConfig) -> Result<
    Seq<PartModel>,
    EvokeFault,
> {
    let half = (cfg.intermediate_size as nat * (shape[1] as nat * element_size(
        data.len(),
        shape,
    ))) as int;
    if shape[0] != cfg.intermediate_size * 2 {
        Err(EvokeFault::Config("mlp gate_up row mismatch "@ + decimal(shape[0] as nat)))
    } else {
        Ok(
            seq![
                PartModel {
                    tag: "gate"@,
                    data: data.take(half),
                    shape: seq![cfg.intermediate_size, shape[1]],
                },
                PartModel {
                    tag: "up"@,
                    data: data.skip(half),
                    shape: seq![cfg.intermediate_size, shape[1]],
                },
            ],
        )
    }
}

/// Splits the fused gate and up matrix into its halves, byte for byte.
pub fn split_mlp_gate_up(data: &[u8], shape: &[usize], cfg: &GlmConfig) -> (split: Result<
    Vec<TensorPart>,
    EvokeError,
>)
    requires
        shape@.len() >= 2,
        shape@[0] * shape@[1] != 0,
        shape@[0] * shape@[1] <= usize::MAX,
        cfg.intermediate_size * 2 <= usize::MAX,
    ensures
        split_model(split) == gate_up_parts(data@, shape@, *cfg),
{
    let rows: usize = shape[0];
    let cols: usize = shape[1];
    let elem: usize = data.len() / (rows * cols);
    let half_rows: usize = cfg.intermediate_size;
    if rows != half_rows * 2 {
        let mut msg: String = "mlp gate_up row mismatch ".to_owned();
        push_decimal(&mut msg, rows as u128);
        return Err(EvokeError::Config(msg));
    }
    proof {
        rows_lie_within(data@.len(), rows as nat, cols as nat, half_rows as nat, half_rows as nat);
    }
    let row: usize = cols * elem;
    let half: usize = half_rows * row;
    let gate: Vec<u8> = slice_to_vec(slice_subrange(data, 0, half));
    let up: Vec<u8> = slice_to_vec(slice_subrange(data, half, data.len()));
    let parts: Vec<TensorPart> = vec![
        TensorPart { tag: "gate", data: gate, shape: vec![half_rows, cols] },
        TensorPart { tag: "up", data: up, shape: vec![half_rows, cols] },
    ];
    proof {
        let model = gate_up_parts(data@, shape@, *cfg)->Ok_0;
        assert(parts@[0]@.data =~= model[0].data && parts@[0]@.shape =~= model[0].shape);
        assert(parts@[1]@.data =~= model[1].data && parts@[1]@.shape =~= model[1].shape);
        assert(part_models(parts@) =~= model);
    }
    Ok(parts)
}

/// The bytes of the pieces, one after the other.
pub open spec fn joined_data(parts: Seq<PartModel>) -> Seq<u8>
    decreases parts.len(),
{
    if parts.len() == 0 {
        Seq::empty()
    } else {
        joined_data(parts.drop_last()) + parts.last().data
    }
}

/// Splitting loses nothing: the query, key and value pieces, put together, are the matrix.
pub proof fn qkv_split_is_lossless(data: Seq<u8>, shape: Seq<usize>, cfg: GlmConfig)
    requires
        shape.len() >= 2,
        shape[0] * shape[1] != 0,
        cfg.num_attention_heads != 0,
        fused_qkv_parts(data, shape, cfg) is Ok,
    ensures
        joined_data(fused_qkv_parts(data, shape, cfg)->Ok_0) == data,
{
    let parts = fused_qkv_parts(data, shape, cfg)->Ok_0;
    rows_lie_within(
        data.len(),
        shape[0] as nat,
        shape[1] as nat,
        cfg.hidden_size as nat,
        cfg.spec_kv_dim(),
    );
    reveal_with_fuel(joined_data, 4);
    assert(parts.drop_last().drop_last().drop_last() =~= Seq::<PartModel>::empty());
    assert(joined_data(parts) =~= data);
}

/// Splitting loses nothing: the halves `gate` and `up`, put together, are the matrix.
pub proof fn gate_up_split_is_lossless(data: Seq<u8>, shape: Seq<usize>, cfg: GlmConfig)
    requires
        shape.len() >= 2,
        shape[0] * shape[1] != 0,
        gate_up_parts(data, shape, cfg) is Ok,
    ensures
        joined_data(gate_up_parts(data, shape, cfg)->Ok_0) == data,
{
    let parts = gate_up_parts(data, shape, cfg)->Ok_0;
    rows_lie_within(
        data.len(),
        shape[0] as nat,
        shape[1] as nat,
        cfg.intermediate_size as nat,
        cfg.intermediate_size as nat,
    );
    reveal_with_fuel(joined_data, 3);
    assert(parts.drop_last().drop_last() =~= Seq::<PartModel>::empty());
    assert(joined_data(parts) =~= data);
}

/// Where the bytes of the fused matrix are whole elements of two or four bytes, every piece
/// holds exactly the elements that its shape announces.
pub proof fn qkv_pieces_match_their_shapes(
    data: Seq<u8>,
    shape: Seq<usize>,
    cfg: GlmConfig,
    elem: nat,
)
    requires
        cfg.dims_fit(),
        shape.len() == 2,
        shape[0] * shape[1] != 0,
        shape[0] as nat == cfg.spec_qkv_fused_dim(),
        elem == 2 || elem == 4,
        data.len() == shape[0] * shape[1] * elem,
    ensures
        fused_qkv_parts(data, shape, cfg) is Ok,
        forall|i: int|
            0 <= i < 3 ==> (#[trigger] fused_qkv_parts(data, shape, cfg)->Ok_0[i]).data.len()
                == element_count(fused_qkv_parts(data, shape, cfg)->Ok_0[i].shape) * elem,
{
    let rows = shape[0] as nat;
    let cols = shape[1] as nat;
    let area = (rows * cols) as int;
    lemma_div_multiples_vanish(elem as int, area);
    lemma_mul_is_commutative(area, elem as int);
    let row = cols * elem;
    let q = cfg.hidden_size as nat;
    let kv = cfg.spec_kv_dim();
    rows_lie_within(data.len(), rows, cols, q, kv);
    assert(data.len() == q * row + kv * row + kv * row) by (nonlinear_arith)
        requires
            data.len() == rows * cols * elem,
            rows == q + 2 * kv,
            row == cols * elem,
    ;
    assert(q * row == q * cols * elem && kv * row == kv * cols * elem) by (nonlinear_arith)
        requires
            row == cols * elem,
    ;
    let parts = fused_qkv_parts(data, shape, cfg)->Ok_0;
    assert forall|i: int| 0 <= i < 3 implies (#[trigger] parts[i]).data.len() == element_count(
        parts[i].shape,
    ) * elem by {
        matrix_element_count(parts[i].shape);
    }
}

/// Where the bytes of the fused matrix are whole elements, each half holds exactly the elements
/// that its shape announces.
pub proof fn gate_up_pieces_match_their_shapes(
    data: Seq<u8>,
    shape: Seq<usize>,
    cfg: GlmConfig,
    elem: nat,
)
    requires
        shape.len() == 2,
        shape[0] * shape[1] != 0,
        shape[0] == cfg.intermediate_size * 2,
        data.len() == shape[0] * shape[1] * elem,
    ensures
        gate_up_parts(data, shape, cfg) is Ok,
        forall|i: int|
            0 <= i < 2 ==> (#[trigger] gate_up_parts(data, shape, cfg)->Ok_0[i]).data.len()
                == element_count(gate_up_parts(data, shape, cfg)->Ok_0[i].shape) * elem,
{
    let rows = shape[0] as nat;
    let cols = shape[1] as nat;
    let half_rows = cfg.intermediate_size as nat;
    let area = (rows * cols) as int;
    lemma_div_multiples_vanish(elem as int, area);
    lemma_mul_is_commutative(area, elem as int);
    assert(element_size(data.len(), shape) == elem);
    let half = half_rows * (cols * elem);
    assert(data.len() == half + half && half == half_rows * cols * elem) by (nonlinear_arith)
        requires
            data.len() == rows * cols * elem,
            rows == half_rows * 2,
            half == half_rows * (cols * elem),
    ;
    let parts = gate_up_parts(data, shape, cfg)->Ok_0;
    assert forall|i: int| 0 <= i < 2 implies (#[trigger] parts[i]).data.len() == element_count(
        parts[i].shape,
    ) * elem by {
        matrix_element_count(parts[i].shape);
    }
}

/// A tensor under the library's own key.
#[derive(Debug)]
pub struct MappedTensor {
    pub key: String,
    pub data: Vec<u8>,
    pub shape: Vec<usize>,
    pub dtype: DType,
}

impl View for MappedTensor {
    type V = Placement;

    open spec fn view(&self) -> Placement {
        Placement { key: self.key@, data: self.data@, shape: self.shape@, dtype: self.dtype }
    }
}

/// The tensors as mathematical values.
pub open spec fn mapped_models(tensors: Seq<MappedTensor>) -> Seq<Placement> {
    tensors.map_values(|t: MappedTensor| t@)
}

/// The pieces of a fused matrix under the library's keys.
pub open spec fn keyed_parts(
    parts: Result<Seq<PartModel>, EvokeFault>,
    layer: usize,
    group: Seq<char>,
    dtype: DType,
) -> Result<(usize, Seq<Placement>), EvokeFault> {
    match parts {
        Ok(parts) => Ok(
            (
                layer,
                parts.map_values(
                    |p: PartModel|
                        Placement {
                            key: layer_key(layer as nat, group + p.tag),
                            data: p.data,
                            shape: p.shape,
                            dtype,
                        },
                ),
            ),
        ),
        Err(fault) => Err(fault),
    }
}

/// What becomes of one tensor of a shard: its layer and the tensors that it contributes.
pub open spec fn mapping_of(cfg: GlmConfig, raw: RawModel) -> Result<
    (usize, Seq<Placement>),
    EvokeFault,
> {
    let dtype = dtype_named(raw.dtype);
    match canonical_key(raw.name) {
        None => Err(EvokeFault::Config("unknown key: "@ + raw.name)),
        Some((layer, role)) => if layer >= cfg.num_layers {
            Err(
                EvokeFault::ShapeMismatch {
                    key: raw.name,
                    expected: seq![cfg.num_layers],
                    got: seq![layer],
                },
            )
        } else if expected_shape(cfg, role) != Some(raw.shape) {
            Err(shape_fault(cfg, role, raw.shape, raw.name))
        } else if role == "attn.qkv"@ {
            keyed_parts(fused_qkv_parts(raw.data, raw.shape, cfg), layer, "attn."@, dtype)
        } else if role == "mlp.gate_up"@ {
            keyed_parts(gate_up_parts(raw.data, raw.shape, cfg), layer, "mlp."@, dtype)
        } else {
            Ok(
                (
                    layer,
                    seq![
                        Placement {
                            key: layer_key(layer as nat, role),
                            data: raw.data,
                            shape: raw.shape,
                            dtype,
                        },
                    ],
                ),
            )
        },
    }
}

/// Whether a tensor would have to be split though it has no elements: the size of an element
/// is then undefined.
pub open spec fn is_empty_fused(cfg: GlmConfig, raw: RawModel) -> bool {
    match canonical_key(raw.name) {
        None => false,
        Some((layer, role)) => {
            &&& layer < cfg.num_layers
            &&& expected_shape(cfg, role) == Some(raw.shape)
            &&& role == "attn.qkv"@ || role == "mlp.gate_up"@
            &&& raw.shape[0] * raw.shape[1] == 0
        },
    }
}

/// Whether a tensor would have to be split though it has no elements.
pub fn splits_nothing(cfg: &GlmConfig, tensor: &RawTensor) -> (yes: bool)
    requires
        cfg.dims_fit(),
    ensures
        yes == is_empty_fused(*cfg, tensor@),
{
    match canonical_glm_key(tensor.name.as_str()) {
        None => false,
        Some((layer, role)) => {
            let fused: bool = same_text(role, "attn.qkv") || same_text(role, "mlp.gate_up");
            if layer >= cfg.num_layers || !fused {
                return false;
            }
            match assert_expected_shape(
                cfg,
                role,
                tensor.shape.as_slice(),
                tensor.name.as_str(),
            ) {
                Ok(_) => {
                    proof {
                        fused_shape(*cfg, role@, tensor.shape@);
                    }
                    tensor.shape[0] * tensor.shape[1] == 0
                },
                Err(_) => false,
            }
        },
    }
}

/// A fused matrix of the expected shape has two dimensions whose product is a machine number.
proof fn fused_shape(cfg: GlmConfig, role: Seq<char>, shape: Seq<usize>)
    requires
        cfg.dims_fit(),
        expected_shape(cfg, role) == Some(shape),
        role == "attn.qkv"@ || role == "mlp.gate_up"@,
    ensures
        shape.len() == 2,
        shape[0] * shape[1] <= usize::MAX,
{
    reveal_strlit("attn.qkv");
    reveal_strlit("mlp.gate_up");
    reveal_strlit("attn.o_proj");
    assert("attn.qkv"@.len() != "mlp.gate_up"@.len());
    assert("attn.o_proj"@[0] == 'a' && "mlp.gate_up"@[0] == 'm');
}

/// Puts the pieces of a fused matrix under the library's keys.
fn key_parts(parts: Vec<TensorPart>, layer: usize, group: &str, dtype: DType) -> (keyed: Vec<
    MappedTensor,
>)
    ensures
        keyed_parts(Ok(part_models(parts@)), layer, group@, dtype) == Ok::<_, EvokeFault>(
            (layer, mapped_models(keyed@)),
        ),
{
    let ghost model = keyed_parts(Ok(part_models(parts@)), layer, group@, dtype)->Ok_0.1;
    let mut keyed: Vec<MappedTensor> = Vec::new();
    for part in it: parts
        invariant
            it.seq() == parts@,
            model == keyed_parts(Ok(part_models(parts@)), layer, group@, dtype)->Ok_0.1,
            keyed@.len() == it.index(),
            mapped_models(keyed@) =~= model.take(it.index() as int),
    {
        let name: String = join2(group, part.tag);
        keyed.push(
            MappedTensor {
                key: layer_key_text(layer, name.as_str()),
                data: part.data,
                shape: part.shape,
                dtype,
            },
        );
    }
    proof {
        assert(mapped_models(keyed@) =~= model);
    }
    keyed
}

/// The outcome of a mapping as a mathematical value.
pub open spec fn mapping_model(mapped: Result<(usize, Vec<MappedTensor>), EvokeError>) -> Result<
    (usize, Seq<Placement>),
    EvokeFault,
> {
    match mapped {
        Ok((layer, tensors)) => Ok((layer, mapped_models(tensors@))),
        Err(e) => Err(e@),
    }
}

/// Maps one tensor of a shard to the tensors of the model that it contributes.
pub fn map_tensor(cfg: &GlmConfig, tensor: RawTensor) -> (mapped: Result<
    (usize, Vec<MappedTensor>),
    EvokeError,
>)
    requires
        cfg.dims_fit(),
        !is_empty_fused(*cfg, tensor@),
    ensures
        mapping_model(mapped) == mapping_of(*cfg, tensor@),
{
    let (layer, role) = match canonical_glm_key(tensor.name.as_str()) {
        Some(key) => key,
        None => {
            return Err(EvokeError::Config(join2("unknown key: ", tensor.name.as_str())));
        },
    };
    if layer >= cfg.num_layers {
        let expected: Vec<usize> = vec![cfg.num_layers];
        let got: Vec<usize> = vec![layer];
        proof {
            assert(expected@ =~= seq![cfg.num_layers]);
            assert(got@ =~= seq![layer]);
        }
        return Err(EvokeError::ShapeMismatch { key: tensor.name, expected, got });
    }
    match assert_expected_shape(cfg, role, tensor.shape.as_slice(), tensor.name.as_str()) {
        Ok(_) => {},
        Err(e) => {
            return Err(e);
        },
    }
    let dtype: DType = dtype_of(tensor.dtype.as_str());
    if same_text(role, "attn.qkv") {
        proof {
            fused_shape(*cfg, role@, tensor.shape@);
        }
        match split_fused_qkv(tensor.data.as_slice(), tensor.shape.as_slice(), cfg) {
            Ok(parts) => Ok((layer, key_parts(parts, layer, "attn.", dtype))),
            Err(e) => Err(e),
        }
    } else if same_text(role, "mlp.gate_up") {
        proof {
            fused_shape(*cfg, role@, tensor.shape@);
        }
        match split_mlp_gate_up(tensor.data.as_slice(), tensor.shape.as_slice(), cfg) {
            Ok(parts) => Ok((layer, key_parts(parts, layer, "mlp.", dtype))),
            Err(e) => Err(e),
        }
    } else {
        let whole: Vec<MappedTensor> = vec![
            MappedTensor {
                key: layer_key_text(layer, role),
                data: tensor.data,
                shape: tensor.shape,
                dtype,
            },
        ];
        proof {
            assert(mapped_models(whole@) =~= mapping_of(*cfg, tensor@)->Ok_0.1);
        }
        Ok((layer, whole))
    }
}

/// What the mapping of one shard leads to: the records to be emitted, and the tensors or the
/// error that ended the mapping.
#[derive(Debug)]
pub struct MappedShard {
    pub records: Vec<ExecutionRecord>,
    pub result: Result<Vec<MappedTensor>, EvokeError>,
}

/// A [`MappedShard`] as a mathematical value.
pub ghost struct ShardModel {
    pub records: Seq<RecordModel>,
    pub result: Result<Seq<Placement>, EvokeFault>,
}

impl View for MappedShard {
    type V = ShardModel;

    open spec fn view(&self) -> ShardModel {
        ShardModel {
            records: record_models(self.records@),
            result: match self.result {
                Ok(tensors) => Ok(mapped_models(tensors@)),
                Err(e) => Err(e@),
            },
        }
    }
}

/// The record of one mapped tensor.
pub open spec fn map_record(layer: usize, name: Seq<char>) -> RecordModel {
    RecordModel { seq: 0, phase: "map"@, layer: Some(layer), detail: "mapped "@ + name }
}

/// The mapping of the tensors of a shard, one after the other, up to the first error.
pub open spec fn shard_mapping(cfg: GlmConfig, tensors: Seq<RawModel>) -> ShardModel
    decreases tensors.len(),
{
    if tensors.len() == 0 {
        ShardModel { records: Seq::empty(), result: Ok(Seq::empty()) }
    } else {
        let before = shard_mapping(cfg, tensors.drop_last());
        let last = tensors.last();
        match before.result {
            Err(_) => before,
            Ok(placements) => match mapping_of(cfg, last) {
                Ok((layer, more)) => ShardModel {
                    records: before.records.push(map_record(layer, last.name)),
                    result: Ok(placements + more),
                },
                Err(fault) => ShardModel { records: before.records, result: Err(fault) },
            },
        }
    }
}

/// An error ends the mapping: nothing that follows changes the outcome.
proof fn mapping_ends_with_error(cfg: GlmConfig, tensors: Seq<RawModel>, n: int)
    requires
        0 <= n <= tensors.len(),
        shard_mapping(cfg, tensors.take(n)).result is Err,
    ensures
        shard_mapping(cfg, tensors) == shard_mapping(cfg, tensors.take(n)),
    decreases tensors.len() - n,
{
    if n < tensors.len() {
        assert(tensors.take(n + 1).drop_last() =~= tensors.take(n));
        mapping_ends_with_error(cfg, tensors, n + 1);
    } else {
        assert(tensors.take(n) =~= tensors);
    }
}

/// Maps the tensors of a shard in the given order.
pub fn map_tensors(cfg: &GlmConfig, tensors: Vec<RawTensor>) -> (shard: MappedShard)
    requires
        cfg.dims_fit(),
        forall|i: int| 0 <= i < tensors@.len() ==> !is_empty_fused(*cfg, (#[trigger] tensors@[i])@),
    ensures
        shard@ == shard_mapping(*cfg, raw_models(tensors@)),
{
    let ghost raw = raw_models(tensors@);
    let mut records: Vec<ExecutionRecord> = Vec::new();
    let mut mapped: Vec<MappedTensor> = Vec::new();
    proof {
        assert(raw.take(0) =~= Seq::<RawModel>::empty());
        assert(record_models(records@) =~= Seq::<RecordModel>::empty());
        assert(mapped_models(mapped@) =~= Seq::<Placement>::empty());
    }
    for tensor in it: tensors
        invariant
            cfg.dims_fit(),
            it.seq() == tensors@,
            raw == raw_models(tensors@),
            forall|i: int|
                0 <= i < tensors@.len() ==> !is_empty_fused(*cfg, (#[trigger] tensors@[i])@),
            shard_mapping(*cfg, raw.take(it.index() as int)) == (ShardModel {
                records: record_models(records@),
                result: Ok(mapped_models(mapped@)),
            }),
    {
        let ghost n = it.index() as int;
        proof {
            assert(raw.take(n + 1).drop_last() =~= raw.take(n));
            assert(raw.take(n + 1).last() == tensor@);
        }
        let detail: String = join2("mapped ", tensor.name.as_str());
        match map_tensor(cfg, tensor) {
            Ok((layer, more)) => {
                let record = ExecutionRecord { seq: 0, phase: "map", layer: Some(layer), detail };
                let mut more: Vec<MappedTensor> = more;
                let ghost old_records = record_models(records@);
                let ghost old_mapped = mapped_models(mapped@);
                let ghost added = mapped_models(more@);
                records.push(record);
                mapped.append(&mut more);
                proof {
                    assert(record_models(records@) =~= old_records.push(record@));
                    assert(mapped_models(mapped@) =~= old_mapped + added);
                }
            },
            Err(e) => {
                let shard = MappedShard { records, result: Err(e) };
                proof {
                    assert(shard@ == shard_mapping(*cfg, raw.take(n + 1)));
                    mapping_ends_with_error(*cfg, raw, n + 1);
                }
                return shard;
            },
        }
    }
    proof {
        assert(raw.take(raw.len() as int) =~= raw);
    }
    MappedShard { records, result: Ok(mapped) }
}

/// One entry of a shard as a tensor.
pub open spec fn entry_model(name: Seq<char>, entry: (Seq<char>, Seq<usize>, Seq<u8>)) -> RawModel {
    RawModel { name, dtype: entry.0, shape: entry.1, data: entry.2 }
}

/// Whether a shard holds a tensor that would have to be split though it has no elements.
pub open spec fn holds_empty_fused(
    cfg: GlmConfig,
    content: Map<Seq<char>, (Seq<char>, Seq<usize>, Seq<u8>)>,
) -> bool {
    exists|name: Seq<char>| #[trigger]
        content.contains_key(name) && is_empty_fused(cfg, entry_model(name, content[name]))
}

/// What a file holds, unless it is refused: it is not in the format, or the ends that its header
/// declares overflow the offset arithmetic.
pub open spec fn readable_content(bytes: Seq<u8>) -> Option<
    Map<Seq<char>, (Seq<char>, Seq<usize>, Seq<u8>)>,
> {
    if declares_overflow(bytes) {
        None
    } else {
        safetensors_content(bytes)
    }
}

/// Whether a file cannot be mapped at all, since it holds a fused matrix without elements.
pub open spec fn is_unmappable(cfg: GlmConfig, bytes: Seq<u8>) -> bool {
    match readable_content(bytes) {
        Some(content) => holds_empty_fused(cfg, content),
        None => false,
    }
}

/// Whether all tensors have as many bytes as their shapes and their element types announce.
pub open spec fn are_well_sized(tensors: Seq<RawModel>) -> bool {
    forall|i: int| 0 <= i < tensors.len() ==> is_well_sized(#[trigger] tensors[i])
}

/// Reads the shard named `shard` and maps its tensors.
///
/// The tensors of a file come in no particular order, so of two errors in one file either may be
/// reported. Nothing is returned for a file that cannot be mapped at all.
pub fn map_shard(shard: &str, bytes: &[u8], cfg: &GlmConfig) -> (mapped: Option<MappedShard>)
    requires
        cfg.dims_fit(),
    ensures
        mapped is None <==> is_unmappable(*cfg, bytes@),
        match mapped {
            None => true,
            Some(m) => match readable_content(bytes@) {
                None => {
                    &&& m@.records.len() == 0
                    &&& m@.result matches Err(EvokeFault::Shard { shard: named, .. })
                    &&& named == shard@
                },
                Some(content) => exists|order: Seq<RawModel>| #[trigger]
                    enumerates(order, content) && are_well_sized(order) && m@ == shard_mapping(
                        *cfg,
                        order,
                    ),
            },
        },
{
    if overflows_offsets(bytes) {
        let fault = EvokeError::Shard {
            shard: shard.to_owned(),
            msg: "declared offsets overflow".to_owned(),
        };
        return Some(MappedShard { records: Vec::new(), result: Err(fault) });
    }
    let tensors: Vec<RawTensor> = match read_tensors(bytes) {
        Ok(tensors) => tensors,
        Err(e) => {
            let fault = EvokeError::Shard { shard: shard.to_owned(), msg: e.to_string() };
            return Some(MappedShard { records: Vec::new(), result: Err(fault) });
        },
    };
    let ghost order = raw_models(tensors@);
    let ghost content = safetensors_content(bytes@)->0;
    let mut i: usize = 0;
    while i < tensors.len()
        invariant
            cfg.dims_fit(),
            i <= tensors@.len(),
            order == raw_models(tensors@),
            readable_content(bytes@) == Some(content),
            enumerates(order, content),
            are_well_sized(order),
            forall|j: int| 0 <= j < i ==> !is_empty_fused(*cfg, (#[trigger] tensors@[j])@),
        decreases tensors@.len() - i,
    {
        if splits_nothing(cfg, &tensors[i]) {
            proof {
                let t = order[i as int];
                assert(t == tensors@[i as int]@);
                assert(content.contains_key(t.name));
                assert(entry_model(t.name, content[t.name]) == t);
            }
            return None;
        }
        i += 1;
    }
    proof {
        assert(!holds_empty_fused(*cfg, content)) by {
            if holds_empty_fused(*cfg, content) {
                let name = choose|name: Seq<char>| #[trigger]
                    content.contains_key(name) && is_empty_fused(
                        *cfg,
                        entry_model(name, content[name]),
                    );
                let k = choose|k: int| 0 <= k < order.len() && (#[trigger] order[k]).name == name;
                assert(order[k] == tensors@[k]@);
                assert(entry_model(name, content[name]) == order[k]);
            }
        }
    }
    Some(map_tensors(cfg, tensors))
}

} // verus!
