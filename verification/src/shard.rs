//! Reading one checkpoint shard: the tensors that a safetensors file holds.

use safetensors::tensor::Metadata;
use safetensors::SafeTensorError;
use safetensors::SafeTensors;
use vstd::arithmetic::mul::*;
use vstd::prelude::*;
use vstd::slice::slice_subrange;

verus! {

/// The error of the `safetensors` crate.
#[verifier::external_type_specification]
#[verifier::external_body]
pub struct ExSafeTensorError(SafeTensorError);

/// One tensor of a shard, as the file declares it.
#[derive(Debug)]
pub struct RawTensor {
    /// Name of the tensor.
    pub name: String,
    /// Name of the element type, such as `BF16`.
    pub dtype: String,
    pub shape: Vec<usize>,
    pub data: Vec<u8>,
}

/// A [`RawTensor`] as a mathematical value.
pub ghost struct RawModel {
    pub name: Seq<char>,
    pub dtype: Seq<char>,
    pub shape: Seq<usize>,
    pub data: Seq<u8>,
}

impl View for RawTensor {
    type V = RawModel;

    open spec fn view(&self) -> RawModel {
        RawModel {
            name: self.name@,
            dtype: self.dtype@,
            shape: self.shape@,
            data: self.data@,
        }
    }
}

/// The tensors as mathematical values.
pub open spec fn raw_models(tensors: Seq<RawTensor>) -> Seq<RawModel> {
    tensors.map_values(|t: RawTensor| t@)
}

/// What a safetensors file holds: for each tensor name the element type, the shape and the
/// bytes; nothing if the file is not well formed.
pub uninterp spec fn safetensors_content(bytes: Seq<u8>) -> Option<
    Map<Seq<char>, (Seq<char>, Seq<usize>, Seq<u8>)>,
>;

/// Whether `tensors` names every tensor of `content` once, in any order.
pub open spec fn enumerates(
    tensors: Seq<RawModel>,
    content: Map<Seq<char>, (Seq<char>, Seq<usize>, Seq<u8>)>,
) -> bool {
    &&& forall|i: int, j: int|
        0 <= i < j < tensors.len() ==> (#[trigger] tensors[i]).name != (#[trigger] tensors[j]).name
    &&& forall|i: int|
        0 <= i < tensors.len() ==> content.contains_pair(
            (#[trigger] tensors[i]).name,
            (tensors[i].dtype, tensors[i].shape, tensors[i].data),
        )
    &&& forall|name: Seq<char>| #[trigger]
        content.contains_key(name) ==> exists|i: int|
            0 <= i < tensors.len() && (#[trigger] tensors[i]).name == name
}

/// How many elements a tensor of the given shape has.
pub open spec fn element_count(shape: Seq<usize>) -> nat
    decreases shape.len(),
{
    if shape.len() == 0 {
        1
    } else {
        element_count(shape.drop_last()) * shape.last() as nat
    }
}

/// A vector has as many elements as its length says.
pub proof fn vector_element_count(shape: Seq<usize>)
    requires
        shape.len() == 1,
    ensures
        element_count(shape) == shape[0],
{
    let none = shape.drop_last();
    assert(none =~= Seq::<usize>::empty());
    assert(element_count(none) == 1);
    lemma_mul_basics(shape[0] as int);
}

/// A matrix has as many elements as its rows times its columns.
pub proof fn matrix_element_count(shape: Seq<usize>)
    requires
        shape.len() == 2,
    ensures
        element_count(shape) == shape[0] as nat * shape[1] as nat,
{
    vector_element_count(shape.drop_last());
}

/// The size in bytes of one element of the named type, for the types that a file can declare.
pub open spec fn type_size(dtype: Seq<char>) -> nat {
    if dtype == "BOOL"@ || dtype == "U8"@ || dtype == "I8"@ || dtype == "F8_E5M2"@ || dtype
        == "F8_E4M3"@ {
        1
    } else if dtype == "I16"@ || dtype == "U16"@ || dtype == "F16"@ || dtype == "BF16"@ {
        2
    } else if dtype == "I32"@ || dtype == "U32"@ || dtype == "F32"@ {
        4
    } else {
        8
    }
}

/// Whether a tensor has as many bytes as its shape and its element type announce.
pub open spec fn is_well_sized(tensor: RawModel) -> bool {
    tensor.data.len() == element_count(tensor.shape) * type_size(tensor.dtype)
}

/// Headers above this length are refused before they are read.
pub const HEADER_LIMIT: usize = 100_000_000;

/// The length of the header as the first eight bytes of a file give it, lowest byte first.
pub open spec fn header_length(bytes: Seq<u8>) -> nat {
    (bytes[0] + 0x100 * bytes[1] + 0x1_0000 * bytes[2] + 0x100_0000 * bytes[3] + 0x1_0000_0000
        * bytes[4] + 0x100_0000_0000 * bytes[5] + 0x1_0000_0000_0000 * bytes[6]
        + 0x100_0000_0000_0000 * bytes[7]) as nat
}

/// The header of a file that is long enough to hold it.
pub open spec fn header_of(bytes: Seq<u8>) -> Seq<u8> {
    bytes.subrange(8, (8 + header_length(bytes)) as int)
}

/// The end offsets that a header declares for its tensors; nothing if it is no header.
pub uninterp spec fn header_ends(header: Seq<u8>) -> Option<Set<usize>>;

/// Whether the header of a file declares an end offset that overflows when the length of the
/// header and of its prefix is added to it.
pub open spec fn declares_overflow(bytes: Seq<u8>) -> bool {
    &&& bytes.len() >= 8
    &&& header_length(bytes) <= HEADER_LIMIT
    &&& 8 + header_length(bytes) <= bytes.len()
    &&& header_ends(header_of(bytes)) matches Some(ends) && exists|end: usize| #[trigger]
        ends.contains(end) && end + 8 + header_length(bytes) > usize::MAX
}

/// The end offsets that a header declares for its tensors.
///
/// `serde_json::from_str` into the `Metadata` of the `safetensors` crate, and
/// `Metadata::tensors`. The contract claims that whether a text is a header, and which end
/// offsets it then declares, depends on its bytes alone. The crate walks a hash map, so the order
/// of the offsets is left open.
#[verifier::external_body]
fn declared_ends(header: &[u8]) -> (ends: Option<Vec<usize>>)
    ensures
        match ends {
            Some(ends) => header_ends(header@) == Some(ends@.to_set()),
            None => header_ends(header@) is None,
        },
{
    let text = std::str::from_utf8(header).ok()?;
    let metadata: Metadata = serde_json::from_str(text).ok()?;
    Some(metadata.tensors().values().map(|info| info.data_offsets.1).collect())
}

/// Whether the header of a file declares an end offset that overflows.
pub(crate) fn overflows_offsets(bytes: &[u8]) -> (yes: bool)
    ensures
        yes == declares_overflow(bytes@),
{
    if bytes.len() < 8 {
        return false;
    }
    let length: u128 = bytes[0] as u128 + 0x100 * bytes[1] as u128 + 0x1_0000 * bytes[2] as u128
        + 0x100_0000 * bytes[3] as u128 + 0x1_0000_0000 * bytes[4] as u128 + 0x100_0000_0000
        * bytes[5] as u128 + 0x1_0000_0000_0000 * bytes[6] as u128 + 0x100_0000_0000_0000
        * bytes[7] as u128;
    if length > HEADER_LIMIT as u128 || length + 8 > bytes.len() as u128 {
        return false;
    }
    let ends: Vec<usize> = match declared_ends(slice_subrange(bytes, 8, length as usize + 8)) {
        Some(ends) => ends,
        None => {
            return false;
        },
    };
    let mut i: usize = 0;
    while i < ends.len()
        invariant
            i <= ends@.len(),
            bytes@.len() >= 8,
            length == header_length(bytes@),
            length <= HEADER_LIMIT,
            8 + header_length(bytes@) <= bytes@.len(),
            header_ends(header_of(bytes@)) == Some(ends@.to_set()),
            forall|j: int|
                0 <= j < i ==> (#[trigger] ends@[j]) + 8 + header_length(bytes@) <= usize::MAX,
        decreases ends@.len() - i,
    {
        if ends[i] as u128 + 8 + length > usize::MAX as u128 {
            proof {
                let end = ends@[i as int];
                assert(ends@.to_set().contains(end));
                assert(end + 8 + header_length(bytes@) > usize::MAX);
                assert(header_ends(header_of(bytes@))->0.contains(end));
            }
            return true;
        }
        i += 1;
    }
    proof {
        assert forall|end: usize| #[trigger] ends@.to_set().contains(end) implies end + 8
            + header_length(bytes@) <= usize::MAX by {
            let j = choose|j: int| 0 <= j < ends@.len() && ends@[j] == end;
            assert(ends@[j] == end);
        }
    }
    false
}

/// The tensors of a safetensors file.
///
/// `SafeTensors::deserialize` and `SafeTensors::tensors` of the `safetensors` crate. The
/// contract claims that whether the file is well formed, and what it then holds under which
/// name, depends on its bytes alone, that every tensor is handed out once, and that it has as
/// many bytes as its shape and its element type announce. The crate walks a hash map, so the
/// order of the tensors is left open, and so is the wording of the error. The crate adds the
/// header length to the last end offset without a check, so files that declare an end offset
/// close to the largest machine number are left out.
#[verifier::external_body]
pub(crate) fn read_tensors(bytes: &[u8]) -> (read: Result<Vec<RawTensor>, SafeTensorError>)
    requires
        !declares_overflow(bytes@),
    ensures
        match read {
            Ok(tensors) => {
                &&& safetensors_content(bytes@) is Some
                &&& enumerates(raw_models(tensors@), safetensors_content(bytes@)->0)
                &&& forall|i: int| 0 <= i < tensors@.len() ==> is_well_sized(
                    (#[trigger] tensors@[i])@,
                )
            },
            Err(_) => safetensors_content(bytes@) is None,
        },
{
    let file = SafeTensors::deserialize(bytes)?;
    let tensors = file.tensors().into_iter().map(|(name, view)| RawTensor {
        name,
        dtype: format!("{:?}", view.dtype()),
        shape: view.shape().to_vec(),
        data: view.data().to_vec(),
    });
    Ok(tensors.collect())
}

} // verus!
