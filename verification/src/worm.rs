//! The write-once, read-many arena.
//!
//! Tensors are copied one after the other into a staging buffer of bounded size, each at an
//! offset that is a multiple of 64. Sealing turns the buffer into a region that can only be read.

use std::sync::Arc;
use vstd::hash_map::StringHashMap;
use vstd::prelude::*;
use vstd::slice::slice_subrange;
use vstd::string::StringExecFns;

use crate::error::EvokeError;
use crate::error::EvokeFault;
use crate::text::decimal;
use crate::text::push_decimal;

verus! {

/// Element type of a tensor.
#[derive(Debug, Clone, Copy, PartialEq, Eq, Structural)]
pub enum DType {
    F32,
    F16,
    BF16,
}

/// Phase of the arena: writable, or sealed for good.
#[derive(Debug, Clone, Copy, PartialEq, Eq, Structural)]
pub enum MemoryState {
    Staging,
    Sealed,
}

/// Where a tensor lies in the arena, and how it is to be read.
#[derive(Debug)]
pub struct TensorView {
    pub offset: usize,
    pub len: usize,
    pub shape: Vec<usize>,
    pub dtype: DType,
}

/// A [`TensorView`] as a mathematical value.
pub ghost struct TensorSpan {
    pub offset: nat,
    pub len: nat,
    pub shape: Seq<usize>,
    pub dtype: DType,
}

impl View for TensorView {
    type V = TensorSpan;

    open spec fn view(&self) -> TensorSpan {
        TensorSpan {
            offset: self.offset as nat,
            len: self.len as nat,
            shape: self.shape@,
            dtype: self.dtype,
        }
    }
}

/// A copy of a shape.
pub fn copy_shape(shape: &[usize]) -> (copy: Vec<usize>)
    ensures
        copy@ == shape@,
{
    let mut copy: Vec<usize> = Vec::new();
    copy.extend_from_slice(shape);
    proof {
        assert(copy@ =~= shape@);
    }
    copy
}

impl Clone for TensorView {
    fn clone(&self) -> (copy: TensorView)
        ensures
            copy@ == self@,
    {
        TensorView {
            offset: self.offset,
            len: self.len,
            shape: copy_shape(self.shape.as_slice()),
            dtype: self.dtype,
        }
    }
}

/// A region that can be read and never written again.
pub struct SealedRegion {
    data: Vec<u8>,
}

impl View for SealedRegion {
    type V = Seq<u8>;

    closed spec fn view(&self) -> Seq<u8> {
        self.data@
    }
}

impl SealedRegion {
    /// All bytes of the region.
    pub fn bytes(&self) -> (all: &[u8])
        ensures
            all@ == self@,
    {
        self.data.as_slice()
    }

    /// The bytes of one tensor.
    pub fn slice(&self, view: &TensorView) -> (part: &[u8])
        requires
            view.offset + view.len <= self@.len(),
        ensures
            part@ == read_span(self@, view@),
    {
        let all: &[u8] = self.data.as_slice();
        assert(view.offset + view.len <= all.len());
        slice_subrange(all, view.offset, view.offset + view.len)
    }
}

/// The bytes that a span covers.
pub open spec fn read_span(bytes: Seq<u8>, span: TensorSpan) -> Seq<u8> {
    bytes.subrange(span.offset as int, (span.offset + span.len) as int)
}

/// The smallest multiple of 64 that is not below `n`.
pub open spec fn align_up(n: nat) -> nat {
    (n + 63) / 64 * 64
}

/// One request to the arena: the bytes of a tensor, its key, its shape and its element type.
pub ghost struct Placement {
    pub data: Seq<u8>,
    pub key: Seq<char>,
    pub shape: Seq<usize>,
    pub dtype: DType,
}

/// The state of a [`WormMemoryManager`] as a mathematical value.
pub ghost struct Arena {
    /// Whether the arena can still be written.
    pub state: MemoryState,
    /// What has been written, with the zeros that pad it.
    pub bytes: Seq<u8>,
    /// How many bytes the arena holds at most.
    pub capacity: nat,
    /// The tensors by key.
    pub table: Map<Seq<char>, TensorSpan>,
}

impl Arena {
    /// What every arena keeps: it never holds more than its capacity.
    pub open spec fn bounded(self) -> bool {
        self.bytes.len() <= self.capacity
    }

    /// Offset at which the next tensor is placed.
    pub open spec fn next_offset(self) -> nat {
        align_up(self.bytes.len())
    }

    /// Bytes that the arena needs in all to take `p`.
    pub open spec fn need(self, p: Placement) -> nat {
        self.next_offset() + p.data.len()
    }

    /// Whether `p` can be taken.
    pub open spec fn accepts(self, p: Placement) -> bool {
        self.state == MemoryState::Staging && self.need(p) <= self.capacity
    }

    /// Where `p` is placed.
    pub open spec fn span(self, p: Placement) -> TensorSpan {
        TensorSpan {
            offset: self.next_offset(),
            len: p.data.len(),
            shape: p.shape,
            dtype: p.dtype,
        }
    }

    /// The arena after `p` was taken: zeros up to the offset, then the bytes.
    pub open spec fn placed(self, p: Placement) -> Arena {
        Arena {
            bytes: self.bytes + Seq::new(
                (self.next_offset() - self.bytes.len()) as nat,
                |i: int| 0u8,
            ) + p.data,
            table: self.table.insert(p.key, self.span(p)),
            ..self
        }
    }

    /// Why `p` is refused.
    pub open spec fn refusal(self, p: Placement) -> EvokeFault {
        if self.state != MemoryState::Staging {
            EvokeFault::Seal("alloc after seal"@)
        } else {
            EvokeFault::Shard {
                shard: p.key,
                msg: "OOM: need "@ + decimal(self.need(p)) + ", capacity "@ + decimal(
                    self.capacity,
                ),
            }
        }
    }

    /// Why the arena cannot be sealed: it already is, or it could not be locked in memory.
    pub open spec fn seal_refusal(self) -> EvokeFault {
        if self.state != MemoryState::Staging {
            EvokeFault::Seal("double seal"@)
        } else {
            EvokeFault::Seal("memory lock failed"@)
        }
    }

    /// The arena after a series of requests. One that is refused changes nothing.
    pub open spec fn after(self, requests: Seq<Placement>) -> Arena
        decreases requests.len(),
    {
        if requests.len() == 0 {
            self
        } else {
            let before = self.after(requests.drop_last());
            if before.accepts(requests.last()) {
                before.placed(requests.last())
            } else {
                before
            }
        }
    }
}

/// The arena while it is being filled.
pub struct WormMemoryManager {
    state: MemoryState,
    staging: Option<Vec<u8>>,
    cursor: usize,
    capacity: usize,
    table: StringHashMap<TensorView>,
}

impl View for WormMemoryManager {
    type V = Arena;

    closed spec fn view(&self) -> Arena {
        Arena {
            state: self.state,
            bytes: match self.staging {
                Some(buffer) => buffer@,
                None => Seq::empty(),
            },
            capacity: self.capacity as nat,
            table: self.table@.map_values(|v: TensorView| v@),
        }
    }
}

impl WormMemoryManager {
    /// Whether the fields agree with each other: there is a buffer exactly while the arena is
    /// writable, and the cursor is its end.
    pub closed spec fn wf(&self) -> bool {
        &&& self.staging is Some <==> self.state == MemoryState::Staging
        &&& self.staging matches Some(buffer) ==> self.cursor == buffer@.len()
        &&& self@.bounded()
    }

    /// An empty arena of `capacity_bytes` bytes.
    pub fn new(capacity_bytes: usize) -> (manager: WormMemoryManager)
        requires
            capacity_bytes <= isize::MAX,
        ensures
            manager.wf(),
            manager@.bounded(),
            manager@.state == MemoryState::Staging,
            manager@.bytes == Seq::<u8>::empty(),
            manager@.capacity == capacity_bytes,
            manager@.table == Map::<Seq<char>, TensorSpan>::empty(),
    {
        let manager = WormMemoryManager {
            state: MemoryState::Staging,
            staging: Some(Vec::with_capacity(capacity_bytes)),
            cursor: 0,
            capacity: capacity_bytes,
            table: StringHashMap::new(),
        };
        proof {
            assert(manager@.table =~= Map::<Seq<char>, TensorSpan>::empty());
        }
        manager
    }

    /// Copies `bytes` to the next free aligned offset and enters them under `key`.
    pub fn allocate(&mut self, bytes: &[u8], key: &str, shape: Vec<usize>, dtype: DType) -> (placed:
        Result<TensorView, EvokeError>)
        requires
            old(self).wf(),
        ensures
            final(self).wf(),
            final(self)@.bounded(),
            ({
                let p = Placement { data: bytes@, key: key@, shape: shape@, dtype };
                &&& placed is Ok <==> old(self)@.accepts(p)
                &&& match placed {
                    Ok(view) => view@ == old(self)@.span(p) && final(self)@ == old(self)@.placed(p),
                    Err(e) => e@ == old(self)@.refusal(p) && final(self)@ == old(self)@,
                }
            }),
    {
        let ghost p = Placement { data: bytes@, key: key@, shape: shape@, dtype };
        let ghost before = self@;
        if self.state != MemoryState::Staging {
            return Err(EvokeError::Seal("alloc after seal".to_owned()));
        }
        let aligned: u128 = (self.cursor as u128 + 63) / 64 * 64;
        let need: u128 = aligned + bytes.len() as u128;
        if need > self.capacity as u128 {
            let mut msg: String = "OOM: need ".to_owned();
            push_decimal(&mut msg, need);
            msg.append(", capacity ");
            push_decimal(&mut msg, self.capacity as u128);
            return Err(EvokeError::Shard { shard: key.to_owned(), msg });
        }
        let offset: usize = aligned as usize;
        let mut staging: Vec<u8> = match self.staging.take() {
            Some(buffer) => buffer,
            None => {
                return Err(EvokeError::Seal("no staging".to_owned()));
            },
        };
        staging.resize(offset, 0);
        staging.extend_from_slice(bytes);
        proof {
            assert(staging@ =~= before.placed(p).bytes);
        }
        self.staging = Some(staging);
        self.cursor = offset + bytes.len();
        let view = TensorView { offset, len: bytes.len(), shape, dtype };
        let entry: TensorView = view.clone();
        self.table.insert(key.to_owned(), entry);
        proof {
            assert(self@.table =~= before.placed(p).table);
            assert(self@ == before.placed(p));
        }
        Ok(view)
    }

    /// The tensor that was last entered under `key`.
    pub fn get(&self, key: &str) -> (found: Option<&TensorView>)
        ensures
            match found {
                Some(view) => self@.table.contains_key(key@) && view@ == self@.table[key@],
                None => !self@.table.contains_key(key@),
            },
    {
        self.table.get(key)
    }

    /// What was written so far, for the memory lock to be asked for.
    pub fn staged(&self) -> (bytes: &[u8])
        requires
            self.wf(),
        ensures
            bytes@ == self@.bytes,
    {
        match &self.staging {
            Some(buffer) => buffer.as_slice(),
            None => &[],
        }
    }

    /// Ends the writable phase and hands out what was written.
    ///
    /// `lock_status` is what the system answered when it was asked to keep the staged bytes in
    /// memory; anything but zero is a failure, unless there was nothing to keep.
    pub fn seal(self, lock_status: i32) -> (sealed: Result<Arc<SealedRegion>, EvokeError>)
        requires
            self.wf(),
        ensures
            sealed is Ok <==> self@.state == MemoryState::Staging && (lock_status == 0
                || self@.bytes.len() == 0),
            match sealed {
                Ok(region) => region@ == self@.bytes,
                Err(e) => e@ == self@.seal_refusal(),
            },
    {
        match self.staging {
            Some(data) => {
                if lock_status != 0 && data.len() != 0 {
                    return Err(EvokeError::Seal("memory lock failed".to_owned()));
                }
                Ok(Arc::new(SealedRegion { data }))
            },
            None => Err(EvokeError::Seal("double seal".to_owned())),
        }
    }
}

/// No series of requests outgrows the arena.
pub proof fn arena_stays_bounded(arena: Arena, requests: Seq<Placement>)
    requires
        arena.bounded(),
    ensures
        arena.after(requests).bounded(),
        arena.after(requests).capacity == arena.capacity,
        arena.after(requests).state == arena.state,
    decreases requests.len(),
{
    if requests.len() > 0 {
        arena_stays_bounded(arena, requests.drop_last());
    }
}

/// Once it is sealed, the arena takes nothing more: every request is refused as a violation of the
/// seal, and nothing changes.
pub proof fn sealed_arena_takes_nothing(arena: Arena, requests: Seq<Placement>, p: Placement)
    requires
        arena.state == MemoryState::Sealed,
    ensures
        arena.after(requests) == arena,
        !arena.accepts(p),
        arena.refusal(p) == EvokeFault::Seal("alloc after seal"@),
    decreases requests.len(),
{
    if requests.len() > 0 {
        sealed_arena_takes_nothing(arena, requests.drop_last(), p);
    }
}

/// Write once: what was written before a series of requests is still there after it, at the
/// same place.
pub proof fn written_bytes_never_change(arena: Arena, requests: Seq<Placement>)
    ensures
        arena.bytes.is_prefix_of(arena.after(requests).bytes),
    decreases requests.len(),
{
    if requests.len() > 0 {
        let before = arena.after(requests.drop_last());
        written_bytes_never_change(arena, requests.drop_last());
        assert(before.bytes.is_prefix_of(before.placed(requests.last()).bytes));
    }
}

/// Read many: a tensor that was taken reads back unchanged, whatever is requested afterwards.
pub proof fn taken_tensor_reads_back(arena: Arena, p: Placement, later: Seq<Placement>)
    requires
        arena.accepts(p),
    ensures
        arena.span(p).offset + arena.span(p).len <= arena.placed(p).after(later).bytes.len(),
        read_span(arena.placed(p).after(later).bytes, arena.span(p)) == p.data,
{
    let now = arena.placed(p);
    written_bytes_never_change(now, later);
    let end = now.after(later).bytes;
    assert(read_span(end, arena.span(p)) =~= p.data) by {
        assert forall|i: int| 0 <= i < p.data.len() implies read_span(end, arena.span(p))[i]
            == p.data[i] by {
            assert(now.bytes[arena.next_offset() + i] == p.data[i]);
        }
    }
}

/// Two tensors never share a byte: one that is taken later starts behind the end of the earlier
/// one, and every tensor starts at a multiple of 64.
pub proof fn tensors_do_not_overlap(
    arena: Arena,
    p: Placement,
    between: Seq<Placement>,
    q: Placement,
)
    requires
        arena.accepts(p),
    ensures
        ({
            let first = arena.span(p);
            let second = arena.placed(p).after(between).span(q);
            &&& first.offset + first.len <= second.offset
            &&& first.offset % 64 == 0
            &&& second.offset % 64 == 0
        }),
{
    written_bytes_never_change(arena.placed(p), between);
}

/// The table gives back the place of the tensor that was last taken under a key. Later requests
/// under that key that were refused do not change it.
pub proof fn table_keeps_last_entry(arena: Arena, p: Placement, later: Seq<Placement>)
    requires
        arena.accepts(p),
        forall|i: int|
            0 <= i < later.len() && (#[trigger] later[i]).key == p.key ==> !arena.placed(p).after(
                later.take(i),
            ).accepts(later[i]),
    ensures
        arena.placed(p).after(later).table.contains_key(p.key),
        arena.placed(p).after(later).table[p.key] == arena.span(p),
    decreases later.len(),
{
    if later.len() > 0 {
        let rest = later.drop_last();
        assert forall|i: int| 0 <= i < rest.len() && (#[trigger] rest[i]).key
            == p.key implies !arena.placed(p).after(rest.take(i)).accepts(rest[i]) by {
            assert(rest[i] == later[i]);
            assert(rest.take(i) =~= later.take(i));
        }
        table_keeps_last_entry(arena, p, rest);
        assert(later.last() == later[later.len() - 1]);
        assert(later.take(later.len() - 1) =~= rest);
    }
}

} // verus!
