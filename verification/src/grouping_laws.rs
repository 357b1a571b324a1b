//! How the tensors of a checkpoint are spread over files, and in what order, does not matter.

use vstd::prelude::*;
use vstd::seq_lib::*;

use crate::checkpoint_laws::extra_capacity_changes_nothing;
use crate::checkpoint_laws::gathering_a_shard;
use crate::checkpoint_laws::gathering_keeps_every_tensor;
use crate::checkpoint_laws::has_key;
use crate::checkpoint_laws::is_addable;
use crate::checkpoint_laws::is_consistent;
use crate::checkpoint_laws::is_supplied;
use crate::checkpoint_laws::names_tensor;
use crate::checkpoint_laws::tensor_at;
use crate::config::GlmConfig;
use crate::error::EvokeFault;
use crate::ingest::gathered;
use crate::ingest::gathered_with;
use crate::ingest::ingestion;
use crate::shard::enumerates;
use crate::shard::RawModel;
use crate::transform::mapping_of;
use crate::transform::shard_mapping;
use crate::worm::Placement;

verus! {

/// Whether some shard holds the given tensor.
pub open spec fn is_held(
    outcomes: Seq<Result<Seq<Placement>, EvokeFault>>,
    tensor: Placement,
) -> bool {
    exists|i: int, j: int| #[trigger]
        names_tensor(outcomes, i, j) && tensor_at(outcomes, i, j) == tensor
}

/// Two lists of mapped shards without failures and without repeated keys that hold the same tensors
/// become the same sealed bytes and the same layers, however the tensors are spread and ordered.
pub proof fn grouping_is_irrelevant(
    cfg: GlmConfig,
    a: Seq<Result<Seq<Placement>, EvokeFault>>,
    b: Seq<Result<Seq<Placement>, EvokeFault>>,
    capacity: nat,
)
    requires
        is_consistent(a),
        is_consistent(b),
        forall|tensor: Placement| #[trigger] is_held(a, tensor) <==> is_held(b, tensor),
    ensures
        ingestion(cfg, a, capacity) == ingestion(cfg, b, capacity),
{
    gathering_keeps_every_tensor(a);
    gathering_keeps_every_tensor(b);
    let first = gathered(a)->Ok_0;
    let second = gathered(b)->Ok_0;
    assert forall|key: Seq<char>| #[trigger] first.contains_key(key) implies second.contains_key(
        key,
    ) && second[key] == first[key] by {
        held_under_same_key(a, b, key);
    }
    assert forall|key: Seq<char>| #[trigger] second.contains_key(key) implies first.contains_key(
        key,
    ) by {
        assert forall|tensor: Placement| #[trigger] is_held(b, tensor) implies is_held(
            a,
            tensor,
        ) by {
            assert(is_held(a, tensor) <==> is_held(b, tensor));
        }
        held_under_same_key(b, a, key);
    }
    assert(first =~= second);
}

/// A key of one list is a key of another one that holds its tensors, and stands for the same
/// tensor.
proof fn held_under_same_key(
    a: Seq<Result<Seq<Placement>, EvokeFault>>,
    b: Seq<Result<Seq<Placement>, EvokeFault>>,
    key: Seq<char>,
)
    requires
        is_consistent(a),
        is_consistent(b),
        forall|tensor: Placement| #[trigger] is_held(a, tensor) ==> is_held(b, tensor),
        gathered(a)->Ok_0.contains_key(key),
    ensures
        gathered(b)->Ok_0.contains_key(key),
        gathered(b)->Ok_0[key] == gathered(a)->Ok_0[key],
{
    gathering_keeps_every_tensor(a);
    gathering_keeps_every_tensor(b);
    assert(is_supplied(a, key));
    let (i, j) = choose|i: int, j: int| #[trigger]
        names_tensor(a, i, j) && tensor_at(a, i, j).key == key;
    let tensor = tensor_at(a, i, j);
    assert(is_held(a, tensor));
    let (k, l) = choose|k: int, l: int| #[trigger]
        names_tensor(b, k, l) && tensor_at(b, k, l) == tensor;
    assert(is_supplied(b, key));
}

/// All tensors of a list of files, file after file.
pub open spec fn all_tensors(files: Seq<Seq<RawModel>>) -> Seq<RawModel>
    decreases files.len(),
{
    if files.len() == 0 {
        Seq::empty()
    } else {
        all_tensors(files.drop_last()) + files.last()
    }
}

/// What the mapping of each file leads to.
pub open spec fn mapped_files(cfg: GlmConfig, files: Seq<Seq<RawModel>>) -> Seq<
    Result<Seq<Placement>, EvokeFault>,
> {
    files.map_values(|file: Seq<RawModel>| shard_mapping(cfg, file).result)
}

/// What a tensor contributes.
pub open spec fn contribution(cfg: GlmConfig, raw: RawModel) -> Seq<Placement> {
    mapping_of(cfg, raw)->Ok_0.1
}

/// What a list of tensors contributes.
pub open spec fn contributions(cfg: GlmConfig, tensors: Seq<RawModel>) -> Seq<Placement>
    decreases tensors.len(),
{
    if tensors.len() == 0 {
        Seq::empty()
    } else {
        contributions(cfg, tensors.drop_last()) + contribution(cfg, tensors.last())
    }
}

/// Whether all tensors of a list can be mapped.
pub open spec fn all_map(cfg: GlmConfig, tensors: Seq<RawModel>) -> bool {
    forall|i: int| 0 <= i < tensors.len() ==> mapping_of(cfg, #[trigger] tensors[i]) is Ok
}

/// Two lists contribute one after the other.
proof fn contributions_of_both(cfg: GlmConfig, a: Seq<RawModel>, b: Seq<RawModel>)
    ensures
        contributions(cfg, a + b) == contributions(cfg, a) + contributions(cfg, b),
        all_map(cfg, a + b) <==> all_map(cfg, a) && all_map(cfg, b),
    decreases b.len(),
{
    let both = a + b;
    if all_map(cfg, both) {
        assert forall|i: int| 0 <= i < a.len() implies mapping_of(cfg, #[trigger] a[i]) is Ok by {
            assert(both[i] == a[i]);
        }
        assert forall|i: int| 0 <= i < b.len() implies mapping_of(cfg, #[trigger] b[i]) is Ok by {
            assert(both[a.len() + i] == b[i]);
        }
    }
    if b.len() == 0 {
        assert(both =~= a);
        assert(contributions(cfg, a) + contributions(cfg, b) =~= contributions(cfg, a));
    } else {
        assert(both.drop_last() =~= a + b.drop_last());
        contributions_of_both(cfg, a, b.drop_last());
        assert(contributions(cfg, both) =~= contributions(cfg, a) + contributions(cfg, b));
    }
}

/// A file can be mapped exactly if each of its tensors can, and holds what they contribute.
proof fn file_maps_tensor_by_tensor(cfg: GlmConfig, file: Seq<RawModel>)
    ensures
        shard_mapping(cfg, file).result is Ok <==> all_map(cfg, file),
        shard_mapping(cfg, file).result matches Ok(tensors) ==> tensors == contributions(cfg, file),
    decreases file.len(),
{
    if file.len() > 0 {
        let front = file.drop_last();
        file_maps_tensor_by_tensor(cfg, front);
        assert(forall|i: int| 0 <= i < front.len() ==> #[trigger] front[i] == file[i]);
        assert(file.last() == file[file.len() - 1]);
        if all_map(cfg, front) && mapping_of(cfg, file.last()) is Ok {
            assert forall|i: int| 0 <= i < file.len() implies mapping_of(
                cfg,
                #[trigger] file[i],
            ) is Ok by {
                if i < front.len() {
                    assert(front[i] == file[i]);
                }
            }
        }
        if all_map(cfg, file) {
            assert forall|i: int| 0 <= i < front.len() implies mapping_of(
                cfg,
                #[trigger] front[i],
            ) is Ok by {
                assert(front[i] == file[i]);
            }
            assert(mapping_of(cfg, file[file.len() - 1]) is Ok);
        }
    }
}

/// Tensors can be gathered in two portions.
pub proof fn gathering_in_portions(
    known: Map<Seq<char>, Placement>,
    a: Seq<Placement>,
    b: Seq<Placement>,
)
    ensures
        gathered_with(known, a + b) == match gathered_with(known, a) {
            Ok(more) => gathered_with(more, b),
            Err(fault) => Err(fault),
        },
    decreases b.len(),
{
    if b.len() == 0 {
        assert(a + b =~= a);
    } else {
        assert((a + b).drop_last() =~= a + b.drop_last());
        gathering_in_portions(known, a, b.drop_last());
    }
}

/// Gathering the files of a checkpoint is gathering what all its tensors contribute.
pub proof fn files_gather_as_one(cfg: GlmConfig, files: Seq<Seq<RawModel>>)
    ensures
        gathered(mapped_files(cfg, files)) is Ok <==> all_map(cfg, all_tensors(files))
            && gathered_with(Map::empty(), contributions(cfg, all_tensors(files))) is Ok,
        gathered(mapped_files(cfg, files)) is Ok ==> gathered(mapped_files(cfg, files))
            == gathered_with(Map::empty(), contributions(cfg, all_tensors(files))),
    decreases files.len(),
{
    let none = Map::<Seq<char>, Placement>::empty();
    if files.len() > 0 {
        let front = files.drop_last();
        let last = files.last();
        files_gather_as_one(cfg, front);
        assert(mapped_files(cfg, files).drop_last() =~= mapped_files(cfg, front));
        assert(mapped_files(cfg, files).last() == shard_mapping(cfg, last).result);
        file_maps_tensor_by_tensor(cfg, last);
        contributions_of_both(cfg, all_tensors(front), last);
        gathering_in_portions(
            none,
            contributions(cfg, all_tensors(front)),
            contributions(cfg, last),
        );
    }
}

/// Taking one tensor out of a list takes out what it contributes.
proof fn contributions_without(cfg: GlmConfig, tensors: Seq<RawModel>, i: int)
    requires
        0 <= i < tensors.len(),
    ensures
        contributions(cfg, tensors).to_multiset() == contributions(
            cfg,
            tensors.remove(i),
        ).to_multiset().add(contribution(cfg, tensors[i]).to_multiset()),
{
    let before = tensors.take(i);
    let after = tensors.skip(i + 1);
    let one = seq![tensors[i]];
    assert(tensors =~= before + one + after);
    assert(tensors.remove(i) =~= before + after);
    contributions_of_both(cfg, before + one, after);
    contributions_of_both(cfg, before, one);
    contributions_of_both(cfg, before, after);
    assert(one.drop_last() =~= Seq::<RawModel>::empty());
    assert(contributions(cfg, one.drop_last()) =~= Seq::<Placement>::empty());
    assert(contributions(cfg, one) == contributions(cfg, one.drop_last()) + contribution(
        cfg,
        one.last(),
    ));
    assert(contributions(cfg, one) =~= contribution(cfg, tensors[i]));
    let x = contributions(cfg, before);
    let y = contribution(cfg, tensors[i]);
    let z = contributions(cfg, after);
    lemma_multiset_commutative(x + y, z);
    lemma_multiset_commutative(x, y);
    lemma_multiset_commutative(x, z);
    assert((x + y + z).to_multiset() =~= (x + z).to_multiset().add(y.to_multiset()));
}

/// The same tensors in another order contribute the same.
proof fn contributions_of_same_tensors(cfg: GlmConfig, a: Seq<RawModel>, b: Seq<RawModel>)
    requires
        a.to_multiset() == b.to_multiset(),
    ensures
        contributions(cfg, a).to_multiset() == contributions(cfg, b).to_multiset(),
        all_map(cfg, a) ==> all_map(cfg, b),
    decreases a.len(),
{
    a.to_multiset_ensures();
    b.to_multiset_ensures();
    assert(a.len() == b.len());
    if all_map(cfg, a) {
        assert forall|i: int| 0 <= i < b.len() implies mapping_of(cfg, #[trigger] b[i]) is Ok by {
            assert(b.contains(b[i]));
            assert(b.to_multiset().count(b[i]) > 0);
            assert(a.contains(b[i]));
            let j = choose|j: int| 0 <= j < a.len() && a[j] == b[i];
            assert(mapping_of(cfg, a[j]) is Ok);
        }
    }
    if a.len() == 0 {
        assert(a =~= b);
    } else {
        let n = a.len() - 1;
        let x = a[n];
        assert(a.contains(x));
        assert(a.to_multiset().count(x) > 0);
        assert(b.contains(x));
        let j = choose|j: int| 0 <= j < b.len() && b[j] == x;
        assert(a.remove(n).to_multiset() =~= a.to_multiset().remove(x));
        assert(b.remove(j).to_multiset() =~= b.to_multiset().remove(x));
        contributions_of_same_tensors(cfg, a.remove(n), b.remove(j));
        contributions_without(cfg, a, n);
        contributions_without(cfg, b, j);
    }
}

/// What is gathered depends on the tensors alone, not on their order.
proof fn gathering_ignores_order(a: Seq<Placement>, b: Seq<Placement>)
    requires
        a.to_multiset() == b.to_multiset(),
        gathered_with(Map::empty(), a) is Ok,
    ensures
        gathered_with(Map::empty(), b) == gathered_with(Map::empty(), a),
{
    a.to_multiset_ensures();
    b.to_multiset_ensures();
    let none = Map::<Seq<char>, Placement>::empty();
    gathering_a_shard(none, a);
    gathering_a_shard(none, b);
    assert(is_addable(none, a));
    assert forall|i: int, j: int| 0 <= i < a.len() && 0 <= j < a.len() && i != j implies a[i]
        != a[j] by {
        assert(a[i].key != a[j].key);
    }
    a.lemma_multiset_has_no_duplicates();
    b.lemma_multiset_has_no_duplicates_conv();
    assert forall|p: Placement| a.contains(p) <==> b.contains(p) by {
        assert(a.contains(p) <==> a.to_multiset().count(p) > 0);
        assert(b.contains(p) <==> b.to_multiset().count(p) > 0);
    }
    assert forall|j1: int, j2: int| 0 <= j1 < j2 < b.len() implies (#[trigger] b[j1]).key != (
    #[trigger] b[j2]).key by {
        assert(b.contains(b[j1]) && b.contains(b[j2]));
        let i1 = choose|i: int| 0 <= i < a.len() && a[i] == b[j1];
        let i2 = choose|i: int| 0 <= i < a.len() && a[i] == b[j2];
        if b[j1].key == b[j2].key {
            assert(a[i1].key == a[i2].key);
            assert(b[j1] == b[j2]);
        }
    }
    assert(is_addable(none, b));
    let first = gathered_with(none, a)->Ok_0;
    let second = gathered_with(none, b)->Ok_0;
    assert forall|key: Seq<char>| #[trigger] first.contains_key(key) <==> second.contains_key(
        key,
    ) by {
        if has_key(a, key) {
            let i = choose|i: int| 0 <= i < a.len() && (#[trigger] a[i]).key == key;
            assert(a.contains(a[i]));
            let j = choose|j: int| 0 <= j < b.len() && b[j] == a[i];
            assert(b[j].key == key);
        }
        if has_key(b, key) {
            let j = choose|j: int| 0 <= j < b.len() && (#[trigger] b[j]).key == key;
            assert(b.contains(b[j]));
            let i = choose|i: int| 0 <= i < a.len() && a[i] == b[j];
            assert(a[i].key == key);
        }
    }
    assert forall|key: Seq<char>| #[trigger] first.contains_key(key) implies second[key]
        == first[key] by {
        assert(has_key(a, key));
        let i = choose|i: int| 0 <= i < a.len() && (#[trigger] a[i]).key == key;
        assert(a.contains(a[i]));
        let j = choose|j: int| 0 <= j < b.len() && b[j] == a[i];
        assert(b[j].key == key);
    }
    assert(first =~= second);
}

/// Neither the order of the files, nor the order of the tensors inside them, nor their split among
/// files shows in the result: if a checkpoint can be ingested, every list of files with the same
/// tensors becomes the same sealed bytes and the same layers, in every arena at least as large.
pub proof fn same_tensors_are_ingested_alike(
    cfg: GlmConfig,
    files: Seq<Seq<RawModel>>,
    others: Seq<Seq<RawModel>>,
    capacity: nat,
    larger: nat,
)
    requires
        all_tensors(files).to_multiset() == all_tensors(others).to_multiset(),
        ingestion(cfg, mapped_files(cfg, files), capacity) is Ok,
        capacity <= larger,
    ensures
        ingestion(cfg, mapped_files(cfg, others), larger) == ingestion(
            cfg,
            mapped_files(cfg, files),
            capacity,
        ),
{
    files_gather_as_one(cfg, files);
    files_gather_as_one(cfg, others);
    contributions_of_same_tensors(cfg, all_tensors(files), all_tensors(others));
    gathering_ignores_order(
        contributions(cfg, all_tensors(files)),
        contributions(cfg, all_tensors(others)),
    );
    assert(ingestion(cfg, mapped_files(cfg, others), capacity) == ingestion(
        cfg,
        mapped_files(cfg, files),
        capacity,
    ));
    extra_capacity_changes_nothing(cfg, mapped_files(cfg, others), capacity, larger);
}

/// In whatever order the tensors of a file are handed out, they are the same tensors.
pub proof fn enumerations_hold_the_same(
    a: Seq<RawModel>,
    b: Seq<RawModel>,
    content: Map<Seq<char>, (Seq<char>, Seq<usize>, Seq<u8>)>,
)
    requires
        enumerates(a, content),
        enumerates(b, content),
    ensures
        a.to_multiset() == b.to_multiset(),
{
    a.to_multiset_ensures();
    b.to_multiset_ensures();
    assert forall|i: int, j: int| 0 <= i < a.len() && 0 <= j < a.len() && i != j implies a[i]
        != a[j] by {
        assert(a[i].name != a[j].name);
    }
    assert forall|i: int, j: int| 0 <= i < b.len() && 0 <= j < b.len() && i != j implies b[i]
        != b[j] by {
        assert(b[i].name != b[j].name);
    }
    a.lemma_multiset_has_no_duplicates();
    b.lemma_multiset_has_no_duplicates();
    assert forall|t: RawModel| a.contains(t) <==> b.contains(t) by {
        if a.contains(t) {
            handed_out_by_both(a, b, content, t);
        }
        if b.contains(t) {
            handed_out_by_both(b, a, content, t);
        }
    }
    assert forall|t: RawModel| #[trigger] a.to_multiset().count(t) == b.to_multiset().count(t) by {
        assert(a.to_multiset().contains(t) <==> a.contains(t));
        assert(b.to_multiset().contains(t) <==> b.contains(t));
    }
    assert(a.to_multiset() =~= b.to_multiset());
}

/// A tensor that is handed out in one order is handed out in the other.
proof fn handed_out_by_both(
    a: Seq<RawModel>,
    b: Seq<RawModel>,
    content: Map<Seq<char>, (Seq<char>, Seq<usize>, Seq<u8>)>,
    t: RawModel,
)
    requires
        enumerates(a, content),
        enumerates(b, content),
        a.contains(t),
    ensures
        b.contains(t),
{
    let i = choose|i: int| 0 <= i < a.len() && a[i] == t;
    assert(content.contains_pair(a[i].name, (a[i].dtype, a[i].shape, a[i].data)));
    assert(content.contains_key(t.name));
    let j = choose|j: int| 0 <= j < b.len() && (#[trigger] b[j]).name == t.name;
    assert(content.contains_pair(b[j].name, (b[j].dtype, b[j].shape, b[j].data)));
    assert(b[j] == t);
}

} // verus!
