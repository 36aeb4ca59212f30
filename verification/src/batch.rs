//! The work of a chunk, sorted by label so that labels can be taken up side by side.
use crate::log::IndexWork;
use std::collections::HashMap;
use vstd::arithmetic::power2::{
    lemma2_to64, lemma_pow2_pos, lemma_pow2_strictly_increases, lemma_pow2_unfold, pow2,
};
use vstd::prelude::*;

verus! {

broadcast use vstd::std_specs::hash::group_hash_axioms;

/// What the index is to take up about one label: places of records in the chunk, in log order.
pub struct LabelGroup {
    pub label: u32,
    pub records: Vec<usize>,
}

/// The places of the records that `work` lists for `label`, in order.
pub open spec fn records_of(work: Seq<IndexWork>, label: u32) -> Seq<usize>
    decreases work.len(),
{
    if work.len() == 0 {
        Seq::empty()
    } else {
        let earlier = records_of(work.drop_last(), label);
        if work.last().label == label {
            earlier.push(work.last().record)
        } else {
            earlier
        }
    }
}

/// `groups` has one group for each label of `work`, which lists the records of that label in
/// order.
pub open spec fn is_grouping(groups: Seq<LabelGroup>, work: Seq<IndexWork>) -> bool {
    &&& forall|i: int|
        #![trigger groups[i]]
        0 <= i < groups.len() ==> groups[i].records@ == records_of(work, groups[i].label)
            && groups[i].records@.len() > 0
    &&& forall|i: int, j: int|
        #![trigger groups[i], groups[j]]
        0 <= i < j < groups.len() ==> groups[i].label != groups[j].label
    &&& forall|w: int|
        #![trigger work[w]]
        0 <= w < work.len() ==> exists|i: int|
            0 <= i < groups.len() && (#[trigger] groups[i]).label == work[w].label
}

/// Sorts the work of a chunk by label.
pub fn group_by_label(work: &Vec<IndexWork>) -> (groups: Vec<LabelGroup>)
    ensures
        is_grouping(groups@, work@),
{
    let mut groups: Vec<LabelGroup> = Vec::new();
    let mut positions: HashMap<u32, usize> = HashMap::new();
    let mut next: usize = 0;
    assert(work@.take(0) =~= Seq::<IndexWork>::empty());
    while next < work.len()
        invariant
            next <= work@.len(),
            is_grouping(groups@, work@.take(next as int)),
            forall|i: int|
                #![trigger groups@[i]]
                0 <= i < groups@.len() ==> positions@.contains_key(groups@[i].label)
                    && positions@[groups@[i].label] == i,
            forall|label: u32| #[trigger]
                positions@.contains_key(label) ==> positions@[label] < groups@.len()
                    && groups@[positions@[label] as int].label == label,
        decreases work@.len() - next,
    {
        let item = work[next];
        let ghost before = groups@;
        let ghost seen = work@.take(next as int);
        let ghost now = work@.take(next + 1);
        assert(now.drop_last() =~= seen);
        assert(now.last() == item);
        let known: Option<usize> = match positions.get(&item.label) {
            Some(position) => Some(*position),
            None => None,
        };
        match known {
            Some(position) => {
                groups[position].records.push(item.record);
                assert(groups@[position as int].label == item.label);
                assert forall|w: int|
                    #![trigger now[w]]
                    0 <= w < now.len() implies exists|i: int|
                    0 <= i < groups@.len() && (#[trigger] groups@[i]).label == now[w].label by {
                    if w < seen.len() {
                        assert(seen[w] == now[w]);
                        let i = choose|i: int|
                            0 <= i < before.len() && (#[trigger] before[i]).label == now[w].label;
                        assert(groups@[i].label == now[w].label);
                    }
                }
            },
            None => {
                proof {
                    lemma_absent(seen, item.label);
                }
                positions.insert(item.label, groups.len());
                let mut records: Vec<usize> = Vec::new();
                records.push(item.record);
                groups.push(LabelGroup { label: item.label, records });
                assert(groups@.last().records@ =~= records_of(now, item.label)) by {
                    if records_of(seen, item.label).len() > 0 {
                        let w = choose|w: int|
                            0 <= w < seen.len() && (#[trigger] seen[w]).label == item.label;
                        let i = choose|i: int|
                            0 <= i < before.len() && (#[trigger] before[i]).label == seen[w].label;
                        assert(before[i].label == item.label);
                    }
                }
                assert forall|w: int|
                    #![trigger now[w]]
                    0 <= w < now.len() implies exists|i: int|
                    0 <= i < groups@.len() && (#[trigger] groups@[i]).label == now[w].label by {
                    if w < seen.len() {
                        assert(seen[w] == now[w]);
                        let i = choose|i: int|
                            0 <= i < before.len() && (#[trigger] before[i]).label == now[w].label;
                        assert(groups@[i].label == now[w].label);
                    } else {
                        assert(groups@[before.len() as int].label == now[w].label);
                    }
                }
            },
        }
        next = next + 1;
    }
    assert(work@.take(work@.len() as int) =~= work@);
    groups
}

/// Where no work is listed for a label, it has no records.
proof fn lemma_absent(work: Seq<IndexWork>, label: u32)
    ensures
        records_of(work, label).len() > 0 ==> exists|w: int|
            0 <= w < work.len() && (#[trigger] work[w]).label == label,
    decreases work.len(),
{
    if work.len() > 0 {
        let earlier = work.drop_last();
        lemma_absent(earlier, label);
        if work.last().label == label {
            assert(work[work.len() - 1].label == label);
        } else if records_of(work, label).len() > 0 {
            let w = choose|w: int| 0 <= w < earlier.len() && (#[trigger] earlier[w]).label == label;
            assert(work[w].label == label);
        }
    }
}

/// `p` is the least power of two that is at least `n`.
pub open spec fn is_next_power_of_two(p: int, n: int) -> bool {
    exists|e: nat| p == #[trigger] pow2(e) && n <= p && (e > 0 ==> pow2((e - 1) as nat) < n)
}

/// The capacity to which an index has to be brought before a batch is taken up: none if the
/// batch leaves room, else the least power of two that holds the elements and the batch.
pub fn resize_target(index_len: usize, batch_len: usize, index_capacity: usize) -> (target: Option<
    usize,
>)
    requires
        index_len + batch_len <= usize::MAX,
        index_len + batch_len >= index_capacity ==> index_len + batch_len <= usize::MAX / 2 + 1,
    ensures
        match target {
            None => index_len + batch_len < index_capacity,
            Some(capacity) => index_len + batch_len >= index_capacity && is_next_power_of_two(
                capacity as int,
                index_len + batch_len,
            ),
        },
{
    let needed: usize = index_len + batch_len;
    if needed < index_capacity {
        return None;
    }
    let mut capacity: usize = 1;
    let ghost mut e: nat = 0;
    proof {
        lemma2_to64();
    }
    while capacity < needed
        invariant
            capacity == pow2(e),
            needed <= usize::MAX / 2 + 1,
            e > 0 ==> pow2((e - 1) as nat) < needed,
            capacity >= 1,
        decreases 2 * needed - capacity,
    {
        proof {
            lemma_pow2_unfold(e + 1);
            e = e + 1;
        }
        assert(capacity <= usize::MAX / 2);
        capacity = capacity * 2;
    }
    Some(capacity)
}

/// The records of a label are those that the work lists for it, in the order of the work: each one
/// adds to the list of its own label and to no other.
pub proof fn law_records_keep_the_order_of_the_work(
    work: Seq<IndexWork>,
    item: IndexWork,
    label: u32,
)
    ensures
        records_of(Seq::empty(), label).len() == 0,
        item.label == label ==> records_of(work.push(item), label) == records_of(work, label).push(
            item.record,
        ),
        item.label != label ==> records_of(work.push(item), label) == records_of(work, label),
{
    assert(work.push(item).drop_last() =~= work);
}

/// The work lists the record for the label.
pub open spec fn is_work(work: Seq<IndexWork>, label: u32, record: usize) -> bool {
    exists|w: int|
        0 <= w < work.len() && (#[trigger] work[w]).label == label && work[w].record == record
}

/// Some group is that of the label and lists the record.
pub open spec fn is_grouped(groups: Seq<LabelGroup>, label: u32, record: usize) -> bool {
    exists|i: int|
        0 <= i < groups.len() && (#[trigger] groups[i]).label == label
            && groups[i].records@.contains(record)
}

/// A label's list holds just what the work lists for the label.
proof fn lemma_records_of_members(work: Seq<IndexWork>, label: u32)
    ensures
        forall|w: int|
            #![trigger work[w]]
            0 <= w < work.len() && work[w].label == label ==> records_of(work, label).contains(
                work[w].record,
            ),
        forall|j: int|
            0 <= j < records_of(work, label).len() ==> is_work(
                work,
                label,
                #[trigger] records_of(work, label)[j],
            ),
    decreases work.len(),
{
    if work.len() > 0 {
        let earlier = work.drop_last();
        let before = records_of(earlier, label);
        let all = records_of(work, label);
        lemma_records_of_members(earlier, label);
        assert forall|w: int|
            #![trigger work[w]]
            0 <= w < work.len() && work[w].label == label implies all.contains(work[w].record) by {
            if w < earlier.len() {
                assert(earlier[w] == work[w]);
                let j = choose|j: int| 0 <= j < before.len() && before[j] == work[w].record;
                assert(all[j] == work[w].record);
            } else {
                assert(all[before.len() as int] == work[w].record);
            }
        }
        assert forall|j: int| 0 <= j < all.len() implies is_work(
            work,
            label,
            #[trigger] all[j],
        ) by {
            if j < before.len() {
                assert(before[j] == all[j]);
                assert(is_work(earlier, label, before[j]));
                let w = choose|w: int|
                    0 <= w < earlier.len() && (#[trigger] earlier[w]).label == label
                        && earlier[w].record == before[j];
                assert(work[w] == earlier[w]);
            } else {
                assert(work[work.len() - 1].record == all[j]);
            }
        }
    }
}

/// The groups share out the work: every piece of it is in the group of its label and in no other
/// group, no group holds anything else, and none is empty.
pub proof fn law_groups_share_out_the_work(groups: Seq<LabelGroup>, work: Seq<IndexWork>)
    requires
        is_grouping(groups, work),
    ensures
        forall|w: int|
            0 <= w < work.len() ==> is_grouped(
                groups,
                (#[trigger] work[w]).label,
                work[w].record,
            ),
        forall|i: int, j: int|
            #![trigger groups[i], groups[j]]
            0 <= i < groups.len() && 0 <= j < groups.len() && groups[i].label == groups[j].label
                ==> i == j,
        forall|i: int, j: int|
            0 <= i < groups.len() && 0 <= j < groups[i].records@.len() ==> is_work(
                work,
                groups[i].label,
                #[trigger] groups[i].records@[j],
            ),
        forall|i: int| 0 <= i < groups.len() ==> (#[trigger] groups[i]).records@.len() > 0,
{
    assert forall|w: int| 0 <= w < work.len() implies is_grouped(
        groups,
        (#[trigger] work[w]).label,
        work[w].record,
    ) by {
        let i = choose|i: int|
            0 <= i < groups.len() && (#[trigger] groups[i]).label == work[w].label;
        lemma_records_of_members(work, groups[i].label);
        assert(groups[i].records@.contains(work[w].record));
    }
    assert forall|i: int, j: int|
        0 <= i < groups.len() && 0 <= j < groups[i].records@.len() implies is_work(
        work,
        groups[i].label,
        #[trigger] groups[i].records@[j],
    ) by {
        lemma_records_of_members(work, groups[i].label);
        assert(records_of(work, groups[i].label)[j] == groups[i].records@[j]);
    }
}

/// The next power of two is one, is at least the number, and no smaller power of two is.
pub proof fn law_next_power_of_two_is_the_least(p: int, n: int, e: nat)
    requires
        is_next_power_of_two(p, n),
    ensures
        p >= n,
        p >= 1,
        p == 1 || (p % 2 == 0 && p < 2 * n),
        exists|f: nat| p == #[trigger] pow2(f),
        pow2(e) >= n ==> pow2(e) >= p,
{
    let f = choose|f: nat|
        p == #[trigger] pow2(f) && n <= p && (f > 0 ==> pow2((f - 1) as nat) < n);
    lemma2_to64();
    lemma_pow2_pos(f);
    if f > 0 {
        lemma_pow2_unfold(f);
    }
    if e < f {
        if e < f - 1 {
            lemma_pow2_strictly_increases(e, (f - 1) as nat);
        }
    } else if e > f {
        lemma_pow2_strictly_increases(f, e);
    }
}

} // verus!
