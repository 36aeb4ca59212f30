//! Nearest-neighbour queries: when a segment is searched exhaustively, which ids are looked at,
//! and which of them are kept.
use std::collections::HashSet;
use vstd::prelude::*;

verus! {

broadcast use vstd::std_specs::hash::group_hash_axioms;

/// An id and its distance from the query, as the bits of an IEEE 754 single.
#[derive(Clone, Copy, Debug, PartialEq, Eq, Structural)]
pub struct RecordMeasure {
    pub offset_id: u32,
    pub measure: u32,
}

/// The bits of a single without its sign.
pub open spec fn magnitude(bits: u32) -> int {
    if bits < 0x8000_0000 {
        bits as int
    } else {
        bits - 0x8000_0000
    }
}

/// The bits are those of a NaN.
pub open spec fn is_nan(bits: u32) -> bool {
    magnitude(bits) > 0x7f80_0000
}

/// A number that orders singles other than NaN as their values do; both zeros have the number 0.
pub open spec fn value_rank(bits: u32) -> int {
    if bits < 0x8000_0000 {
        magnitude(bits)
    } else {
        -magnitude(bits)
    }
}

/// The comparison `a > b` of singles: never true of a NaN.
pub open spec fn exceeds(a: u32, b: u32) -> bool {
    !is_nan(a) && !is_nan(b) && value_rank(a) > value_rank(b)
}

/// A number that orders all singles in the IEEE 754 total order: -0 before +0, and each NaN at
/// the end that its sign tells.
pub open spec fn total_rank(bits: u32) -> int {
    if bits < 0x8000_0000 {
        magnitude(bits)
    } else {
        -1 - magnitude(bits)
    }
}

/// The order in which results are listed: by distance in the total order, then by id.
pub open spec fn precedes(a: RecordMeasure, b: RecordMeasure) -> bool {
    total_rank(a.measure) < total_rank(b.measure) || (total_rank(a.measure) == total_rank(
        b.measure,
    ) && a.offset_id < b.offset_id)
}

/// `kept` with `item` put in where the order wants it.
pub open spec fn inserted(kept: Seq<RecordMeasure>, item: RecordMeasure) -> Seq<RecordMeasure>
    decreases kept.len(),
{
    if kept.len() > 0 && precedes(item, kept.last()) {
        inserted(kept.drop_last(), item).push(kept.last())
    } else {
        kept.push(item)
    }
}

/// What is kept once `item` has been offered: everything while there is room, and then whatever
/// is nearer than the farthest kept, in its place. Where there is no room at all, nothing is kept.
pub open spec fn offered(
    kept: Seq<RecordMeasure>,
    item: RecordMeasure,
    k: nat,
) -> Seq<RecordMeasure> {
    if kept.len() < k {
        inserted(kept, item)
    } else if kept.len() > 0 && exceeds(kept.last().measure, item.measure) {
        inserted(kept.drop_last(), item)
    } else {
        kept
    }
}

/// What is kept of `items`, offered one after the other, when there is room for `k`.
pub open spec fn nearest_of(items: Seq<RecordMeasure>, k: nat) -> Seq<RecordMeasure>
    decreases items.len(),
{
    if items.len() == 0 {
        Seq::empty()
    } else {
        offered(nearest_of(items.drop_last(), k), items.last(), k)
    }
}

/// Keeping the nearest never takes more room than there is, nor leaves room unused.
pub proof fn lemma_nearest_of_len(items: Seq<RecordMeasure>, k: nat)
    ensures
        nearest_of(items, k).len() == (if items.len() < k {
            items.len()
        } else {
            k
        }),
    decreases items.len(),
{
    if items.len() > 0 {
        let kept = nearest_of(items.drop_last(), k);
        lemma_nearest_of_len(items.drop_last(), k);
        lemma_inserted_len(kept, items.last());
        if kept.len() > 0 {
            lemma_inserted_len(kept.drop_last(), items.last());
        }
    }
}

proof fn lemma_inserted_len(kept: Seq<RecordMeasure>, item: RecordMeasure)
    ensures
        inserted(kept, item).len() == kept.len() + 1,
    decreases kept.len(),
{
    if kept.len() > 0 && precedes(item, kept.last()) {
        lemma_inserted_len(kept.drop_last(), item);
    }
}

/// The list is in order: nothing precedes what stands before it.
pub open spec fn is_in_order(list: Seq<RecordMeasure>) -> bool {
    forall|i: int, j: int|
        #![trigger list[i], list[j]]
        0 <= i < j < list.len() ==> !precedes(list[j], list[i])
}

/// Putting an item in keeps the list in order and adds just the item.
pub proof fn lemma_inserted(kept: Seq<RecordMeasure>, item: RecordMeasure)
    ensures
        inserted(kept, item).to_multiset() =~= kept.to_multiset().insert(item),
        is_in_order(kept) ==> is_in_order(inserted(kept, item)),
        forall|i: int|
            0 <= i < inserted(kept, item).len() ==> #[trigger] inserted(kept, item)[i] == item
                || kept.contains(inserted(kept, item)[i]),
    decreases kept.len(),
{
    broadcast use vstd::seq_lib::group_to_multiset_ensures;

    let all = inserted(kept, item);
    if kept.len() > 0 && precedes(item, kept.last()) {
        let lower = kept.drop_last();
        let put = inserted(lower, item);
        lemma_inserted(lower, item);
        assert(kept =~= lower.push(kept.last()));
        assert(all == put.push(kept.last()));
        assert forall|i: int| 0 <= i < all.len() implies #[trigger] all[i] == item
            || kept.contains(all[i]) by {
            if i < put.len() {
                assert(put[i] == item || lower.contains(put[i]));
                if put[i] != item {
                    let j = choose|j: int| 0 <= j < lower.len() && lower[j] == put[i];
                    assert(kept[j] == all[i]);
                }
            } else {
                assert(kept[kept.len() - 1] == all[i]);
            }
        }
        if is_in_order(kept) {
            assert(is_in_order(lower));
            assert forall|i: int, j: int|
                #![trigger all[i], all[j]]
                0 <= i < j < all.len() implies !precedes(all[j], all[i]) by {
                if j == put.len() {
                    assert(put[i] == item || lower.contains(put[i]));
                    if put[i] != item {
                        let w = choose|w: int| 0 <= w < lower.len() && lower[w] == put[i];
                        assert(kept[w] == put[i]);
                        assert(kept[kept.len() - 1] == kept.last());
                    }
                } else {
                    assert(put[i] == all[i] && put[j] == all[j]);
                }
            }
        }
    } else {
        assert(all == kept.push(item));
        assert forall|i: int| 0 <= i < all.len() implies #[trigger] all[i] == item
            || kept.contains(all[i]) by {
            if i < kept.len() {
                assert(kept[i] == all[i]);
            }
        }
        if is_in_order(kept) {
            assert forall|i: int, j: int|
                #![trigger all[i], all[j]]
                0 <= i < j < all.len() implies !precedes(all[j], all[i]) by {
                if j == kept.len() {
                    assert(!precedes(item, kept.last()));
                    assert(kept[i] == all[i]);
                    assert(kept[kept.len() - 1] == kept.last());
                } else {
                    assert(kept[i] == all[i] && kept[j] == all[j]);
                }
            }
        }
    }
}

/// Results are listed nearest first.
pub proof fn law_results_are_in_order(items: Seq<RecordMeasure>, k: nat)
    ensures
        is_in_order(nearest_of(items, k)),
    decreases items.len(),
{
    if items.len() > 0 {
        let earlier = items.drop_last();
        let kept = nearest_of(earlier, k);
        law_results_are_in_order(earlier, k);
        lemma_inserted(kept, items.last());
        if kept.len() > 0 {
            assert(is_in_order(kept.drop_last()));
            lemma_inserted(kept.drop_last(), items.last());
        }
    }
}

/// The nearest are kept: as long as no distance is a NaN, what was offered is what is kept and
/// what is left out, and nothing that is left out is nearer than anything kept.
pub proof fn law_nearest_are_kept(items: Seq<RecordMeasure>, k: nat) -> (left_out: Seq<
    RecordMeasure,
>)
    requires
        forall|i: int| 0 <= i < items.len() ==> !is_nan((#[trigger] items[i]).measure),
    ensures
        items.to_multiset() == nearest_of(items, k).to_multiset().add(left_out.to_multiset()),
        forall|i: int, j: int|
            #![trigger nearest_of(items, k)[i], left_out[j]]
            0 <= i < nearest_of(items, k).len() && 0 <= j < left_out.len() ==> !exceeds(
                nearest_of(items, k)[i].measure,
                left_out[j].measure,
            ),
        forall|i: int|
            0 <= i < nearest_of(items, k).len() ==> !is_nan(
                (#[trigger] nearest_of(items, k)[i]).measure,
            ),
        forall|j: int| 0 <= j < left_out.len() ==> !is_nan((#[trigger] left_out[j]).measure),
    decreases items.len(),
{
    broadcast use vstd::seq_lib::group_to_multiset_ensures;

    if items.len() == 0 {
        assert(items =~= Seq::<RecordMeasure>::empty());
        assert(items.to_multiset() =~= nearest_of(items, k).to_multiset().add(
            Seq::<RecordMeasure>::empty().to_multiset(),
        ));
        Seq::empty()
    } else {
        let earlier = items.drop_last();
        let item = items.last();
        let kept = nearest_of(earlier, k);
        let now = nearest_of(items, k);
        assert(!is_nan(items[items.len() - 1].measure));
        assert forall|i: int| 0 <= i < earlier.len() implies !is_nan(
            (#[trigger] earlier[i]).measure,
        ) by {
            assert(earlier[i] == items[i]);
        }
        let out = law_nearest_are_kept(earlier, k);
        lemma_nearest_of_len(earlier, k);
        law_results_are_in_order(earlier, k);
        assert(items =~= earlier.push(item));
        lemma_inserted(kept, item);
        if kept.len() < k {
            assert(out.len() == 0) by {
                assert(earlier.to_multiset().len() == kept.to_multiset().len()
                    + out.to_multiset().len());
            }
            assert(items.to_multiset() =~= now.to_multiset().add(out.to_multiset()));
            assert forall|i: int| 0 <= i < now.len() implies !is_nan(
                (#[trigger] now[i]).measure,
            ) by {
                if now[i] != item {
                    assert(kept.contains(now[i]));
                }
            }
            out
        } else if kept.len() > 0 && exceeds(kept.last().measure, item.measure) {
            let lower = kept.drop_last();
            let top = kept.last();
            let new_out = out.push(top);
            lemma_inserted(lower, item);
            assert(kept =~= lower.push(top));
            assert(items.to_multiset() =~= now.to_multiset().add(new_out.to_multiset()));
            assert forall|i: int| 0 <= i < now.len() implies !is_nan(
                (#[trigger] now[i]).measure,
            ) by {
                if now[i] != item {
                    let w = choose|w: int| 0 <= w < lower.len() && lower[w] == now[i];
                    assert(kept[w] == now[i]);
                }
            }
            assert forall|i: int, j: int|
                #![trigger now[i], new_out[j]]
                0 <= i < now.len() && 0 <= j < new_out.len() implies !exceeds(
                now[i].measure,
                new_out[j].measure,
            ) by {
                assert(kept[kept.len() - 1] == top);
                if now[i] == item {
                    if j < out.len() {
                        assert(out[j] == new_out[j]);
                        assert(!exceeds(top.measure, out[j].measure));
                    }
                } else {
                    assert(lower.contains(now[i]));
                    let w = choose|w: int| 0 <= w < lower.len() && lower[w] == now[i];
                    assert(kept[w] == now[i]);
                    if j < out.len() {
                        assert(out[j] == new_out[j]);
                    } else {
                        assert(!precedes(top, kept[w]));
                    }
                }
            }
            assert forall|j: int| 0 <= j < new_out.len() implies !is_nan(
                (#[trigger] new_out[j]).measure,
            ) by {
                if j < out.len() {
                    assert(out[j] == new_out[j]);
                } else {
                    assert(kept[kept.len() - 1] == top);
                }
            }
            new_out
        } else {
            let new_out = out.push(item);
            assert(items.to_multiset() =~= now.to_multiset().add(new_out.to_multiset()));
            assert forall|i: int, j: int|
                #![trigger now[i], new_out[j]]
                0 <= i < now.len() && 0 <= j < new_out.len() implies !exceeds(
                now[i].measure,
                new_out[j].measure,
            ) by {
                if j < out.len() {
                    assert(out[j] == new_out[j]);
                } else {
                    assert(kept[kept.len() - 1] == kept.last());
                    assert(i < kept.len() - 1 ==> !precedes(kept[kept.len() - 1], kept[i]));
                }
            }
            assert forall|j: int| 0 <= j < new_out.len() implies !is_nan(
                (#[trigger] new_out[j]).measure,
            ) by {
                if j < out.len() {
                    assert(out[j] == new_out[j]);
                }
            }
            new_out
        }
    }
}

fn rank(bits: u32) -> (r: i64)
    ensures
        r == total_rank(bits),
{
    if bits < 0x8000_0000 {
        bits as i64
    } else {
        0x7fff_ffff - bits as i64
    }
}

fn comes_before(a: &RecordMeasure, b: &RecordMeasure) -> (r: bool)
    ensures
        r == precedes(*a, *b),
{
    rank(a.measure) < rank(b.measure) || (rank(a.measure) == rank(b.measure) && a.offset_id
        < b.offset_id)
}

/// The comparison `a > b` of the singles with the given bits.
pub fn is_greater(a: u32, b: u32) -> (r: bool)
    ensures
        r == exceeds(a, b),
{
    let magnitude_a: u32 = if a < 0x8000_0000 {
        a
    } else {
        a - 0x8000_0000
    };
    let magnitude_b: u32 = if b < 0x8000_0000 {
        b
    } else {
        b - 0x8000_0000
    };
    let rank_a: i64 = if a < 0x8000_0000 {
        magnitude_a as i64
    } else {
        -(magnitude_a as i64)
    };
    let rank_b: i64 = if b < 0x8000_0000 {
        magnitude_b as i64
    } else {
        -(magnitude_b as i64)
    };
    magnitude_a <= 0x7f80_0000 && magnitude_b <= 0x7f80_0000 && rank_a > rank_b
}

fn insert_in_order(kept: &mut Vec<RecordMeasure>, item: RecordMeasure)
    ensures
        final(kept)@ == inserted(old(kept)@, item),
{
    let ghost all = kept@;
    let mut place: usize = kept.len();
    assert(all.take(place as int) =~= all);
    assert(all.skip(place as int) =~= Seq::<RecordMeasure>::empty());
    assert(inserted(all, item) =~= inserted(all.take(place as int), item) + all.skip(place as int));
    while place > 0 && comes_before(&item, &kept[place - 1])
        invariant
            kept@ == all,
            place <= all.len(),
            inserted(all, item) == inserted(all.take(place as int), item) + all.skip(place as int),
        decreases place,
    {
        proof {
            let upto = all.take(place as int);
            assert(upto.last() == all[place - 1]);
            assert(upto.drop_last() =~= all.take(place - 1));
            assert(inserted(upto, item) + all.skip(place as int) =~= inserted(
                all.take(place - 1),
                item,
            ) + all.skip(place - 1));
        }
        place = place - 1;
    }
    proof {
        let upto = all.take(place as int);
        assert(place > 0 ==> upto.last() == all[place - 1]);
        assert(inserted(upto, item) == upto.push(item));
        assert(all.insert(place as int, item) =~= upto.push(item) + all.skip(place as int));
    }
    kept.insert(place, item);
}

/// Keeps the `k` nearest of `items`, nearest first.
pub fn nearest(items: &Vec<RecordMeasure>, k: usize) -> (kept: Vec<RecordMeasure>)
    ensures
        kept@ == nearest_of(items@, k as nat),
        kept@.len() == (if items@.len() < k {
            items@.len()
        } else {
            k as nat
        }),
{
    let mut kept: Vec<RecordMeasure> = Vec::new();
    let mut next: usize = 0;
    assert(items@.take(0) =~= Seq::<RecordMeasure>::empty());
    while next < items.len()
        invariant
            next <= items@.len(),
            kept@ == nearest_of(items@.take(next as int), k as nat),
        decreases items@.len() - next,
    {
        let item = items[next];
        proof {
            let seen = items@.take(next as int);
            let now = items@.take(next + 1);
            assert(now.drop_last() =~= seen);
            assert(now.last() == item);
            lemma_nearest_of_len(seen, k as nat);
        }
        if kept.len() < k {
            insert_in_order(&mut kept, item);
        } else if kept.len() > 0 && is_greater(kept[kept.len() - 1].measure, item.measure) {
            let ghost full = kept@;
            kept.pop();
            assert(kept@ =~= full.drop_last());
            insert_in_order(&mut kept, item);
        }
        next = next + 1;
    }
    assert(items@.take(items@.len() as int) =~= items@);
    proof {
        lemma_nearest_of_len(items@, k as nat);
    }
    kept
}

/// More than a fifth of what the index holds is deleted and fewer than a hundred elements are
/// left.
pub open spec fn is_degraded(len_with_deleted: int, actual_len: int) -> bool {
    5 * (len_with_deleted - actual_len) > len_with_deleted && actual_len < 100
}

/// Whether an index is so small and so full of deletions that it is searched exhaustively.
pub fn should_brute_force(len_with_deleted: usize, actual_len: usize) -> (brute_force: bool)
    requires
        0 < actual_len <= len_with_deleted,
    ensures
        brute_force == is_degraded(len_with_deleted as int, actual_len as int),
{
    actual_len < 100 && len_with_deleted > 5 * actual_len / 4
}

/// The id may be returned: nothing is excluded, or the id is on the list.
pub open spec fn is_allowed(id: usize, allowed: Seq<u32>) -> bool {
    allowed.len() == 0 || allowed.contains(id as u32)
}

/// The ids that an exhaustive search looks at, in order.
pub open spec fn candidates_of(valid_ids: Seq<usize>, allowed: Seq<u32>) -> Seq<usize> {
    valid_ids.filter(|id: usize| is_allowed(id, allowed))
}

/// Picks the ids that an exhaustive search looks at. An empty list of allowed ids allows all.
pub fn candidate_ids(valid_ids: &Vec<usize>, allowed_offset_ids: &Vec<u32>) -> (candidates: Vec<
    usize,
>)
    ensures
        candidates@ == candidates_of(valid_ids@, allowed_offset_ids@),
{
    let mut allowed: HashSet<u32> = HashSet::new();
    let mut next: usize = 0;
    while next < allowed_offset_ids.len()
        invariant
            next <= allowed_offset_ids@.len(),
            forall|id: u32| #[trigger]
                allowed@.contains(id) <==> allowed_offset_ids@.take(next as int).contains(id),
        decreases allowed_offset_ids@.len() - next,
    {
        let ghost before = allowed@;
        allowed.insert(allowed_offset_ids[next]);
        proof {
            let seen = allowed_offset_ids@.take(next as int);
            let now = allowed_offset_ids@.take(next + 1);
            assert(now =~= seen.push(allowed_offset_ids@[next as int]));
            assert forall|id: u32| #[trigger] allowed@.contains(id) <==> now.contains(id) by {
                assert(before.contains(id) <==> seen.contains(id));
                if seen.contains(id) {
                    let i = choose|i: int| 0 <= i < seen.len() && seen[i] == id;
                    assert(now[i] == id);
                }
                if id == allowed_offset_ids@[next as int] {
                    assert(now[next as int] == id);
                }
            }
        }
        next = next + 1;
    }
    assert(allowed_offset_ids@.take(allowed_offset_ids@.len() as int) =~= allowed_offset_ids@);
    let ghost wanted = |id: usize| is_allowed(id, allowed_offset_ids@);
    let mut candidates: Vec<usize> = Vec::new();
    let mut position: usize = 0;
    assert(valid_ids@.take(0).filter(wanted) =~= Seq::<usize>::empty()) by {
        reveal(Seq::filter);
    }
    while position < valid_ids.len()
        invariant
            position <= valid_ids@.len(),
            forall|id: u32| #[trigger]
                allowed@.contains(id) <==> allowed_offset_ids@.contains(id),
            wanted == (|id: usize| is_allowed(id, allowed_offset_ids@)),
            candidates@ == valid_ids@.take(position as int).filter(wanted),
        decreases valid_ids@.len() - position,
    {
        let id: usize = valid_ids[position];
        let offset_id: u32 = #[verifier::truncate]
        (id as u32);
        proof {
            let now = valid_ids@.take(position + 1);
            assert(now.drop_last() =~= valid_ids@.take(position as int));
            assert(now.last() == id);
            reveal(Seq::filter);
        }
        if allowed_offset_ids.len() == 0 || allowed.contains(&offset_id) {
            candidates.push(id);
        }
        position = position + 1;
    }
    assert(valid_ids@.take(valid_ids@.len() as int) =~= valid_ids@);
    candidates
}

/// The allowed ids, in the form in which the index takes them.
pub open spec fn widened(allowed: Seq<u32>) -> Seq<usize> {
    allowed.map_values(|id: u32| id as usize)
}

/// Turns allowed ids into the form in which the index takes them.
pub fn widen_ids(allowed_offset_ids: &Vec<u32>) -> (ids: Vec<usize>)
    ensures
        ids@ == widened(allowed_offset_ids@),
{
    let mut ids: Vec<usize> = Vec::new();
    let mut next: usize = 0;
    while next < allowed_offset_ids.len()
        invariant
            next <= allowed_offset_ids@.len(),
            ids@ =~= widened(allowed_offset_ids@.take(next as int)),
        decreases allowed_offset_ids@.len() - next,
    {
        ids.push(allowed_offset_ids[next] as usize);
        next = next + 1;
    }
    assert(allowed_offset_ids@.take(allowed_offset_ids@.len() as int) =~= allowed_offset_ids@);
    ids
}

/// Ids beside their distances, as far as both go.
pub open spec fn paired(ids: Seq<usize>, measures: Seq<u32>) -> Seq<RecordMeasure> {
    Seq::new(
        if ids.len() <= measures.len() {
            ids.len()
        } else {
            measures.len()
        },
        |i: int| RecordMeasure { offset_id: ids[i] as u32, measure: measures[i] },
    )
}

/// Puts ids beside their distances, as far as both go.
pub fn pair_measures(ids: &Vec<usize>, measures: &Vec<u32>) -> (pairs: Vec<RecordMeasure>)
    ensures
        pairs@ == paired(ids@, measures@),
{
    let mut pairs: Vec<RecordMeasure> = Vec::new();
    let mut next: usize = 0;
    while next < ids.len() && next < measures.len()
        invariant
            next <= ids@.len(),
            next <= measures@.len(),
            pairs@ =~= paired(ids@, measures@).take(next as int),
        decreases ids@.len() - next,
    {
        let offset_id: u32 = #[verifier::truncate]
        (ids[next] as u32);
        pairs.push(RecordMeasure { offset_id, measure: measures[next] });
        next = next + 1;
    }
    assert(paired(ids@, measures@).take(next as int) =~= paired(ids@, measures@));
    pairs
}

} // verus!
