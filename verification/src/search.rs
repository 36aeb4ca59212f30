//! What a search looks at, how it compares, and what it finds.
use crate::query::{
    candidates_of, exceeds, is_degraded, is_in_order, is_nan, law_nearest_are_kept,
    law_results_are_in_order, lemma_inserted, lemma_nearest_of_len, nearest_of, paired, precedes,
    widened, RecordMeasure,
};
use crate::reader::exhaustive_results;
use vstd::prelude::*;

verus! {

/// Some place of the list holds the low 32 bits of the id.
pub open spec fn is_listed(id: usize, allowed: Seq<u32>) -> bool {
    exists|i: int| 0 <= i < allowed.len() && (#[trigger] allowed[i]) as int == id as int
        % 0x1_0000_0000
}

proof fn lemma_low_bits(id: usize)
    ensures
        (id as u32) as int == id as int % 0x1_0000_0000,
{
    let wide = id as u64;
    assert((wide as u32) as u64 == wide % 0x1_0000_0000) by (bit_vector);
    assert(id as u32 == wide as u32);
}

/// An exhaustive search looks at live ids in the order in which they are listed, at each as often
/// as it is listed: at all of them where no id is named as allowed, else at just those that are
/// named at some place of the list.
pub proof fn law_search_looks_at_each_allowed_id(
    valid_ids: Seq<usize>,
    id: usize,
    allowed: Seq<u32>,
)
    ensures
        candidates_of(Seq::empty(), allowed) == Seq::<usize>::empty(),
        allowed.len() == 0 || is_listed(id, allowed) ==> candidates_of(valid_ids.push(id), allowed)
            == candidates_of(valid_ids, allowed).push(id),
        allowed.len() > 0 && !is_listed(id, allowed) ==> candidates_of(valid_ids.push(id), allowed)
            == candidates_of(valid_ids, allowed),
{
    reveal(Seq::filter);
    lemma_low_bits(id);
    assert(valid_ids.push(id).drop_last() =~= valid_ids);
    assert(allowed.contains(id as u32) <==> is_listed(id, allowed));
}

/// For every place of the allowed list, a live id that stands there is looked at; and where the
/// list is not empty, whatever is looked at is live and stands at some place of the list.
pub proof fn law_search_looks_at_allowed_ids_only(valid_ids: Seq<usize>, allowed: Seq<u32>)
    ensures
        forall|p: int, i: int|
            #![trigger valid_ids[p], allowed[i]]
            0 <= p < valid_ids.len() && 0 <= i < allowed.len() && allowed[i] as int
                == valid_ids[p] as int % 0x1_0000_0000 ==> candidates_of(
                valid_ids,
                allowed,
            ).contains(valid_ids[p]),
        allowed.len() == 0 ==> candidates_of(valid_ids, allowed) == valid_ids,
        forall|c: int|
            #![trigger candidates_of(valid_ids, allowed)[c]]
            0 <= c < candidates_of(valid_ids, allowed).len() ==> {
                let id = candidates_of(valid_ids, allowed)[c];
                &&& valid_ids.contains(id)
                &&& allowed.len() == 0 || is_listed(id, allowed)
            },
        candidates_of(valid_ids, allowed).len() <= valid_ids.len(),
    decreases valid_ids.len(),
{
    let all = candidates_of(valid_ids, allowed);
    if valid_ids.len() == 0 {
        assert(valid_ids =~= Seq::<usize>::empty());
        law_search_looks_at_each_allowed_id(valid_ids, 0, allowed);
    } else {
        let earlier = valid_ids.drop_last();
        let id = valid_ids.last();
        let kept = candidates_of(earlier, allowed);
        law_search_looks_at_allowed_ids_only(earlier, allowed);
        law_search_looks_at_each_allowed_id(earlier, id, allowed);
        assert(earlier.push(id) =~= valid_ids);
        assert forall|p: int, i: int|
            #![trigger valid_ids[p], allowed[i]]
            0 <= p < valid_ids.len() && 0 <= i < allowed.len() && allowed[i] as int
                == valid_ids[p] as int % 0x1_0000_0000 implies all.contains(valid_ids[p]) by {
            if p < earlier.len() {
                assert(earlier[p] == valid_ids[p]);
                assert(kept.contains(earlier[p]));
                let c = choose|c: int| 0 <= c < kept.len() && kept[c] == valid_ids[p];
                assert(all[c] == valid_ids[p]);
            } else {
                assert(is_listed(id, allowed));
                assert(all[kept.len() as int] == id);
            }
        }
        assert forall|c: int| #![trigger all[c]] 0 <= c < all.len() implies {
            &&& valid_ids.contains(all[c])
            &&& allowed.len() == 0 || is_listed(all[c], allowed)
        } by {
            if c < kept.len() {
                assert(kept[c] == all[c]);
                let p = choose|p: int| 0 <= p < earlier.len() && earlier[p] == all[c];
                assert(valid_ids[p] == all[c]);
            } else {
                assert(valid_ids[valid_ids.len() - 1] == all[c]);
            }
        }
    }
}

/// The ids that are allowed are handed to the index one by one, in order and unchanged.
pub proof fn law_index_gets_the_allowed_ids(allowed: Seq<u32>)
    ensures
        widened(allowed).len() == allowed.len(),
        forall|i: int|
            0 <= i < allowed.len() ==> (#[trigger] widened(allowed)[i]) as int == allowed[i] as int,
{
}

/// Ids and distances are put beside each other place by place, up to where the shorter list ends.
pub proof fn law_distances_stay_with_their_ids(ids: Seq<usize>, measures: Seq<u32>)
    ensures
        paired(ids, measures).len() <= ids.len(),
        paired(ids, measures).len() <= measures.len(),
        paired(ids, measures).len() == ids.len() || paired(ids, measures).len() == measures.len(),
        forall|i: int|
            0 <= i < paired(ids, measures).len() ==> {
                let record = #[trigger] paired(ids, measures)[i];
                &&& record.offset_id as int == ids[i] as int % 0x1_0000_0000
                &&& record.measure == measures[i]
            },
{
    assert forall|i: int| 0 <= i < paired(ids, measures).len() implies {
        let record = #[trigger] paired(ids, measures)[i];
        &&& record.offset_id as int == ids[i] as int % 0x1_0000_0000
        &&& record.measure == measures[i]
    } by {
        lemma_low_bits(ids[i]);
    }
}

/// Singles compare by their bits: those without a sign as the bits do, those with one the other way
/// round, any without a sign above any with one but for the two zeros, and a NaN with nothing.
pub proof fn law_singles_compare_by_their_bits(a: u32, b: u32)
    ensures
        a <= 0x7f80_0000 && b <= 0x7f80_0000 ==> (exceeds(a, b) <==> a > b),
        0x8000_0000 <= a <= 0xff80_0000 && 0x8000_0000 <= b <= 0xff80_0000 ==> (exceeds(a, b)
            <==> a < b),
        a <= 0x7f80_0000 && 0x8000_0000 <= b <= 0xff80_0000 ==> (exceeds(a, b) <==> !(a == 0 && b
            == 0x8000_0000)) && !exceeds(b, a),
        is_nan(a) <==> 0x7f80_0000 < a < 0x8000_0000 || a > 0xff80_0000,
        is_nan(a) || is_nan(b) ==> !exceeds(a, b),
{
}

/// Results are listed by distance, those with a sign first and the other way round, and by id where
/// the distances are the same to the bit.
pub proof fn law_results_are_listed_by_distance_then_id(a: RecordMeasure, b: RecordMeasure)
    ensures
        a.measure == b.measure ==> (precedes(a, b) <==> a.offset_id < b.offset_id),
        a.measure < 0x8000_0000 && b.measure < 0x8000_0000 && a.measure != b.measure ==> (precedes(
            a,
            b,
        ) <==> a.measure < b.measure),
        a.measure >= 0x8000_0000 && b.measure >= 0x8000_0000 && a.measure != b.measure ==> (
        precedes(a, b) <==> a.measure > b.measure),
        a.measure >= 0x8000_0000 && b.measure < 0x8000_0000 ==> precedes(a, b) && !precedes(b, a),
        exceeds(b.measure, a.measure) ==> precedes(a, b),
        !(precedes(a, b) && precedes(b, a)),
        precedes(a, b) || precedes(b, a) || a == b,
{
}

/// An index is searched exhaustively exactly if it holds fewer than a hundred elements and, beside
/// them, more than a quarter as many deleted ones: one without deletions never is.
pub proof fn law_small_indexes_full_of_deletions_are_degraded(kept: int, deleted: int)
    requires
        kept > 0,
        deleted >= 0,
    ensures
        is_degraded(kept + deleted, kept) <==> kept <= 99 && 4 * deleted > kept,
        is_degraded(kept + deleted, kept) ==> deleted > 0 && is_degraded(
            kept + deleted + 1,
            kept,
        ),
{
}

/// As many results are kept as there is room for, or as there are.
pub proof fn law_room_for_results_is_used(items: Seq<RecordMeasure>, k: nat)
    ensures
        nearest_of(items, k).len() <= k,
        nearest_of(items, k).len() <= items.len(),
        nearest_of(items, k).len() == k || nearest_of(items, k).len() == items.len(),
{
    lemma_nearest_of_len(items, k);
}

/// What is kept was offered, and no more often than it was offered, whatever the distances.
pub proof fn law_results_were_offered(items: Seq<RecordMeasure>, k: nat)
    ensures
        nearest_of(items, k).to_multiset().subset_of(items.to_multiset()),
    decreases items.len(),
{
    broadcast use vstd::seq_lib::group_to_multiset_ensures;

    if items.len() > 0 {
        let earlier = items.drop_last();
        let item = items.last();
        let kept = nearest_of(earlier, k);
        law_results_were_offered(earlier, k);
        assert(items =~= earlier.push(item));
        lemma_inserted(kept, item);
        if kept.len() > 0 {
            let lower = kept.drop_last();
            lemma_inserted(lower, item);
            assert(kept =~= lower.push(kept.last()));
        }
    }
}

/// Whatever is offered is kept while there is room; once there is none, it takes the place of the
/// last in the list exactly if that is farther away, and otherwise nothing changes.
pub proof fn law_offers_are_judged_by_the_farthest_kept(
    items: Seq<RecordMeasure>,
    item: RecordMeasure,
    k: nat,
)
    ensures
        ({
            let kept = nearest_of(items, k);
            let now = nearest_of(items.push(item), k);
            if items.len() < k {
                now.to_multiset() == kept.to_multiset().insert(item)
            } else if k > 0 && exceeds(kept[k - 1].measure, item.measure) {
                now.to_multiset() == kept.to_multiset().remove(kept[k - 1]).insert(item)
            } else {
                now == kept
            }
        }),
{
    broadcast use vstd::seq_lib::group_to_multiset_ensures;

    let kept = nearest_of(items, k);
    let all = items.push(item);
    lemma_nearest_of_len(items, k);
    assert(all.drop_last() =~= items);
    lemma_inserted(kept, item);
    if kept.len() > 0 {
        let lower = kept.drop_last();
        lemma_inserted(lower, item);
        assert(kept =~= lower.push(kept.last()));
        assert(kept.to_multiset().remove(kept.last()) =~= lower.to_multiset());
        assert(kept.last() == kept[kept.len() - 1]);
    }
}

/// An exhaustive search finds as many of the live and allowed ids as it is asked for, or all of
/// them; each with its own distance, in order; and, as long as no distance is a NaN, none that it
/// leaves out is nearer than one that it finds.
pub proof fn law_exhaustive_search_finds_the_nearest(
    valid_ids: Seq<usize>,
    allowed: Seq<u32>,
    measures: Seq<u32>,
    k: nat,
)
    requires
        measures.len() == candidates_of(valid_ids, allowed).len(),
    ensures
        ({
            let candidates = candidates_of(valid_ids, allowed);
            let found = exhaustive_results(valid_ids, allowed, measures, k);
            &&& found.len() == (if candidates.len() < k {
                candidates.len()
            } else {
                k
            })
            &&& is_in_order(found)
            &&& forall|j: int|
                #![trigger found[j]]
                0 <= j < found.len() ==> exists|c: int|
                    #![trigger candidates[c]]
                    {
                        &&& 0 <= c < candidates.len()
                        &&& valid_ids.contains(candidates[c])
                        &&& allowed.len() == 0 || is_listed(candidates[c], allowed)
                        &&& found[j].offset_id as int == candidates[c] as int % 0x1_0000_0000
                        &&& found[j].measure == measures[c]
                    }
            &&& (forall|c: int| 0 <= c < measures.len() ==> !is_nan(#[trigger] measures[c]))
                ==> forall|c: int|
                #![trigger measures[c]]
                0 <= c < measures.len() ==> {
                    ||| exists|j: int|
                        #![trigger found[j]]
                        0 <= j < found.len() && found[j].offset_id as int == candidates[c] as int
                            % 0x1_0000_0000 && found[j].measure == measures[c]
                    ||| forall|j: int|
                        0 <= j < found.len() ==> !exceeds(
                            (#[trigger] found[j]).measure,
                            measures[c],
                        )
                }
        }),
{
    broadcast use vstd::seq_lib::group_to_multiset_ensures;

    let candidates = candidates_of(valid_ids, allowed);
    let items = paired(candidates, measures);
    let found = exhaustive_results(valid_ids, allowed, measures, k);
    law_search_looks_at_allowed_ids_only(valid_ids, allowed);
    law_distances_stay_with_their_ids(candidates, measures);
    lemma_nearest_of_len(items, k);
    law_results_are_in_order(items, k);
    law_results_were_offered(items, k);
    assert forall|j: int|
        #![trigger found[j]]
        0 <= j < found.len() implies exists|c: int|
        #![trigger candidates[c]]
        {
            &&& 0 <= c < candidates.len()
            &&& valid_ids.contains(candidates[c])
            &&& allowed.len() == 0 || is_listed(candidates[c], allowed)
            &&& found[j].offset_id as int == candidates[c] as int % 0x1_0000_0000
            &&& found[j].measure == measures[c]
        } by {
        assert(found.contains(found[j]));
        assert(found.to_multiset().count(found[j]) > 0);
        assert(items.to_multiset().count(found[j]) > 0);
        assert(items.contains(found[j]));
        let c = choose|c: int| 0 <= c < items.len() && items[c] == found[j];
        assert(candidates[c] as int % 0x1_0000_0000 == items[c].offset_id as int);
    }
    if forall|c: int| 0 <= c < measures.len() ==> !is_nan(#[trigger] measures[c]) {
        assert forall|i: int| 0 <= i < items.len() implies !is_nan(
            (#[trigger] items[i]).measure,
        ) by {
            assert(!is_nan(measures[i]));
        }
        let left_out = law_nearest_are_kept(items, k);
        assert forall|c: int|
            #![trigger measures[c]]
            0 <= c < measures.len() && !(exists|j: int|
                #![trigger found[j]]
                0 <= j < found.len() && found[j].offset_id as int == candidates[c] as int
                    % 0x1_0000_0000 && found[j].measure == measures[c]) implies forall|j: int|
            0 <= j < found.len() ==> !exceeds((#[trigger] found[j]).measure, measures[c]) by {
            let item = items[c];
            assert(items.contains(item));
            assert(items.to_multiset().count(item) > 0);
            assert(!found.contains(item)) by {
                if found.contains(item) {
                    let j = choose|j: int| 0 <= j < found.len() && found[j] == item;
                    assert(found[j].measure == measures[c]);
                }
            }
            assert(found.to_multiset().count(item) == 0);
            assert(left_out.to_multiset().count(item) > 0);
            assert(left_out.contains(item));
            let l = choose|l: int| 0 <= l < left_out.len() && left_out[l] == item;
            assert forall|j: int| 0 <= j < found.len() implies !exceeds(
                (#[trigger] found[j]).measure,
                measures[c],
            ) by {
                assert(found[j] == nearest_of(items, k)[j]);
                assert(!exceeds(nearest_of(items, k)[j].measure, left_out[l].measure));
            }
        }
    }
}

} // verus!
