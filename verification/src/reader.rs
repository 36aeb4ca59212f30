//! Reading from a segment: ids are resolved in the identifier maps, embeddings and neighbours
//! come from the index, which the caller brings along as functions.
use crate::error::LocalHnswSegmentReaderError;
use crate::opening::{Access, OpenStep, OpeningView, SegmentOpening};
use crate::query::{
    candidate_ids, candidates_of, is_degraded, nearest, nearest_of, pair_measures, paired,
    should_brute_force, widen_ids, widened, RecordMeasure,
};
use crate::segment::{
    reader_configuration, IndexFailure, Inner, InnerView, LocalHnswIndex, SchemaConfiguration,
};
use vstd::prelude::*;

verus! {

broadcast use vstd::std_specs::hash::group_hash_axioms;

/// A segment opened for reading.
pub struct LocalHnswSegmentReader {
    pub index: LocalHnswIndex,
}

impl View for LocalHnswSegmentReader {
    type V = InnerView;

    open spec fn view(&self) -> InnerView {
        self.index@
    }
}

/// What a reader makes of the answer of the index about one embedding.
pub open spec fn embedding_result<T>(fetched: Result<Option<T>, IndexFailure>) -> Result<
    T,
    LocalHnswSegmentReaderError,
> {
    match fetched {
        Ok(Some(embedding)) => Ok(embedding),
        _ => Err(LocalHnswSegmentReaderError::GetEmbeddingError),
    }
}

/// The results of an exhaustive search that met the distances `measures`.
pub open spec fn exhaustive_results(
    valid_ids: Seq<usize>,
    allowed: Seq<u32>,
    measures: Seq<u32>,
    k: nat,
) -> Seq<RecordMeasure> {
    nearest_of(paired(candidates_of(valid_ids, allowed), measures), k)
}

/// The index may list `ids` as live.
pub open spec fn may_list<A: FnOnce() -> Result<Vec<usize>, IndexFailure>>(
    all_ids: A,
    ids: Vec<usize>,
) -> bool {
    call_ensures(all_ids, (), Ok::<Vec<usize>, IndexFailure>(ids))
}

/// The index may fail to list its live ids.
pub open spec fn may_fail_to_list<A: FnOnce() -> Result<Vec<usize>, IndexFailure>>(
    all_ids: A,
) -> bool {
    exists|failure: IndexFailure| #[trigger]
        call_ensures(all_ids, (), Err::<Vec<usize>, IndexFailure>(failure))
}

/// The distance of `id` may be `distance`.
pub open spec fn may_measure<M: Fn(usize) -> Result<Option<u32>, IndexFailure>>(
    measure: M,
    id: usize,
    distance: u32,
) -> bool {
    call_ensures(measure, (id,), Ok::<Option<u32>, IndexFailure>(Some(distance)))
}

/// There may be no distance of `id`: the index fails or has no embedding for it.
pub open spec fn may_fail_to_measure<M: Fn(usize) -> Result<Option<u32>, IndexFailure>>(
    measure: M,
    id: usize,
) -> bool {
    exists|answer: Result<Option<u32>, IndexFailure>| #[trigger]
        call_ensures(measure, (id,), answer) && !(answer matches Ok(Some(_)))
}

impl LocalHnswSegmentReader {
    /// A reader on a segment that is already open.
    pub fn from_index(hnsw_index: LocalHnswIndex) -> (reader: LocalHnswSegmentReader)
        ensures
            reader == (LocalHnswSegmentReader { index: hnsw_index }),
    {
        LocalHnswSegmentReader { index: hnsw_index }
    }

    /// Starts opening a segment for reading, with the settings that the schema yields for it.
    pub fn from_segment(
        schema: SchemaConfiguration,
        dimensionality: usize,
        persist_root: &Option<String>,
    ) -> (result: Result<SegmentOpening, LocalHnswSegmentReaderError>)
        ensures
            match schema {
                Some(Ok(Some(configuration))) => {
                    &&& result matches Ok(opening)
                    &&& opening@ == OpeningView::start(
                        Access::Read,
                        configuration,
                        dimensionality,
                        persist_root is Some,
                    )
                },
                Some(Err(err)) => result == Err::<SegmentOpening, _>(
                    LocalHnswSegmentReaderError::InvalidHnswConfiguration(err),
                ),
                _ => result == Err::<SegmentOpening, _>(
                    LocalHnswSegmentReaderError::MissingHnswConfiguration,
                ),
            },
    {
        match reader_configuration(schema) {
            Ok(configuration) => Ok(
                SegmentOpening::start(
                    Access::Read,
                    configuration,
                    dimensionality,
                    persist_root.is_some(),
                ),
            ),
            Err(err) => Err(err),
        }
    }

    /// The reader that a finished opening yields.
    pub fn from_opening(opening: SegmentOpening) -> (reader: LocalHnswSegmentReader)
        requires
            opening.step == OpenStep::Ready,
        ensures
            reader@ == InnerView::opened(
                opening@.id_map,
                opening.seq_id,
                opening.configuration.sync_threshold,
                opening@.folder,
            ),
    {
        LocalHnswSegmentReader {
            index: LocalHnswIndex {
                inner: Inner::opened(
                    opening.id_map,
                    opening.seq_id,
                    opening.configuration.sync_threshold,
                    opening.folder,
                ),
            },
        }
    }

    /// The label of a user id.
    pub fn get_offset_id_by_user_id(&self, user_id: &String) -> (result: Result<
        u32,
        LocalHnswSegmentReaderError,
    >)
        ensures
            result == (if self@.id_map.id_to_label.contains_key(user_id@) {
                Ok(self@.id_map.id_to_label[user_id@])
            } else {
                Err(LocalHnswSegmentReaderError::IdNotFound)
            }),
    {
        match self.index.inner.id_map.id_to_label.get(user_id.as_str()) {
            Some(offset_id) => Ok(offset_id),
            None => Err(LocalHnswSegmentReaderError::IdNotFound),
        }
    }

    /// The user id of a label.
    pub fn get_user_id_by_offset_id(&self, offset_id: u32) -> (result: Result<
        String,
        LocalHnswSegmentReaderError,
    >)
        ensures
            match result {
                Ok(user_id) => self@.id_map.label_to_id.contains_key(offset_id) && user_id@
                    == self@.id_map.label_to_id[offset_id],
                Err(err) => !self@.id_map.label_to_id.contains_key(offset_id) && err
                    == LocalHnswSegmentReaderError::IdNotFound,
            },
    {
        match self.index.inner.id_map.label_to_id.get(&offset_id) {
            Some(user_id) => Ok(user_id.clone()),
            None => Err(LocalHnswSegmentReaderError::IdNotFound),
        }
    }

    /// The embedding of a label, which `fetch` gets from the index.
    pub fn get_embedding_by_offset_id<T, F: FnOnce(usize) -> Result<Option<T>, IndexFailure>>(
        &self,
        offset_id: u32,
        fetch: F,
    ) -> (result: Result<T, LocalHnswSegmentReaderError>)
        requires
            call_requires(fetch, (offset_id as usize,)),
        ensures
            exists|fetched: Result<Option<T>, IndexFailure>|
                call_ensures(fetch, (offset_id as usize,), fetched) && result
                    == #[trigger] embedding_result(fetched),
    {
        let fetched = fetch(offset_id as usize);
        let ghost answer = fetched;
        let result = match fetched {
            Ok(Some(embedding)) => Ok(embedding),
            _ => Err(LocalHnswSegmentReaderError::GetEmbeddingError),
        };
        assert(result == embedding_result(answer));
        result
    }

    /// The embedding of a user id, which `fetch` gets from the index by the label of the id.
    pub fn get_embedding_by_user_id<T, F: FnOnce(usize) -> Result<Option<T>, IndexFailure>>(
        &self,
        user_id: &String,
        fetch: F,
    ) -> (result: Result<T, LocalHnswSegmentReaderError>)
        requires
            self@.id_map.id_to_label.contains_key(user_id@) ==> call_requires(
                fetch,
                (self@.id_map.id_to_label[user_id@] as usize,),
            ),
        ensures
            if self@.id_map.id_to_label.contains_key(user_id@) {
                exists|fetched: Result<Option<T>, IndexFailure>|
                    call_ensures(
                        fetch,
                        (self@.id_map.id_to_label[user_id@] as usize,),
                        fetched,
                    ) && result == #[trigger] embedding_result(fetched)
            } else {
                result == Err::<T, _>(LocalHnswSegmentReaderError::IdNotFound)
            },
    {
        match self.get_offset_id_by_user_id(user_id) {
            Ok(offset_id) => self.get_embedding_by_offset_id(offset_id, fetch),
            Err(err) => Err(err),
        }
    }

    /// The sequence id that the database holds for the segment, 0 if it holds none.
    pub fn current_max_seq_id(row: Option<u64>) -> (seq_id: u64)
        ensures
            seq_id == (match row {
                Some(seq_id) => seq_id,
                None => 0,
            }),
    {
        match row {
            Some(seq_id) => seq_id,
            None => 0,
        }
    }

    /// The `k` nearest neighbours of a query among the allowed ids, all if none are given.
    ///
    /// `all_ids` lists the live ids of the index, `measure` gives the distance of one of them
    /// from the query, if it has an embedding, and `search` runs the query on the index. A
    /// degraded index is searched exhaustively.
    pub fn query_embedding<
        A: FnOnce() -> Result<Vec<usize>, IndexFailure>,
        M: Fn(usize) -> Result<Option<u32>, IndexFailure>,
        S: FnOnce(Vec<usize>, usize) -> Result<(Vec<usize>, Vec<u32>), IndexFailure>,
    >(
        &self,
        allowed_offset_ids: &Vec<u32>,
        k: u32,
        len_with_deleted: usize,
        actual_len: usize,
        all_ids: A,
        measure: M,
        search: S,
    ) -> (result: Result<Vec<RecordMeasure>, LocalHnswSegmentReaderError>)
        requires
            actual_len <= len_with_deleted,
            call_requires(all_ids, ()),
            forall|id: usize| call_requires(measure, (id,)),
            forall|ids: Vec<usize>, n: usize| call_requires(search, (ids, n)),
        ensures
            if actual_len == 0 {
                result matches Ok(found) && found@.len() == 0
            } else if is_degraded(len_with_deleted as int, actual_len as int) {
                match result {
                    Ok(found) => found@.len() <= k && exists|ids: Vec<usize>, measures: Seq<u32>|
                        {
                            let candidates = candidates_of(ids@, allowed_offset_ids@);
                            &&& may_list(all_ids, ids)
                            &&& measures.len() == candidates.len()
                            &&& forall|i: int|
                                0 <= i < measures.len() ==> may_measure(
                                    measure,
                                    candidates[i],
                                    #[trigger] measures[i],
                                )
                            &&& found@ == #[trigger] exhaustive_results(
                                ids@,
                                allowed_offset_ids@,
                                measures,
                                k as nat,
                            )
                        },
                    Err(err) => {
                        &&& err == LocalHnswSegmentReaderError::QueryError
                        &&& {
                            ||| may_fail_to_list(all_ids)
                            ||| exists|ids: Vec<usize>, i: int|
                                {
                                    &&& may_list(all_ids, ids)
                                    &&& 0 <= i < candidates_of(ids@, allowed_offset_ids@).len()
                                    &&& may_fail_to_measure(
                                        measure,
                                        #[trigger] candidates_of(ids@, allowed_offset_ids@)[i],
                                    )
                                }
                        }
                    },
                }
            } else {
                exists|ids: Vec<usize>, answer: Result<(Vec<usize>, Vec<u32>), IndexFailure>|
                    {
                        &&& ids@ == widened(allowed_offset_ids@)
                        &&& #[trigger] call_ensures(search, (ids, k as usize), answer)
                        &&& match answer {
                            Ok((found_ids, measures)) => result matches Ok(found) && found@
                                == paired(found_ids@, measures@),
                            Err(_) => result == Err::<Vec<RecordMeasure>, _>(
                                LocalHnswSegmentReaderError::QueryError,
                            ),
                        }
                    }
            },
    {
        if actual_len == 0 {
            return Ok(Vec::new());
        }
        if should_brute_force(len_with_deleted, actual_len) {
            let valid_ids = match all_ids() {
                Ok(ids) => ids,
                Err(failure) => {
                    assert(call_ensures(all_ids, (), Err::<Vec<usize>, IndexFailure>(failure)));
                    return Err(LocalHnswSegmentReaderError::QueryError);
                },
            };
            assert(may_list(all_ids, valid_ids));
            let candidates = candidate_ids(&valid_ids, allowed_offset_ids);
            let ghost wanted = candidates_of(valid_ids@, allowed_offset_ids@);
            let mut measures: Vec<u32> = Vec::new();
            let mut next: usize = 0;
            while next < candidates.len()
                invariant
                    actual_len > 0,
                    is_degraded(len_with_deleted as int, actual_len as int),
                    next <= candidates@.len(),
                    candidates@ == wanted,
                    wanted == candidates_of(valid_ids@, allowed_offset_ids@),
                    may_list(all_ids, valid_ids),
                    forall|id: usize| call_requires(measure, (id,)),
                    measures@.len() == next,
                    forall|i: int|
                        0 <= i < next ==> may_measure(measure, wanted[i], #[trigger] measures@[i]),
                decreases candidates@.len() - next,
            {
                let id: usize = candidates[next];
                assert(id == candidates_of(valid_ids@, allowed_offset_ids@)[next as int]);
                let answer = measure(id);
                assert(call_ensures(measure, (id,), answer));
                match answer {
                    Ok(Some(distance)) => {
                        measures.push(distance);
                    },
                    _ => {
                        return Err(LocalHnswSegmentReaderError::QueryError);
                    },
                }
                next = next + 1;
            }
            let found = nearest(&pair_measures(&candidates, &measures), k as usize);
            assert(found@ == exhaustive_results(
                valid_ids@,
                allowed_offset_ids@,
                measures@,
                k as nat,
            ));
            Ok(found)
        } else {
            let allowed_ids = widen_ids(allowed_offset_ids);
            let ghost ids = allowed_ids;
            let answer = search(allowed_ids, k as usize);
            assert(call_ensures(search, (ids, k as usize), answer));
            match answer {
                Ok((offset_ids, distances)) => Ok(pair_measures(&offset_ids, &distances)),
                Err(_) => Err(LocalHnswSegmentReaderError::QueryError),
            }
        }
    }
}

} // verus!
