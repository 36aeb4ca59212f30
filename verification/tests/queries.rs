use local_hnsw::error::LocalHnswSegmentReaderError;
use local_hnsw::id_map::IdMap;
use local_hnsw::query::{
    candidate_ids, is_greater, nearest, pair_measures, should_brute_force, widen_ids,
    RecordMeasure,
};
use local_hnsw::reader::LocalHnswSegmentReader;
use local_hnsw::segment::{HnswSpace, IndexFailure, Inner, LocalHnswIndex};
use std::cell::RefCell;
use std::collections::HashMap;

fn measured(offset_id: u32, measure: f32) -> RecordMeasure {
    RecordMeasure { offset_id, measure: measure.to_bits() }
}

fn reader() -> LocalHnswSegmentReader {
    LocalHnswSegmentReader::from_index(LocalHnswIndex {
        inner: Inner::opened(IdMap::default(), 0, 1000, None),
    })
}

const SAMPLES: [f32; 16] = [
    0.0,
    -0.0,
    1.0,
    -1.0,
    0.5,
    -0.5,
    1.5e-42,
    -1.5e-42,
    f32::MIN_POSITIVE,
    f32::MAX,
    f32::MIN,
    f32::INFINITY,
    f32::NEG_INFINITY,
    f32::NAN,
    3.25,
    -1024.75,
];

#[test]
fn bits_compare_as_the_singles_they_stand_for() {
    for a in SAMPLES {
        for b in SAMPLES {
            assert_eq!(is_greater(a.to_bits(), b.to_bits()), a > b, "{a} > {b}");
        }
    }
    let negative_nan = (-f32::NAN).to_bits() | 0x8000_0000;
    assert!(!is_greater(negative_nan, 0) && !is_greater(0, negative_nan));
}

#[test]
fn exhaustive_search_is_decided_by_the_share_of_deletions() {
    for actual_len in 1..130usize {
        for deleted in 0..60usize {
            let len_with_deleted = actual_len + deleted;
            let share = (len_with_deleted - actual_len) as f32 / len_with_deleted as f32;
            assert_eq!(
                should_brute_force(len_with_deleted, actual_len),
                share > 0.2 && actual_len < 100,
                "{actual_len} of {len_with_deleted}"
            );
        }
    }
    assert!(!should_brute_force(10, 8));
    assert!(should_brute_force(10, 7));
    assert!(should_brute_force(124, 99));
    assert!(!should_brute_force(1000, 100));
    assert!(should_brute_force(usize::MAX, 99));
}

#[test]
fn nearest_keeps_the_smallest_distances_in_order() {
    let items = vec![
        measured(1, 4.0),
        measured(2, 1.0),
        measured(3, 3.0),
        measured(4, 2.0),
        measured(5, 5.0),
    ];
    assert_eq!(nearest(&items, 1), vec![measured(2, 1.0)]);
    assert_eq!(
        nearest(&items, 3),
        vec![measured(2, 1.0), measured(4, 2.0), measured(3, 3.0)]
    );
    assert_eq!(
        nearest(&items, 9),
        vec![
            measured(2, 1.0),
            measured(4, 2.0),
            measured(3, 3.0),
            measured(1, 4.0),
            measured(5, 5.0)
        ]
    );
    assert_eq!(nearest(&vec![], 0), vec![]);
    assert_eq!(nearest(&items, 0), vec![]);
}

#[test]
fn nothing_left_out_is_nearer_than_anything_kept() {
    let distances = [7.0f32, -3.5, 0.0, 2.5, -0.0, 9.0, 2.5, 1.0, -8.0, 4.0];
    let items: Vec<RecordMeasure> =
        distances.iter().enumerate().map(|(i, d)| measured(i as u32, *d)).collect();
    for k in 1..=items.len() {
        let kept = nearest(&items, k);
        assert_eq!(kept.len(), k);
        let farthest = f32::from_bits(kept[k - 1].measure);
        for pair in kept.windows(2) {
            assert!(f32::from_bits(pair[0].measure) <= f32::from_bits(pair[1].measure));
        }
        for item in &items {
            assert!(kept.contains(item) || f32::from_bits(item.measure) >= farthest);
        }
    }
}

#[test]
fn equal_distances_are_listed_by_id_and_zeros_by_sign() {
    let items = vec![measured(9, 1.0), measured(3, 1.0), measured(5, 0.0), measured(7, -0.0)];
    assert_eq!(
        nearest(&items, 4),
        vec![measured(7, -0.0), measured(5, 0.0), measured(3, 1.0), measured(9, 1.0)]
    );
    assert_eq!(nearest(&vec![measured(9, 1.0), measured(3, 1.0)], 1), vec![measured(9, 1.0)]);
}

#[test]
fn a_nan_is_listed_last_and_keeps_its_place() {
    let items = vec![measured(1, f32::NAN), measured(2, 2.0), measured(3, 1.0)];
    assert_eq!(nearest(&items, 2), vec![measured(2, 2.0), measured(1, f32::NAN)]);
}

#[test]
fn candidates_are_the_allowed_ids_in_order() {
    assert_eq!(candidate_ids(&vec![5, 1, 3], &vec![3, 5, 5, 8]), vec![5, 3]);
    assert_eq!(candidate_ids(&vec![5, 1, 3], &vec![]), vec![5, 1, 3]);
    assert_eq!(candidate_ids(&vec![], &vec![1]), Vec::<usize>::new());
    assert_eq!(candidate_ids(&vec![(1 << 32) + 3, 4], &vec![3]), vec![(1 << 32) + 3]);
}

#[test]
fn ids_are_widened_and_paired() {
    assert_eq!(widen_ids(&vec![7, u32::MAX]), vec![7, 4294967295]);
    assert_eq!(
        pair_measures(&vec![4, 2, 9], &vec![1.5f32.to_bits(), 2.5f32.to_bits()]),
        vec![measured(4, 1.5), measured(2, 2.5)]
    );
    assert_eq!(pair_measures(&vec![(1 << 32) + 6], &vec![0]), vec![measured(6, 0.0)]);
}

fn unasked_ids() -> Result<Vec<usize>, IndexFailure> {
    panic!("the ids should not be listed")
}

fn unasked_measure(_id: usize) -> Result<Option<u32>, IndexFailure> {
    panic!("nothing should be measured")
}

fn unasked_search(
    _ids: Vec<usize>,
    _k: usize,
) -> Result<(Vec<usize>, Vec<u32>), IndexFailure> {
    panic!("the index should not be searched")
}

#[test]
fn an_empty_index_has_no_neighbours() {
    let found =
        reader().query_embedding(&vec![1], 3, 4, 0, unasked_ids, unasked_measure, unasked_search);
    assert_eq!(found.unwrap(), vec![]);
}

#[test]
fn a_healthy_index_is_searched() {
    let asked = RefCell::new(Vec::new());
    let found = reader().query_embedding(
        &vec![4, 9],
        2,
        100,
        90,
        unasked_ids,
        unasked_measure,
        |ids: Vec<usize>, k: usize| {
            asked.borrow_mut().push((ids, k));
            Ok((vec![9, 4], vec![0.25f32.to_bits(), 0.5f32.to_bits()]))
        },
    );
    assert_eq!(found.unwrap(), vec![measured(9, 0.25), measured(4, 0.5)]);
    assert_eq!(asked.into_inner(), vec![(vec![4, 9], 2)]);

    let failed = reader().query_embedding(
        &vec![],
        2,
        100,
        90,
        unasked_ids,
        unasked_measure,
        |_ids: Vec<usize>, _k: usize| Err(IndexFailure),
    );
    assert!(matches!(failed, Err(LocalHnswSegmentReaderError::QueryError)));
}

#[test]
fn a_degraded_index_is_searched_exhaustively() {
    let distances: HashMap<usize, f32> = HashMap::from([(1, 3.0), (2, 1.0), (5, 2.0), (8, 0.5)]);
    let measure = |id: usize| Ok(distances.get(&id).map(|d| d.to_bits()));
    let all = || Ok(vec![8, 5, 2, 1]);
    let found =
        reader().query_embedding(&vec![], 2, 10, 4, all, measure, unasked_search).unwrap();
    assert_eq!(found, vec![measured(8, 0.5), measured(2, 1.0)]);

    let all = || Ok(vec![8, 5, 2, 1]);
    let found =
        reader().query_embedding(&vec![1, 5, 77], 2, 10, 4, all, measure, unasked_search).unwrap();
    assert_eq!(found, vec![measured(5, 2.0), measured(1, 3.0)]);

    let all = || Ok(vec![8, 5, 2, 1, 66]);
    let failed = reader().query_embedding(&vec![], 2, 10, 5, all, measure, unasked_search);
    assert!(matches!(failed, Err(LocalHnswSegmentReaderError::QueryError)));

    let failed = reader().query_embedding(
        &vec![],
        2,
        10,
        4,
        || Err(IndexFailure),
        unasked_measure,
        unasked_search,
    );
    assert!(matches!(failed, Err(LocalHnswSegmentReaderError::QueryError)));

    let failed = reader().query_embedding(
        &vec![],
        0,
        10,
        4,
        || Ok(vec![1]),
        |_id: usize| Err(IndexFailure),
        unasked_search,
    );
    assert!(matches!(failed, Err(LocalHnswSegmentReaderError::QueryError)));
}

#[test]
fn an_exhaustive_search_for_no_neighbours_finds_none() {
    let found = reader().query_embedding(
        &vec![],
        0,
        10,
        4,
        || Ok(vec![8, 5, 2, 1]),
        |id: usize| Ok(Some((id as f32).to_bits())),
        unasked_search,
    );
    assert_eq!(found.unwrap(), vec![]);
}

#[test]
fn embeddings_come_from_the_index_by_label() {
    let reader = reader();
    assert_eq!(
        reader.get_embedding_by_offset_id(7, |label: usize| Ok(Some(label + 1))).unwrap(),
        8
    );
    assert!(matches!(
        reader.get_embedding_by_offset_id(7, |_label: usize| Ok(None::<usize>)),
        Err(LocalHnswSegmentReaderError::GetEmbeddingError)
    ));
    assert!(matches!(
        reader.get_embedding_by_offset_id(7, |_label: usize| Err::<Option<usize>, _>(IndexFailure)),
        Err(LocalHnswSegmentReaderError::GetEmbeddingError)
    ));
    assert!(matches!(
        reader.get_embedding_by_user_id(&String::from("a"), |_label: usize| Ok(Some(1u8))),
        Err(LocalHnswSegmentReaderError::IdNotFound)
    ));
}

#[test]
fn a_segment_without_a_row_has_seq_id_zero() {
    assert_eq!(LocalHnswSegmentReader::current_max_seq_id(None), 0);
    assert_eq!(LocalHnswSegmentReader::current_max_seq_id(Some(12)), 12);
}

#[test]
fn only_the_cosine_space_normalizes() {
    assert!(HnswSpace::Cosine.normalizes_stored());
    assert!(!HnswSpace::L2.normalizes_stored());
    assert!(!HnswSpace::Ip.normalizes_stored());
}
