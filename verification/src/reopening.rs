//! What a segment is asked for while it is opened, with which numbers, and what it is opened with.
use crate::id_map::{IdMapView, PersistedFields};
use crate::laws::law_acceptable_maps_are_the_consistent_ones;
use crate::opening::{
    goes_on, is_opening, law_reader_opens_sound_segments, law_writer_opens_sound_or_new_segments,
    seq_id_source, Access, OpenFailure, OpenStep, OpeningView, SegmentAnswers, SeqIdSource,
};
use crate::segment::{HnswConfiguration, InnerView};
use vstd::prelude::*;

verus! {

/// The number that the low 32 bits of `n` stand for when they are read as signed.
pub open spec fn low_bits_signed(n: int) -> int {
    if n % 0x1_0000_0000 <= 0x7fff_ffff {
        n % 0x1_0000_0000
    } else {
        n % 0x1_0000_0000 - 0x1_0000_0000
    }
}

proof fn lemma_narrowed(n: usize)
    ensures
        n as i32 == low_bits_signed(n as int),
{
    let wide = n as u64;
    assert(wide % 0x1_0000_0000 <= 0x7fff_ffff ==> (wide as i32) as i64 == (wide % 0x1_0000_0000)
        as i64) by (bit_vector);
    assert(wide % 0x1_0000_0000 > 0x7fff_ffff ==> (wide as i32) as i64 == ((wide % 0x1_0000_0000)
        as i64) - 0x1_0000_0000i64) by (bit_vector);
    assert(n as i32 == wide as i32);
}

/// What holds of an opening at a step, given what it was started for and the answers: nothing is
/// asked before what it rests on was answered, and every number handed on is the one meant.
pub open spec fn is_on_course(
    opening: OpeningView,
    access: Access,
    configuration: HnswConfiguration,
    dimensionality: usize,
    persistent: bool,
    answers: SegmentAnswers,
) -> bool {
    let metadata = answers.metadata->0;
    let starts_afresh = !persistent || (access == Access::Write && (answers.metadata is None
        || metadata.is_vacant()));
    &&& opening.access == access
    &&& opening.configuration == configuration
    &&& opening.dimensionality == dimensionality
    &&& match opening.step {
        OpenStep::FindFolder => persistent && opening.folder is None,
        OpenStep::CreateFolder => {
            &&& persistent
            &&& access == Access::Write
            &&& !answers.folder_exists
            &&& opening.folder == answers.folder
        },
        OpenStep::FindMetadata => {
            &&& persistent
            &&& answers.folder_exists || access == Access::Write
            &&& opening.folder == answers.folder
            &&& opening.folder is Some
        },
        OpenStep::ReadMetadata => {
            &&& persistent
            &&& answers.folder_exists || access == Access::Write
            &&& opening.folder == answers.folder
            &&& opening.folder is Some
            &&& answers.metadata is Some
        },
        OpenStep::LoadIndex { dimensionality: asked } => {
            &&& is_resuming(opening, dimensionality, persistent, answers)
            &&& asked == dimensionality
            &&& asked > 0
            &&& metadata.dimensionality matches Some(written) ==> asked == written
        },
        OpenStep::ReadSeqId => {
            &&& is_resuming(opening, dimensionality, persistent, answers)
            &&& answers.index_loads
        },
        OpenStep::StoreLegacySeqId { seq_id } => {
            &&& is_resuming(opening, dimensionality, persistent, answers)
            &&& answers.index_loads
            &&& answers.seq_id is None
            &&& metadata.max_seq_id == Some(seq_id)
        },
        OpenStep::InitIndex { dimensionality: asked } => {
            &&& starts_afresh
            &&& dimensionality <= 0x7fff_ffff ==> asked == dimensionality
            &&& asked == low_bits_signed(dimensionality as int)
            &&& opening.folder == (if persistent {
                answers.folder
            } else {
                None
            })
            &&& persistent ==> opening.folder is Some
        },
        OpenStep::Ready => if starts_afresh {
            &&& answers.index_inits
            &&& opening.id_map == IdMapView::fresh()
            &&& opening.seq_id == 0
            &&& opening.folder == (if persistent {
                answers.folder
            } else {
                None
            })
        } else {
            &&& is_resuming(opening, dimensionality, persistent, answers)
            &&& answers.index_loads
            &&& if answers.seq_id is Some {
                answers.seq_id == Some(opening.seq_id)
            } else {
                metadata.max_seq_id == Some(opening.seq_id)
            }
            &&& forall|id: Seq<char>| #[trigger]
                opening.id_map.id_to_seq_id.contains_key(id) ==> opening.id_map.id_to_seq_id[id]
                    <= opening.seq_id
        },
    }
    &&& !(opening.step is LoadIndex || opening.step is ReadSeqId || opening.step is StoreLegacySeqId
        || opening.step is Ready) ==> opening.id_map == IdMapView::fresh()
    &&& !(opening.step is Ready) ==> opening.seq_id == 0
}

/// The opening goes on with the maps of the metadata, which were found sound.
pub open spec fn is_resuming(
    opening: OpeningView,
    dimensionality: usize,
    persistent: bool,
    answers: SegmentAnswers,
) -> bool {
    let metadata = answers.metadata->0;
    &&& persistent
    &&& answers.folder is Some
    &&& opening.folder == answers.folder
    &&& answers.metadata is Some
    &&& opening.id_map == metadata
    &&& !metadata.is_vacant()
    &&& metadata.is_acceptable(dimensionality)
}

/// An opening starts on course: with the folder of a persistent segment, else with a new index of
/// the dimensionality of the collection.
pub proof fn law_openings_start_on_course(
    access: Access,
    configuration: HnswConfiguration,
    dimensionality: usize,
    persistent: bool,
    answers: SegmentAnswers,
)
    ensures
        ({
            let first = OpeningView::start(access, configuration, dimensionality, persistent);
            &&& is_on_course(first, access, configuration, dimensionality, persistent, answers)
            &&& persistent <==> first.step is FindFolder
            &&& !persistent <==> first.step is InitIndex
        }),
{
    lemma_narrowed(dimensionality);
}

/// The place of a step in the order in which steps follow each other.
pub open spec fn place(step: OpenStep) -> int {
    match step {
        OpenStep::FindFolder => 0,
        OpenStep::CreateFolder => 1,
        OpenStep::FindMetadata => 2,
        OpenStep::ReadMetadata => 3,
        OpenStep::LoadIndex { .. } => 4,
        OpenStep::ReadSeqId => 5,
        OpenStep::StoreLegacySeqId { .. } => 6,
        OpenStep::InitIndex { .. } => 7,
        OpenStep::Ready => 8,
    }
}

/// An opening on course stays on course and gets nearer to its end with every step.
pub proof fn law_steps_stay_on_course(
    opening: OpeningView,
    next: OpeningView,
    access: Access,
    configuration: HnswConfiguration,
    dimensionality: usize,
    persistent: bool,
    answers: SegmentAnswers,
)
    requires
        is_on_course(opening, access, configuration, dimensionality, persistent, answers),
        opening.leads_to(answers, Ok(next)),
        answers.metadata matches Some(metadata) ==> metadata.id_to_label.dom().finite()
            && metadata.label_to_id.dom().finite() && metadata.id_to_seq_id.dom().finite(),
    ensures
        is_on_course(next, access, configuration, dimensionality, persistent, answers),
        place(next.step) > place(opening.step),
{
    lemma_narrowed(dimensionality);
    if answers.metadata is Some {
        law_acceptable_maps_are_the_consistent_ones(answers.metadata->0, dimensionality);
    }
}

/// Every step of every opening is on course. In particular a new index is asked for with the
/// dimensionality of the collection, and a persisted one is loaded with the dimensionality that
/// the collection and the metadata agree on.
pub proof fn law_openings_stay_on_course(
    access: Access,
    configuration: HnswConfiguration,
    dimensionality: usize,
    persistent: bool,
    answers: SegmentAnswers,
    path: Seq<OpeningView>,
    end: Result<OpeningView, OpenFailure>,
    i: int,
)
    requires
        is_opening(
            OpeningView::start(access, configuration, dimensionality, persistent),
            answers,
            path,
            end,
        ),
        0 <= i < path.len(),
        answers.metadata matches Some(metadata) ==> metadata.id_to_label.dom().finite()
            && metadata.label_to_id.dom().finite() && metadata.id_to_seq_id.dom().finite(),
    ensures
        is_on_course(path[i], access, configuration, dimensionality, persistent, answers),
    decreases i,
{
    if i == 0 {
        law_openings_start_on_course(access, configuration, dimensionality, persistent, answers);
    } else {
        law_openings_stay_on_course(
            access,
            configuration,
            dimensionality,
            persistent,
            answers,
            path,
            end,
            i - 1,
        );
        assert(goes_on(path, answers, i - 1));
        law_steps_stay_on_course(
            path[i - 1],
            path[i],
            access,
            configuration,
            dimensionality,
            persistent,
            answers,
        );
    }
}

/// A segment whose parts agree is there to be opened: its maps tie ids and labels one to one, know
/// a last touch of just the live ids, and stay within the total, the dimensionality and the
/// sequence ids.
pub open spec fn parts_agree(
    dimensionality: usize,
    answers: SegmentAnswers,
    metadata: IdMapView,
    seq_id: u64,
) -> bool {
    &&& answers.folder_exists
    &&& answers.folder is Some
    &&& answers.metadata == Some(metadata)
    &&& answers.index_loads
    &&& 0 < dimensionality <= 0x7fff_ffff
    &&& metadata.dimensionality is None || metadata.dimensionality == Some(dimensionality)
    &&& metadata.id_to_label.dom().finite()
    &&& metadata.label_to_id.dom().finite()
    &&& exists|id: Seq<char>| metadata.id_to_label.contains_key(id)
    &&& forall|id: Seq<char>| #[trigger]
        metadata.id_to_label.contains_key(id) ==> {
            &&& 1 <= metadata.id_to_label[id] <= metadata.total_elements_added
            &&& metadata.label_to_id.contains_key(metadata.id_to_label[id])
            &&& metadata.label_to_id[metadata.id_to_label[id]] == id
        }
    &&& forall|label: u32| #[trigger]
        metadata.label_to_id.contains_key(label) ==> {
            &&& metadata.id_to_label.contains_key(metadata.label_to_id[label])
            &&& metadata.id_to_label[metadata.label_to_id[label]] == label
        }
    &&& forall|id: Seq<char>|
        #![trigger metadata.id_to_seq_id.contains_key(id)]
        #![trigger metadata.id_to_label.contains_key(id)]
        metadata.id_to_seq_id.contains_key(id) <==> metadata.id_to_label.contains_key(id)
    &&& forall|id: Seq<char>| #[trigger]
        metadata.id_to_seq_id.contains_key(id) ==> {
            &&& metadata.id_to_seq_id[id] <= seq_id
            &&& metadata.max_seq_id matches Some(older) ==> metadata.id_to_seq_id[id] <= older
        }
    &&& match answers.seq_id {
        Some(current) => seq_id == current,
        None => metadata.max_seq_id == Some(seq_id),
    }
}

/// A segment whose parts agree opens, for reading and for writing: there is a way to its end, every
/// way leads there, and it is opened with its maps and from its sequence id.
pub proof fn law_segment_whose_parts_agree_opens(
    access: Access,
    configuration: HnswConfiguration,
    dimensionality: usize,
    answers: SegmentAnswers,
    metadata: IdMapView,
    seq_id: u64,
) -> (path: Seq<OpeningView>)
    requires
        parts_agree(dimensionality, answers, metadata, seq_id),
    ensures
        ({
            let first = OpeningView::start(access, configuration, dimensionality, true);
            let ready = OpeningView {
                access,
                configuration,
                dimensionality,
                folder: answers.folder,
                id_map: metadata,
                seq_id,
                step: OpenStep::Ready,
            };
            &&& is_opening(first, answers, path, Ok::<_, OpenFailure>(ready))
            &&& forall|way: Seq<OpeningView>, end: Result<OpeningView, OpenFailure>| #[trigger]
                is_opening(first, answers, way, end) ==> end == Ok::<_, OpenFailure>(ready)
            &&& exists|i: int|
                #![trigger path[i]]
                0 <= i < path.len() && (path[i].step matches OpenStep::LoadIndex {
                    dimensionality: asked,
                } && asked == dimensionality)
        }),
{
    let first = OpeningView::start(access, configuration, dimensionality, true);
    let found = OpeningView { folder: answers.folder, ..first.at(OpenStep::FindMetadata) };
    let reading = found.at(OpenStep::ReadMetadata);
    let loading = OpeningView {
        id_map: metadata,
        ..reading.at(OpenStep::LoadIndex { dimensionality: dimensionality as i32 })
    };
    let looking = loading.at(OpenStep::ReadSeqId);
    let storing = loading.at(OpenStep::StoreLegacySeqId { seq_id });
    let ready = OpeningView { seq_id, ..loading.at(OpenStep::Ready) };
    assert(metadata.id_to_seq_id.dom() =~= metadata.id_to_label.dom());
    assert(!metadata.is_vacant()) by {
        let id = choose|id: Seq<char>| metadata.id_to_label.contains_key(id);
        assert(metadata.id_to_label.dom().contains(id));
    }
    law_acceptable_maps_are_the_consistent_ones(metadata, dimensionality);
    assert(metadata.is_acceptable(dimensionality));
    let path = if answers.seq_id is Some {
        seq![first, found, reading, loading, looking, ready]
    } else {
        seq![first, found, reading, loading, looking, storing, ready]
    };
    assert(goes_on(path, answers, 0));
    assert(goes_on(path, answers, 1));
    assert(goes_on(path, answers, 2));
    assert(goes_on(path, answers, 3));
    assert(goes_on(path, answers, 4));
    assert(path[3] == loading);
    assert forall|way: Seq<OpeningView>, end: Result<OpeningView, OpenFailure>| #[trigger]
        is_opening(first, answers, way, end) implies end == Ok::<_, OpenFailure>(ready) by {
        match access {
            Access::Read => law_reader_opens_sound_segments(
                configuration,
                dimensionality,
                answers,
                way,
                end,
            ),
            Access::Write => law_writer_opens_sound_or_new_segments(
                configuration,
                dimensionality,
                answers,
                way,
                end,
            ),
        }
    }
    path
}

/// A segment in memory, and for writing also one without a folder, without metadata or with no live
/// id, opens afresh: with an index of the dimensionality of the collection, no ids, and from 0.
pub proof fn law_new_segment_opens_afresh(
    access: Access,
    configuration: HnswConfiguration,
    dimensionality: usize,
    persistent: bool,
    answers: SegmentAnswers,
) -> (path: Seq<OpeningView>)
    requires
        persistent ==> access == Access::Write,
        persistent ==> answers.folder is Some,
        persistent && answers.metadata is Some ==> {
            &&& (answers.metadata->0).id_to_label == Map::<Seq<char>, u32>::empty()
            &&& (answers.metadata->0).label_to_id == Map::<u32, Seq<char>>::empty()
            &&& (answers.metadata->0).id_to_seq_id == Map::<Seq<char>, u32>::empty()
        },
        answers.index_inits,
        dimensionality <= 0x7fff_ffff,
    ensures
        ({
            let first = OpeningView::start(access, configuration, dimensionality, persistent);
            let ready = OpeningView {
                access,
                configuration,
                dimensionality,
                folder: if persistent {
                    answers.folder
                } else {
                    None
                },
                id_map: IdMapView {
                    dimensionality: None,
                    total_elements_added: 0,
                    max_seq_id: None,
                    id_to_label: Map::empty(),
                    label_to_id: Map::empty(),
                    id_to_seq_id: Map::empty(),
                },
                seq_id: 0,
                step: OpenStep::Ready,
            };
            &&& is_opening(first, answers, path, Ok::<_, OpenFailure>(ready))
            &&& forall|way: Seq<OpeningView>, end: Result<OpeningView, OpenFailure>| #[trigger]
                is_opening(first, answers, way, end) ==> end == Ok::<_, OpenFailure>(ready)
            &&& exists|i: int|
                #![trigger path[i]]
                0 <= i < path.len() && (path[i].step matches OpenStep::InitIndex {
                    dimensionality: asked,
                } && asked == dimensionality)
            &&& persistent && !answers.folder_exists ==> exists|i: int|
                #![trigger path[i]]
                0 <= i < path.len() && path[i].step is CreateFolder
        }),
{
    lemma_narrowed(dimensionality);
    let first = OpeningView::start(access, configuration, dimensionality, persistent);
    let folder = if persistent {
        answers.folder
    } else {
        None
    };
    let making = OpeningView { folder, ..first.at(OpenStep::CreateFolder) };
    let found = OpeningView { folder, ..first.at(OpenStep::FindMetadata) };
    let reading = found.at(OpenStep::ReadMetadata);
    let init = OpeningView {
        folder,
        ..first.at(OpenStep::InitIndex { dimensionality: dimensionality as i32 })
    };
    let ready = init.at(OpenStep::Ready);
    if answers.metadata is Some && persistent {
        assert((answers.metadata->0).is_vacant());
    }
    let prefix = if !persistent {
        Seq::<OpeningView>::empty()
    } else if answers.folder_exists {
        seq![first, found]
    } else {
        seq![first, making, found]
    };
    let middle = if persistent && answers.metadata is Some {
        prefix.push(reading)
    } else {
        prefix
    };
    let path = middle.push(init).push(ready);
    assert(path[middle.len() as int] == init);
    assert(path.len() >= 2);
    assert forall|i: int| 0 <= i < path.len() - 1 implies #[trigger] goes_on(path, answers, i) by {
    }
    if persistent && !answers.folder_exists {
        assert(path[1] == making);
    }
    assert forall|way: Seq<OpeningView>, end: Result<OpeningView, OpenFailure>| #[trigger]
        is_opening(first, answers, way, end) implies end == Ok::<_, OpenFailure>(ready) by {
        if persistent {
            law_writer_opens_sound_or_new_segments(
                configuration,
                dimensionality,
                answers,
                way,
                end,
            );
        } else {
            assert(0 < way.len() - 1 ==> goes_on(way, answers, 0));
            assert(1 < way.len() - 1 ==> goes_on(way, answers, 1));
        }
    }
    path
}

/// An index that cannot be loaded, or cannot be created, ends an opening and is reported as such.
pub proof fn law_failed_index_ends_the_opening(
    opening: OpeningView,
    answers: SegmentAnswers,
    next: Result<OpeningView, OpenFailure>,
)
    requires
        opening.leads_to(answers, next),
    ensures
        opening.step is LoadIndex ==> (next is Err <==> !answers.index_loads) && (next is Err
            ==> next->Err_0 == OpenFailure::IndexLoad),
        opening.step is InitIndex ==> (next is Err <==> !answers.index_inits) && (next is Err
            ==> next->Err_0 == OpenFailure::IndexInit),
{
}

/// A folder or metadata that is missing ends an opening for reading, and a folder whose name cannot
/// be told ends any; nothing else about them does.
pub proof fn law_missing_files_end_a_reader(
    opening: OpeningView,
    answers: SegmentAnswers,
    next: Result<OpeningView, OpenFailure>,
)
    requires
        opening.leads_to(answers, next),
    ensures
        opening.step is FindFolder ==> (next is Err <==> {
            ||| opening.access == Access::Read && !answers.folder_exists
            ||| answers.folder_exists && answers.folder is None
        }),
        opening.step is FindFolder && next is Err && !answers.folder_exists ==> next->Err_0
            == OpenFailure::UninitializedSegment,
        opening.step is FindFolder && next is Err && answers.folder_exists ==> next->Err_0
            == OpenFailure::PersistPath,
        opening.step is CreateFolder ==> (next is Err <==> opening.folder is None) && (next is Err
            ==> next->Err_0 == OpenFailure::PersistPath),
        opening.step is FindMetadata ==> (next is Err <==> opening.access == Access::Read
            && answers.metadata is None) && (next is Err ==> next->Err_0
            == OpenFailure::UninitializedSegment),
        opening.step is ReadMetadata && (answers.metadata->0).is_vacant() ==> (next is Err
            <==> opening.access == Access::Read) && (next is Err ==> next->Err_0
            == OpenFailure::UninitializedSegment),
        opening.step is ReadMetadata && !(answers.metadata->0).is_vacant() ==> (next is Err
            <==> !(answers.metadata->0).is_acceptable(opening.dimensionality)) && (next is Err
            ==> next->Err_0 is InvalidPersistedMetadata),
{
}

/// A segment that is open for reading or writing has the maps, the sequence id and the threshold it
/// was opened with, keeps its folder, and has taken up nothing yet.
pub proof fn law_opened_segment_holds_what_was_found(
    id_map: IdMapView,
    seq_id: u64,
    sync_threshold: usize,
    folder: Option<Seq<char>>,
)
    ensures
        ({
            let opened = InnerView::opened(id_map, seq_id, sync_threshold, folder);
            &&& opened.id_map == id_map
            &&& opened.last_seen_seq_id == seq_id
            &&& opened.sync_threshold == sync_threshold
            &&& opened.persist_path == folder
            &&& opened.num_elements_since_last_persist == 0
            &&& opened.index_init
            &&& !opened.allow_reset
        }),
{
}

/// Where the database holds a sequence id, it stands; else that of older metadata is to be
/// recorded, if there is one.
pub proof fn law_database_wins_over_older_metadata(current: Option<u64>, older: Option<u64>)
    ensures
        current is Some ==> seq_id_source(current, older) == SeqIdSource::Database(current),
        current is None && older is None ==> seq_id_source(current, older) == SeqIdSource::Database(
            None,
        ),
        current is None && older is Some ==> seq_id_source(current, older) == SeqIdSource::Legacy(
            older->0,
        ),
{
}

/// An opening that has its maps and its index is ready exactly if there is a sequence id that no
/// last touch exceeds; otherwise it is refused, and told whether the sequence id is missing or too
/// small. Maps without any last touch need none.
pub proof fn law_seq_id_has_to_cover_the_maps(
    opening: OpeningView,
    current: Option<u64>,
    result: Result<OpeningView, OpenFailure>,
)
    requires
        opening.settles(current, result),
    ensures
        match current {
            Some(seq_id) => if exists|id: Seq<char>| #[trigger]
                opening.id_map.id_to_seq_id.contains_key(id) && opening.id_map.id_to_seq_id[id]
                    > seq_id {
                &&& result matches Err(OpenFailure::InvalidPersistedMetadata(reason))
                &&& reason@ == "persisted SQLite max_seq_id is smaller than persisted seq ids"@
            } else {
                result == Ok::<_, OpenFailure>(
                    OpeningView { seq_id, step: OpenStep::Ready, ..opening },
                )
            },
            None => if exists|id: Seq<char>| #[trigger]
                opening.id_map.id_to_seq_id.contains_key(id) {
                &&& result matches Err(OpenFailure::InvalidPersistedMetadata(reason))
                &&& reason@ == "persisted metadata has labels but SQLite max_seq_id is missing"@
            } else {
                result == Ok::<_, OpenFailure>(
                    OpeningView { seq_id: 0, step: OpenStep::Ready, ..opening },
                )
            },
        },
{
    let seq_ids = opening.id_map.id_to_seq_id;
    if current is None {
        if exists|id: Seq<char>| #[trigger] seq_ids.contains_key(id) {
            let id = choose|id: Seq<char>| #[trigger] seq_ids.contains_key(id);
            assert(seq_ids.dom().contains(id));
        } else {
            assert(seq_ids.dom() =~= Set::empty());
        }
    }
}

/// Fields that metadata lacks are empty, and those that it has are kept.
pub proof fn law_missing_fields_are_empty(fields: PersistedFields)
    ensures
        fields@.dimensionality == fields.dimensionality,
        fields@.max_seq_id == fields.max_seq_id,
        fields.total_elements_added is None ==> fields@.total_elements_added == 0,
        fields.total_elements_added matches Some(total) ==> fields@.total_elements_added == total,
        fields.id_to_label is None ==> fields@.id_to_label.len() == 0,
        fields.id_to_label matches Some(table) ==> fields@.id_to_label == table@,
        fields.id_to_seq_id is None ==> fields@.id_to_seq_id.len() == 0,
        fields.id_to_seq_id matches Some(table) ==> fields@.id_to_seq_id == table@,
        fields.label_to_id is None ==> fields@.label_to_id.len() == 0,
        fields.label_to_id matches Some(labels) ==> forall|label: u32| #[trigger]
            fields@.label_to_id.contains_key(label) <==> labels@.contains_key(label),
        fields.label_to_id matches Some(labels) ==> forall|label: u32|
            labels@.contains_key(label) ==> #[trigger] fields@.label_to_id[label]
                == labels@[label]@,
{
}

/// Maps that are refused are refused for the first thing that is wrong with them: a map without
/// entries beside one with, maps of different sizes, an entry that is not matched, a total below a
/// label, an older sequence id below a last touch, and last the dimensionality.
pub proof fn law_refusals_name_the_first_defect(
    m: IdMapView,
    dimensionality: usize,
    reason: Seq<char>,
)
    requires
        m.id_to_label.dom().finite(),
        m.label_to_id.dom().finite(),
        m.id_to_seq_id.dom().finite(),
        m.is_refused_for(dimensionality, reason),
    ensures
        ({
            let d = match m.dimensionality {
                Some(d) => d,
                None => dimensionality,
            };
            let unmatched = |id: Seq<char>|
                m.id_to_label.contains_key(id) && {
                    ||| m.id_to_label[id] == 0
                    ||| !m.label_to_id.contains_key(m.id_to_label[id])
                    ||| m.label_to_id[m.id_to_label[id]] != id
                    ||| !m.id_to_seq_id.contains_key(id)
                };
            if m.id_to_label.len() == 0 || m.label_to_id.len() == 0 || m.id_to_seq_id.len() == 0 {
                reason == "segment has partially populated persisted metadata"@
            } else if m.id_to_label.len() != m.label_to_id.len() {
                reason == "persisted label maps are inconsistent"@
            } else if m.id_to_label.len() != m.id_to_seq_id.len() {
                reason == "persisted seq id map does not match labels"@
            } else if exists|id: Seq<char>| #[trigger] unmatched(id) {
                exists|id: Seq<char>| #[trigger]
                    unmatched(id) && reason == (if m.id_to_label[id] == 0 {
                        "persisted labels must be positive"@
                    } else if m.label_to_id.contains_key(m.id_to_label[id])
                        && m.label_to_id[m.id_to_label[id]] == id {
                        "persisted seq id map does not match labels"@
                    } else {
                        "persisted label maps are inconsistent"@
                    })
            } else if exists|id: Seq<char>| #[trigger]
                m.id_to_label.contains_key(id) && m.id_to_label[id] > m.total_elements_added {
                reason == "persisted total_elements_added is smaller than its labels"@
            } else if m.max_seq_id is Some && exists|id: Seq<char>| #[trigger]
                m.id_to_label.contains_key(id) && m.id_to_seq_id[id] > m.max_seq_id->0 {
                reason == "persisted max_seq_id is smaller than its seq ids"@
            } else if d == 0 {
                reason == "segment has persisted labels but dimensionality is 0"@
            } else if d != dimensionality {
                reason == "persisted dimensionality "@ + crate::text::decimal(d as nat)
                    + " does not match collection dimensionality "@ + crate::text::decimal(
                    dimensionality as nat,
                )
            } else {
                &&& d > 0x7fff_ffff
                &&& reason
                    == "persisted dimensionality exceeds the range supported by the HNSW index"@
            }
        }),
{
    let unmatched = |id: Seq<char>|
        m.id_to_label.contains_key(id) && {
            ||| m.id_to_label[id] == 0
            ||| !m.label_to_id.contains_key(m.id_to_label[id])
            ||| m.label_to_id[m.id_to_label[id]] != id
            ||| !m.id_to_seq_id.contains_key(id)
        };
    lemma_empty(m.id_to_label.dom());
    lemma_empty(m.label_to_id.dom());
    lemma_empty(m.id_to_seq_id.dom());
    if m.size_defect() is None {
        if m.entries_sound() {
            assert forall|id: Seq<char>| !#[trigger] unmatched(id) by {
                if m.id_to_label.contains_key(id) {
                    assert(m.entry_defect(id) is None);
                }
            }
        } else {
            let id = choose|id: Seq<char>| #[trigger]
                m.id_to_label.contains_key(id) && m.entry_defect(id) == Some(reason);
            assert(unmatched(id));
        }
    }
}

proof fn lemma_empty<A>(s: Set<A>)
    requires
        s.finite(),
    ensures
        s.is_empty() <==> s.len() == 0,
{
    if s.len() == 0 {
        assert(s =~= Set::empty());
    }
}

} // verus!
