//! The identifier maps of a segment and the rules by which persisted maps are accepted.
use crate::error::LocalHnswSegmentWriterError;
use crate::id_table::IdTable;
use crate::text::{decimal_text, signed_decimal_text};
use std::collections::HashMap;
use vstd::prelude::*;
use vstd::string::*;

verus! {

broadcast use vstd::std_specs::hash::group_hash_axioms;

/// What a segment persists about its records: the label of each user id, the way back, and the
/// log offset that last touched each id.
pub struct IdMap {
    pub dimensionality: Option<usize>,
    pub total_elements_added: u32,
    /// Superseded by the sequence id kept in SQLite; still read from older metadata.
    pub max_seq_id: Option<u64>,
    pub id_to_label: IdTable,
    pub label_to_id: HashMap<u32, String>,
    pub id_to_seq_id: IdTable,
}

/// The mathematical content of an [`IdMap`].
#[verifier::ext_equal]
pub struct IdMapView {
    pub dimensionality: Option<usize>,
    pub total_elements_added: u32,
    pub max_seq_id: Option<u64>,
    pub id_to_label: Map<Seq<char>, u32>,
    pub label_to_id: Map<u32, Seq<char>>,
    pub id_to_seq_id: Map<Seq<char>, u32>,
}

impl View for IdMap {
    type V = IdMapView;

    open spec fn view(&self) -> IdMapView {
        IdMapView {
            dimensionality: self.dimensionality,
            total_elements_added: self.total_elements_added,
            max_seq_id: self.max_seq_id,
            id_to_label: self.id_to_label@,
            label_to_id: self.label_to_id@.map_values(|id: String| id@),
            id_to_seq_id: self.id_to_seq_id@,
        }
    }
}

impl IdMapView {
    /// The map of a segment that has never held a record.
    pub open spec fn fresh() -> IdMapView {
        IdMapView {
            dimensionality: None,
            total_elements_added: 0,
            max_seq_id: None,
            id_to_label: Map::empty(),
            label_to_id: Map::empty(),
            id_to_seq_id: Map::empty(),
        }
    }

    /// No id is live: all three maps are empty.
    pub open spec fn is_vacant(self) -> bool {
        &&& self.id_to_label.dom().is_empty()
        &&& self.label_to_id.dom().is_empty()
        &&& self.id_to_seq_id.dom().is_empty()
    }

    /// What is wrong with the sizes of the three maps.
    pub open spec fn size_defect(self) -> Option<Seq<char>> {
        if self.id_to_label.dom().is_empty() || self.label_to_id.dom().is_empty()
            || self.id_to_seq_id.dom().is_empty() {
            Some("segment has partially populated persisted metadata"@)
        } else if self.id_to_label.len() != self.label_to_id.len() {
            Some("persisted label maps are inconsistent"@)
        } else if self.id_to_label.len() != self.id_to_seq_id.len() {
            Some("persisted seq id map does not match labels"@)
        } else {
            None
        }
    }

    /// What is wrong with the entry of `id`.
    pub open spec fn entry_defect(self, id: Seq<char>) -> Option<Seq<char>> {
        let label = self.id_to_label[id];
        if label == 0 {
            Some("persisted labels must be positive"@)
        } else if !(self.label_to_id.contains_key(label) && self.label_to_id[label] == id) {
            Some("persisted label maps are inconsistent"@)
        } else if !self.id_to_seq_id.contains_key(id) {
            Some("persisted seq id map does not match labels"@)
        } else {
            None
        }
    }

    /// Some live id has a label above `bound`.
    pub open spec fn has_label_above(self, bound: int) -> bool {
        exists|id: Seq<char>| #[trigger]
            self.id_to_label.contains_key(id) && self.id_to_label[id] > bound
    }

    /// Some live id was last touched at a log offset above `bound`.
    pub open spec fn has_seq_id_above(self, bound: int) -> bool {
        exists|id: Seq<char>| #[trigger]
            self.id_to_label.contains_key(id) && self.id_to_seq_id[id] > bound
    }

    /// The dimensionality the map stands for: its own, else that of the collection.
    pub open spec fn effective_dimensionality(self, expected_dimensionality: usize) -> usize {
        match self.dimensionality {
            Some(d) => d,
            None => expected_dimensionality,
        }
    }

    /// What is wrong with the counters and the dimensionality of a map whose entries are sound.
    pub open spec fn counter_defect(self, expected_dimensionality: usize) -> Option<Seq<char>> {
        let d = self.effective_dimensionality(expected_dimensionality);
        if self.has_label_above(self.total_elements_added as int) {
            Some("persisted total_elements_added is smaller than its labels"@)
        } else if self.max_seq_id is Some && self.has_seq_id_above(self.max_seq_id->0 as int) {
            Some("persisted max_seq_id is smaller than its seq ids"@)
        } else if d == 0 {
            Some("segment has persisted labels but dimensionality is 0"@)
        } else if d != expected_dimensionality {
            Some(
                "persisted dimensionality "@ + crate::text::decimal(d as nat)
                    + " does not match collection dimensionality "@ + crate::text::decimal(
                    expected_dimensionality as nat,
                ),
            )
        } else if d > i32::MAX {
            Some("persisted dimensionality exceeds the range supported by the HNSW index"@)
        } else {
            None
        }
    }

    /// Every live id has a sound entry.
    pub open spec fn entries_sound(self) -> bool {
        forall|id: Seq<char>| #[trigger]
            self.id_to_label.contains_key(id) ==> self.entry_defect(id) is None
    }

    /// The map has live ids and nothing is wrong with it, for a collection of the given
    /// dimensionality.
    pub open spec fn is_acceptable(self, expected_dimensionality: usize) -> bool {
        &&& self.size_defect() is None
        &&& self.entries_sound()
        &&& self.counter_defect(expected_dimensionality) is None
    }

    /// `reason` names something that is wrong with the map. Sizes are judged first, then the
    /// entries, in no fixed order among them, then the counters and the dimensionality.
    pub open spec fn is_refused_for(
        self,
        expected_dimensionality: usize,
        reason: Seq<char>,
    ) -> bool {
        if self.size_defect() is Some {
            self.size_defect() == Some(reason)
        } else if !self.entries_sound() {
            exists|id: Seq<char>| #[trigger]
                self.id_to_label.contains_key(id) && self.entry_defect(id) == Some(reason)
        } else {
            self.counter_defect(expected_dimensionality) == Some(reason)
        }
    }

    /// Ids and labels stand for each other one to one, labels are positive and at most `bound`,
    /// and the offset of the last touch is known of just the live ids.
    pub open spec fn is_consistent(self, bound: int) -> bool {
        &&& self.id_to_label.dom().finite()
        &&& self.label_to_id.dom().finite()
        &&& forall|id: Seq<char>| #[trigger]
            self.id_to_label.contains_key(id) ==> {
                let label = self.id_to_label[id];
                &&& 1 <= label <= bound
                &&& self.label_to_id.contains_key(label)
                &&& self.label_to_id[label] == id
            }
        &&& forall|label: u32| #[trigger]
            self.label_to_id.contains_key(label) ==> {
                let id = self.label_to_id[label];
                &&& self.id_to_label.contains_key(id)
                &&& self.id_to_label[id] == label
            }
        &&& self.id_to_seq_id.dom() == self.id_to_label.dom()
    }

    /// Every live id was last touched at a log offset of at most `bound`.
    pub open spec fn seq_ids_within(self, bound: int) -> bool {
        forall|id: Seq<char>| #[trigger]
            self.id_to_seq_id.contains_key(id) ==> self.id_to_seq_id[id] <= bound
    }
}

impl Default for IdMap {
    /// The map of a segment that has never held a record.
    fn default() -> (id_map: IdMap)
        ensures
            id_map@ == IdMapView::fresh(),
    {
        let id_map = IdMap {
            dimensionality: None,
            total_elements_added: 0,
            max_seq_id: None,
            id_to_label: IdTable::new(),
            label_to_id: HashMap::new(),
            id_to_seq_id: IdTable::new(),
        };
        assert(id_map@ =~= IdMapView::fresh());
        id_map
    }
}

/// The fields of persisted metadata, as far as they are there: older metadata lacks some.
pub struct PersistedFields {
    pub dimensionality: Option<usize>,
    pub total_elements_added: Option<u32>,
    pub max_seq_id: Option<u64>,
    pub id_to_label: Option<IdTable>,
    pub label_to_id: Option<HashMap<u32, String>>,
    pub id_to_seq_id: Option<IdTable>,
}

/// The entries of a table that may be missing.
pub open spec fn table_entries(table: Option<IdTable>) -> Map<Seq<char>, u32> {
    match table {
        Some(table) => table@,
        None => Map::empty(),
    }
}

impl View for PersistedFields {
    type V = IdMapView;

    /// The map that the fields stand for: a missing number is 0, a missing table has no entry.
    open spec fn view(&self) -> IdMapView {
        IdMapView {
            dimensionality: self.dimensionality,
            total_elements_added: match self.total_elements_added {
                Some(total) => total,
                None => 0,
            },
            max_seq_id: self.max_seq_id,
            id_to_label: table_entries(self.id_to_label),
            label_to_id: match self.label_to_id {
                Some(labels) => labels@.map_values(|id: String| id@),
                None => Map::empty(),
            },
            id_to_seq_id: table_entries(self.id_to_seq_id),
        }
    }
}

impl IdMap {
    /// The map that persisted fields stand for.
    pub fn from_fields(fields: PersistedFields) -> (id_map: IdMap)
        ensures
            id_map@ == fields@,
    {
        let ghost meant = fields@;
        let id_map = IdMap {
            dimensionality: fields.dimensionality,
            total_elements_added: match fields.total_elements_added {
                Some(total) => total,
                None => 0,
            },
            max_seq_id: fields.max_seq_id,
            id_to_label: match fields.id_to_label {
                Some(table) => table,
                None => IdTable::new(),
            },
            label_to_id: match fields.label_to_id {
                Some(labels) => labels,
                None => HashMap::new(),
            },
            id_to_seq_id: match fields.id_to_seq_id {
                Some(table) => table,
                None => IdTable::new(),
            },
        };
        assert(id_map@ =~= meant);
        id_map
    }
}

/// The dimensionality of an index: a positive `i32`.
pub struct Dimensionality {
    value: i32,
}

impl View for Dimensionality {
    type V = i32;

    closed spec fn view(&self) -> i32 {
        self.value
    }
}

impl Dimensionality {
    #[verifier::type_invariant]
    spec fn is_positive(self) -> bool {
        self.value > 0
    }

    /// Wraps a positive number.
    pub fn new(value: i32) -> (dimensionality: Dimensionality)
        requires
            value > 0,
        ensures
            dimensionality@ == value,
    {
        Dimensionality { value }
    }

    /// The number.
    pub fn get(&self) -> (value: i32)
        ensures
            value == self@,
            value > 0,
    {
        proof {
            use_type_invariant(self);
        }
        self.value
    }
}

/// A persisted map that was found sound.
pub enum ValidatedIdMap {
    /// Nothing is live; the segment starts afresh.
    Uninitialized,
    /// The map is in use, for an index of this dimensionality.
    Initialized { id_map: IdMap, dimensionality: Dimensionality },
}

/// Decides whether a map read from disk may be used for a collection of the given
/// dimensionality.
pub fn validate_persisted_id_map(id_map: IdMap, expected_dimensionality: usize) -> (result: Result<
    ValidatedIdMap,
    String,
>)
    ensures
        match result {
            Ok(ValidatedIdMap::Uninitialized) => id_map@.is_vacant(),
            Ok(ValidatedIdMap::Initialized { id_map: accepted, dimensionality }) => {
                &&& !id_map@.is_vacant()
                &&& id_map@.is_acceptable(expected_dimensionality)
                &&& accepted == id_map
                &&& dimensionality@ == expected_dimensionality
                &&& dimensionality@ > 0
            },
            Err(reason) => {
                &&& !id_map@.is_vacant()
                &&& !id_map@.is_acceptable(expected_dimensionality)
                &&& id_map@.is_refused_for(expected_dimensionality, reason@)
            },
        },
{
    let labels_empty = id_map.id_to_label.is_empty();
    let ids_empty = id_map.label_to_id.is_empty();
    let seq_ids_empty = id_map.id_to_seq_id.is_empty();
    let ghost m = id_map@;
    assert(m.label_to_id.dom() =~= id_map.label_to_id@.dom());
    if labels_empty && ids_empty && seq_ids_empty {
        return Ok(ValidatedIdMap::Uninitialized);
    }
    if labels_empty || ids_empty || seq_ids_empty {
        return Err("segment has partially populated persisted metadata".to_string());
    }
    let count = id_map.id_to_label.len();
    if count != id_map.label_to_id.len() {
        return Err("persisted label maps are inconsistent".to_string());
    }
    if count != id_map.id_to_seq_id.len() {
        return Err("persisted seq id map does not match labels".to_string());
    }
    let mut max_label: u32 = 0;
    let mut max_persisted_seq_id: u32 = 0;
    let mut position: usize = 0;
    let ghost walk = id_map.id_to_label.walk();
    while position < count
        invariant
            m == id_map@,
            walk == id_map.id_to_label.walk(),
            position <= count == walk.len(),
            id_map.id_to_label.walk_is_complete(),
            m.size_defect() is None,
            forall|i: int|
                #![trigger walk[i]]
                0 <= i < position ==> {
                    &&& m.entry_defect(walk[i].0) is None
                    &&& walk[i].1 <= max_label
                    &&& m.id_to_seq_id[walk[i].0] <= max_persisted_seq_id
                },
            max_label > 0 ==> exists|i: int|
                0 <= i < position && (#[trigger] walk[i]).1 == max_label,
            max_persisted_seq_id > 0 ==> exists|i: int|
                0 <= i < position && m.id_to_seq_id[(#[trigger] walk[i]).0] == max_persisted_seq_id,
        decreases count - position,
    {
        let (user_id, label) = id_map.id_to_label.entry(position);
        let ghost at = walk[position as int];
        if label == 0 {
            assert(m.entry_defect(at.0) == Some("persisted labels must be positive"@));
            return Err("persisted labels must be positive".to_string());
        }
        match id_map.label_to_id.get(&label) {
            Some(reverse_user_id) => {
                if *reverse_user_id != *user_id {
                    assert(m.entry_defect(at.0) == Some("persisted label maps are inconsistent"@));
                    return Err("persisted label maps are inconsistent".to_string());
                }
            },
            None => {
                assert(m.entry_defect(at.0) == Some("persisted label maps are inconsistent"@));
                return Err("persisted label maps are inconsistent".to_string());
            },
        }
        let persisted_seq_id: u32 = match id_map.id_to_seq_id.get(user_id.as_str()) {
            Some(seq_id) => seq_id,
            None => {
                assert(m.entry_defect(at.0) == Some("persisted seq id map does not match labels"@));
                return Err("persisted seq id map does not match labels".to_string());
            },
        };
        if max_label < label {
            max_label = label;
        }
        if max_persisted_seq_id < persisted_seq_id {
            max_persisted_seq_id = persisted_seq_id;
        }
        position = position + 1;
        assert(walk[position - 1] == at);
    }
    proof {
        assert forall|id: Seq<char>| #[trigger] m.id_to_label.contains_key(id) implies {
            &&& m.entry_defect(id) is None
            &&& m.id_to_label[id] <= max_label
            &&& m.id_to_seq_id[id] <= max_persisted_seq_id
        } by {
            let i = choose|i: int| 0 <= i < walk.len() && (#[trigger] walk[i]).0 == id;
            assert(walk[i].0 == id);
        }
        if max_label > 0 {
            let i = choose|i: int| 0 <= i < count && (#[trigger] walk[i]).1 == max_label;
            assert(m.id_to_label.contains_key(walk[i].0));
        }
        if max_persisted_seq_id > 0 {
            let i = choose|i: int|
                0 <= i < count && m.id_to_seq_id[(#[trigger] walk[i]).0] == max_persisted_seq_id;
            assert(m.id_to_label.contains_key(walk[i].0));
        }
        assert(m.entries_sound());
    }
    if id_map.total_elements_added < max_label {
        assert(m.has_label_above(m.total_elements_added as int));
        return Err("persisted total_elements_added is smaller than its labels".to_string());
    }
    assert(!m.has_label_above(m.total_elements_added as int));
    if let Some(max_seq_id) = id_map.max_seq_id {
        if max_persisted_seq_id as u64 > max_seq_id {
            assert(m.has_seq_id_above(max_seq_id as int));
            return Err("persisted max_seq_id is smaller than its seq ids".to_string());
        }
        assert(!m.has_seq_id_above(max_seq_id as int));
    }
    let persisted_dimensionality: usize = match id_map.dimensionality {
        Some(dimensionality) => dimensionality,
        None => expected_dimensionality,
    };
    if persisted_dimensionality == 0 {
        return Err("segment has persisted labels but dimensionality is 0".to_string());
    }
    if persisted_dimensionality != expected_dimensionality {
        let reason = "persisted dimensionality ".to_string().concat(
            decimal_text(persisted_dimensionality as u64).as_str(),
        ).concat(" does not match collection dimensionality ").concat(
            decimal_text(expected_dimensionality as u64).as_str(),
        );
        return Err(reason);
    }
    if persisted_dimensionality > i32::MAX as usize {
        return Err(
            "persisted dimensionality exceeds the range supported by the HNSW index".to_string(),
        );
    }
    Ok(
        ValidatedIdMap::Initialized {
            id_map,
            dimensionality: Dimensionality::new(persisted_dimensionality as i32),
        },
    )
}

/// Decides from which sequence id a segment with the given map goes on, given the one that SQLite
/// holds for it.
pub fn validate_current_seq_id_state(current_seq_id: Option<u64>, id_map: &IdMap) -> (result:
    Result<u64, String>)
    ensures
        match (current_seq_id, result) {
            (Some(current), Ok(seq_id)) => seq_id == current && id_map@.seq_ids_within(
                current as int,
            ),
            (Some(current), Err(reason)) => !id_map@.seq_ids_within(current as int) && reason@
                == "persisted SQLite max_seq_id is smaller than persisted seq ids"@,
            (None, Ok(seq_id)) => seq_id == 0 && id_map@.id_to_seq_id.dom().is_empty(),
            (None, Err(reason)) => !id_map@.id_to_seq_id.dom().is_empty() && reason@
                == "persisted metadata has labels but SQLite max_seq_id is missing"@,
        },
{
    let none_persisted = id_map.id_to_seq_id.is_empty();
    match current_seq_id {
        Some(current) => {
            let count = id_map.id_to_seq_id.len();
            let ghost walk = id_map.id_to_seq_id.walk();
            let mut position: usize = 0;
            while position < count
                invariant
                    current_seq_id == Some(current),
                    walk == id_map.id_to_seq_id.walk(),
                    position <= count == walk.len(),
                    id_map.id_to_seq_id.walk_is_complete(),
                    forall|i: int| 0 <= i < position ==> (#[trigger] walk[i]).1 <= current,
                decreases count - position,
            {
                let (id, seq_id) = id_map.id_to_seq_id.entry(position);
                if current < seq_id as u64 {
                    assert(id_map@.id_to_seq_id.contains_key(id@));
                    return Err(
                        "persisted SQLite max_seq_id is smaller than persisted seq ids".to_string(),
                    );
                }
                position = position + 1;
            }
            assert forall|id: Seq<char>| #[trigger] id_map@.id_to_seq_id.contains_key(
                id,
            ) implies id_map@.id_to_seq_id[id] <= current by {
                let i = choose|i: int| 0 <= i < walk.len() && (#[trigger] walk[i]).0 == id;
                assert(walk[i].1 <= current);
            }
            Ok(current)
        },
        None => {
            if none_persisted {
                Ok(0)
            } else {
                Err("persisted metadata has labels but SQLite max_seq_id is missing".to_string())
            }
        },
    }
}

/// The dimensionality an index reports, in the form in which it is persisted.
pub fn persistable_index_dimensionality(dimensionality: i32) -> (result: Result<
    usize,
    LocalHnswSegmentWriterError,
>)
    ensures
        match result {
            Ok(persistable) => dimensionality > 0 && persistable == dimensionality,
            Err(LocalHnswSegmentWriterError::InvalidPersistedMetadata(reason)) => dimensionality
                <= 0 && reason@ == "index dimensionality must be positive, got "@
                + crate::text::signed_decimal(dimensionality as int),
            Err(_) => false,
        },
{
    if dimensionality <= 0 {
        return Err(
            LocalHnswSegmentWriterError::InvalidPersistedMetadata(
                "index dimensionality must be positive, got ".to_string().concat(
                    signed_decimal_text(dimensionality as i64).as_str(),
                ),
            ),
        );
    }
    Ok(dimensionality as usize)
}

/// A log offset, in the form in which it is persisted: it must fit a `u32`.
pub fn persistable_log_offset(log_offset: i64) -> (result: Result<u32, LocalHnswSegmentWriterError>)
    ensures
        match result {
            Ok(persistable) => persistable == log_offset,
            Err(err) => !(0 <= log_offset <= u32::MAX) && err
                == LocalHnswSegmentWriterError::InvalidLogOffset(log_offset),
        },
{
    if 0 <= log_offset && log_offset <= u32::MAX as i64 {
        Ok(log_offset as u32)
    } else {
        Err(LocalHnswSegmentWriterError::InvalidLogOffset(log_offset))
    }
}

} // verus!
