//! The local store: a table of readings, to which rows are only ever added,
//! and a table of thresholds with one row per sensor type.
use vstd::prelude::*;
use crate::model::sensor_data::{
    ReadingView, SensorReading, SensorThreshold, ThresholdView, reading_views, threshold_views,
};
use crate::model::sensor_types::{is_known_sensor_type, is_sensor_type, str_eq};

verus! {

/// The handle through which every table is read and written.
#[derive(Debug)]
pub struct LocalStore {
    pub(crate) readings: Vec<SensorReading>,
    pub(crate) thresholds: Vec<SensorThreshold>,
    pub(crate) last_id: i64,
}

/// A store as a mathematical value: the readings in the order in which they
/// were stored, the thresholds in the order in which their sensor types were
/// first given one, and the last identifier handed out.
pub ghost struct StoreView {
    pub readings: Seq<ReadingView>,
    pub thresholds: Seq<ThresholdView>,
    pub last_id: int,
}

/// Whether a row can stand in a table whose last identifier is `last_id`: it
/// has an identifier that was handed out, and its sensor type is one of the
/// closed set.
pub open spec fn is_stored_row(row: ReadingView, last_id: int) -> bool {
    &&& row.id is Some
    &&& 1 <= row.id.unwrap() <= last_id
    &&& is_sensor_type(row.sensor_type)
}

/// Whether each row has a larger identifier than every row before it.
pub open spec fn ids_increase(rows: Seq<ReadingView>) -> bool {
    forall|i: int, j: int|
        0 <= i < j < rows.len() ==> (#[trigger] rows[i]).id.unwrap() < (
        #[trigger] rows[j]).id.unwrap()
}

/// Whether no two thresholds are for the same sensor type.
pub open spec fn keys_unique(thresholds: Seq<ThresholdView>) -> bool {
    forall|i: int, j: int|
        0 <= i < j < thresholds.len() ==> (#[trigger] thresholds[i]).sensor_type != (
        #[trigger] thresholds[j]).sensor_type
}

impl StoreView {
    /// What holds of every store.
    pub open spec fn valid(self) -> bool {
        &&& 0 <= self.last_id <= i64::MAX
        &&& forall|i: int|
            0 <= i < self.readings.len() ==> is_stored_row(#[trigger] self.readings[i], self.last_id)
        &&& ids_increase(self.readings)
        &&& keys_unique(self.thresholds)
    }
}

impl View for LocalStore {
    type V = StoreView;

    closed spec fn view(&self) -> StoreView {
        StoreView {
            readings: reading_views(self.readings@),
            thresholds: threshold_views(self.thresholds@),
            last_id: self.last_id as int,
        }
    }
}

/// Whether every row can stand in a table whose last identifier is
/// `last_id`, each with a larger identifier than the rows before it.
fn rows_acceptable(readings: &Vec<SensorReading>, last_id: i64) -> (yes: bool)
    ensures
        yes == {
            &&& forall|i: int|
                0 <= i < readings@.len() ==> is_stored_row(
                    #[trigger] reading_views(readings@)[i],
                    last_id as int,
                )
            &&& ids_increase(reading_views(readings@))
        },
{
    let ghost rows = reading_views(readings@);
    let mut i: usize = 0;
    while i < readings.len()
        invariant
            i <= readings.len(),
            rows == reading_views(readings@),
            forall|k: int| 0 <= k < i ==> is_stored_row(#[trigger] rows[k], last_id as int),
            forall|a: int, b: int|
                0 <= a < b < i ==> (#[trigger] rows[a]).id.unwrap() < (#[trigger] rows[b]).id.unwrap(),
        decreases readings.len() - i,
    {
        let row = &readings[i];
        assert(rows[i as int] == row@);
        let id = match row.id {
            Some(id) => id,
            None => {
                return false;
            },
        };
        if id < 1 || id > last_id || !is_known_sensor_type(row.sensor_type.as_str()) {
            return false;
        }
        if i > 0 {
            let before = &readings[i - 1];
            assert(rows[i - 1] == before@);
            let earlier = match before.id {
                Some(id) => id,
                None => {
                    return false;
                },
            };
            if earlier >= id {
                return false;
            }
        }
        i += 1;
    }
    true
}

/// Whether no two thresholds are for the same sensor type.
fn keys_distinct(thresholds: &Vec<SensorThreshold>) -> (yes: bool)
    ensures
        yes == keys_unique(threshold_views(thresholds@)),
{
    let ghost rows = threshold_views(thresholds@);
    let mut j: usize = 0;
    while j < thresholds.len()
        invariant
            j <= thresholds.len(),
            rows == threshold_views(thresholds@),
            forall|a: int, b: int|
                0 <= a < b < j ==> (#[trigger] rows[a]).sensor_type != (#[trigger] rows[b]).sensor_type,
        decreases thresholds.len() - j,
    {
        let mut i: usize = 0;
        while i < j
            invariant
                i <= j < thresholds.len(),
                rows == threshold_views(thresholds@),
                forall|a: int| 0 <= a < i ==> (#[trigger] rows[a]).sensor_type != rows[j as int].sensor_type,
            decreases j - i,
        {
            if str_eq(thresholds[i].sensor_type.as_str(), thresholds[j].sensor_type.as_str()) {
                assert(rows[i as int].sensor_type == rows[j as int].sensor_type);
                return false;
            }
            i += 1;
        }
        j += 1;
    }
    true
}

impl LocalStore {
    /// What the view is, for the rest of the crate.
    pub(crate) proof fn unfold(&self)
        ensures
            self@ == (StoreView {
                readings: reading_views(self.readings@),
                thresholds: threshold_views(self.thresholds@),
                last_id: self.last_id as int,
            }),
    {
    }

    /// A store with both tables empty.
    pub fn new() -> (store: LocalStore)
        ensures
            store@ == (StoreView { readings: Seq::empty(), thresholds: Seq::empty(), last_id: 0 }),
            store@.valid(),
    {
        let store = LocalStore { readings: Vec::new(), thresholds: Vec::new(), last_id: 0 };
        assert(store@.readings =~= Seq::empty());
        assert(store@.thresholds =~= Seq::empty());
        store
    }

    /// The store that holds the given rows and has handed out `last_id` as
    /// its last identifier, where rows and identifier can make up a store.
    pub fn restore(
        readings: Vec<SensorReading>,
        thresholds: Vec<SensorThreshold>,
        last_id: i64,
    ) -> (store: Option<LocalStore>)
        ensures
            store is Some <==> (StoreView {
                readings: reading_views(readings@),
                thresholds: threshold_views(thresholds@),
                last_id: last_id as int,
            }).valid(),
            store is Some ==> store.unwrap()@ == (StoreView {
                readings: reading_views(readings@),
                thresholds: threshold_views(thresholds@),
                last_id: last_id as int,
            }),
    {
        if last_id < 0 || !rows_acceptable(&readings, last_id) || !keys_distinct(&thresholds) {
            return None;
        }
        Some(LocalStore { readings, thresholds, last_id })
    }

    /// The readings in the order in which they were stored.
    pub fn readings(&self) -> (rows: &Vec<SensorReading>)
        ensures
            reading_views(rows@) == self@.readings,
    {
        &self.readings
    }

    /// The thresholds in the order of the table.
    pub fn thresholds(&self) -> (rows: &Vec<SensorThreshold>)
        ensures
            threshold_views(rows@) == self@.thresholds,
    {
        &self.thresholds
    }

    /// The last identifier handed out; 0 where none was.
    pub fn last_id(&self) -> (id: i64)
        ensures
            id == self@.last_id,
    {
        self.last_id
    }
}

} // verus!
