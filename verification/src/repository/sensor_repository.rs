//! The one path on which every snapshot enters the store, and the views that
//! are read back from it.
use vstd::prelude::*;
use crate::api::firebase_api::{law_newest_first_is_ordered, newest_first, sort_newest_first};
use crate::data::dao::sensor_reading_dao;
use crate::data::dao::sensor_reading_dao::{
    batch_fault, committed, history, latest_all, latest_of, lemma_latest_among_full,
    lemma_latest_of_added, lemma_latest_of_single,
};
use crate::data::dao::sensor_threshold_dao;
use crate::data::dao::sensor_threshold_dao::{
    effective_threshold, has_threshold, lemma_materialized, lemma_threshold_place, materialized,
    threshold_place, with_threshold,
};
use crate::data::store::{LocalStore, StoreView, keys_unique};
use crate::error::{PipelineError, StorageFault};
use crate::model::binary32::Binary32;
use crate::model::sensor_data::{
    ESP32SensorData, ReadingView, SensorReading, ThresholdView, expand, reading_views,
};
use crate::model::sensor_types::{is_sensor_type, law_sensor_types_distinct, sensor_types};

verus! {

/// Whether a value lies outside a threshold: below the lower bound or above
/// the upper one. A value on a bound lies inside.
pub open spec fn out_of_bounds(value: Binary32, threshold: ThresholdView) -> bool {
    value.below(threshold.min_value) || threshold.max_value.below(value)
}

/// A reading with its alert set by the threshold that holds for its sensor
/// type.
pub open spec fn judged(row: ReadingView, thresholds: Seq<ThresholdView>) -> ReadingView {
    ReadingView {
        is_alert: out_of_bounds(row.value, effective_threshold(thresholds, row.sensor_type)),
        ..row
    }
}

/// Each reading with its alert set.
pub open spec fn judged_all(rows: Seq<ReadingView>, thresholds: Seq<ThresholdView>) -> Seq<
    ReadingView,
> {
    Seq::new(rows.len(), |i: int| judged(rows[i], thresholds))
}

/// The table of thresholds after the threshold of each reading's sensor
/// type was asked for, in the order of the readings.
pub open spec fn materialized_all(thresholds: Seq<ThresholdView>, rows: Seq<ReadingView>) -> Seq<
    ThresholdView,
>
    decreases rows.len(),
{
    if rows.len() == 0 {
        thresholds
    } else {
        materialized(materialized_all(thresholds, rows.drop_last()), rows.last().sensor_type)
    }
}

/// How many readings a snapshot expands into.
pub const BATCH_LEN: usize = 7;

/// The store once the thresholds for a snapshot were looked up.
pub open spec fn prepared(store: StoreView, data: ESP32SensorData) -> StoreView {
    StoreView { thresholds: materialized_all(store.thresholds, expand(data)), ..store }
}

/// Whether the store has identifiers left for the readings of a snapshot.
pub open spec fn has_room(store: StoreView) -> bool {
    store.last_id + BATCH_LEN <= i64::MAX
}

/// The store after a snapshot went down the ingestion path: the thresholds
/// of the seven sensor types are in the table, and, where the store has
/// room, the seven readings stand at the end of the table of readings, in
/// the order of the sensor types and with their alerts set.
pub open spec fn ingestion(store: StoreView, data: ESP32SensorData) -> StoreView {
    if has_room(store) {
        prepared(store, data).with_batch(judged_all(expand(data), store.thresholds))
    } else {
        prepared(store, data)
    }
}

/// The snapshot that a fetch from the remote store leaves to be ingested:
/// the newest one, or none where the fetch failed or brought nothing.
pub open spec fn newest_remote(remote: Result<Vec<ESP32SensorData>, PipelineError>) -> Option<
    ESP32SensorData,
> {
    match remote {
        Ok(snapshots) => if snapshots@.len() > 0 {
            Some(newest_first(snapshots@)[0])
        } else {
            None
        },
        Err(_) => None,
    }
}

/// To ask for thresholds keeps the table free of doubles and changes the
/// effective threshold of no sensor type.
pub proof fn lemma_materialized_all(thresholds: Seq<ThresholdView>, rows: Seq<ReadingView>)
    requires
        keys_unique(thresholds),
    ensures
        keys_unique(materialized_all(thresholds, rows)),
        forall|key: Seq<char>| #[trigger]
            effective_threshold(materialized_all(thresholds, rows), key) == effective_threshold(
                thresholds,
                key,
            ),
        forall|i: int|
            0 <= i < rows.len() ==> has_threshold(
                materialized_all(thresholds, rows),
                (#[trigger] rows[i]).sensor_type,
            ),
    decreases rows.len(),
{
    if rows.len() > 0 {
        let before = rows.drop_last();
        lemma_materialized_all(thresholds, before);
        lemma_materialized(materialized_all(thresholds, before), rows.last().sensor_type);
        assert forall|i: int| 0 <= i < rows.len() implies has_threshold(
            materialized_all(thresholds, rows),
            (#[trigger] rows[i]).sensor_type,
        ) by {
            if i < before.len() {
                assert(before[i] == rows[i]);
            }
        }
    }
}

/// A batch of readings of known sensor types has a fault exactly where the
/// identifiers run out.
pub proof fn lemma_batch_fault_of_known_types(last_id: int, batch: Seq<ReadingView>)
    requires
        last_id <= i64::MAX,
        forall|i: int| 0 <= i < batch.len() ==> is_sensor_type((#[trigger] batch[i]).sensor_type),
    ensures
        batch_fault(last_id, batch) == if last_id + batch.len() > i64::MAX {
            Some(StorageFault::IdSpaceExhausted)
        } else {
            None
        },
    decreases batch.len(),
{
    if batch.len() > 0 {
        let before = batch.drop_last();
        assert forall|i: int| 0 <= i < before.len() implies is_sensor_type(
            (#[trigger] before[i]).sensor_type,
        ) by {
            assert(before[i] == batch[i]);
        }
        lemma_batch_fault_of_known_types(last_id, before);
        assert(is_sensor_type(batch[batch.len() - 1].sensor_type));
    }
}

/// Sets the alert of each reading by the threshold of its sensor type, and
/// stores the default threshold of every sensor type that had none.
pub fn check_thresholds(store: &mut LocalStore, readings: Vec<SensorReading>) -> (checked: Vec<
    SensorReading,
>)
    requires
        old(store)@.valid(),
    ensures
        final(store)@.valid(),
        reading_views(checked@) == judged_all(reading_views(readings@), old(store)@.thresholds),
        final(store)@ == (StoreView {
            thresholds: materialized_all(old(store)@.thresholds, reading_views(readings@)),
            ..old(store)@
        }),
{
    let ghost before = store@;
    let ghost rows = reading_views(readings@);
    let mut checked: Vec<SensorReading> = Vec::new();
    let mut i: usize = 0;
    assert(reading_views(checked@) =~= judged_all(rows.take(0), before.thresholds));
    while i < readings.len()
        invariant
            i <= readings.len(),
            before.valid(),
            rows == reading_views(readings@),
            store@.valid(),
            store@ == (StoreView {
                thresholds: materialized_all(before.thresholds, rows.take(i as int)),
                ..before
            }),
            checked@.len() == i,
            reading_views(checked@) == judged_all(rows.take(i as int), before.thresholds),
        decreases readings.len() - i,
    {
        let reading = &readings[i];
        proof {
            assert(rows[i as int] == reading@);
            assert(rows.take(i + 1).drop_last() =~= rows.take(i as int));
            assert(rows.take(i + 1).last() == rows[i as int]);
            lemma_materialized_all(before.thresholds, rows.take(i as int));
        }
        let threshold = sensor_threshold_dao::get_threshold(store, reading.sensor_type.as_str());
        let is_alert = reading.value.lt(threshold.min_value) || reading.value.gt(
            threshold.max_value,
        );
        let mut row = reading.duplicate();
        row.is_alert = is_alert;
        let ghost earlier = checked@;
        checked.push(row);
        proof {
            let target = judged_all(rows.take(i + 1), before.thresholds);
            assert(row@ == judged(rows[i as int], before.thresholds));
            assert forall|k: int| 0 <= k < checked@.len() implies reading_views(checked@)[k]
                == target[k] by {
                if k < i {
                    assert(checked@[k] == earlier[k]);
                    assert(reading_views(earlier)[k] == judged_all(
                        rows.take(i as int),
                        before.thresholds,
                    )[k]);
                }
            }
            assert(reading_views(checked@) =~= target);
        }
        i += 1;
    }
    proof {
        assert(rows.take(i as int) =~= rows);
    }
    checked
}

/// The ingestion path: the snapshot is expanded into its seven readings,
/// each gets its alert from the threshold of its sensor type, and the seven
/// are stored as one batch. Where the store has no identifiers left for
/// them, none is stored.
pub fn process_esp32_data(store: &mut LocalStore, data: &ESP32SensorData) -> (outcome: Result<
    (),
    PipelineError,
>)
    requires
        old(store)@.valid(),
    ensures
        final(store)@.valid(),
        final(store)@ == ingestion(old(store)@, *data),
        has_room(old(store)@) ==> outcome is Ok,
        !has_room(old(store)@) ==> outcome == Err::<(), PipelineError>(
            PipelineError::Storage(StorageFault::IdSpaceExhausted),
        ),
{
    let readings = SensorReading::from_esp32_data(data);
    let checked = check_thresholds(store, readings);
    proof {
        let batch = reading_views(checked@);
        law_sensor_types_distinct();
        assert forall|i: int| 0 <= i < batch.len() implies is_sensor_type(
            (#[trigger] batch[i]).sensor_type,
        ) by {
            assert(batch[i].sensor_type == expand(*data)[i].sensor_type);
            assert(expand(*data)[i].sensor_type == sensor_types()[i]);
        }
        lemma_batch_fault_of_known_types(store@.last_id, batch);
    }
    sensor_reading_dao::insert_batch(store, checked.as_slice())
}

/// One round of reconciliation. Where the fetch from the remote store
/// brought snapshots, the newest of them goes down the ingestion path; a
/// fetch that failed or brought nothing changes nothing. The most recent
/// reading of each sensor type is then read from the store and returned.
pub fn fetch_latest_readings(
    store: &mut LocalStore,
    remote: Result<Vec<ESP32SensorData>, PipelineError>,
) -> (outcome: Result<Vec<SensorReading>, PipelineError>)
    requires
        old(store)@.valid(),
    ensures
        final(store)@.valid(),
        match newest_remote(remote) {
            Some(snapshot) => {
                &&& final(store)@ == ingestion(old(store)@, snapshot)
                &&& has_room(old(store)@) ==> outcome is Ok
                &&& !has_room(old(store)@) ==> outcome == Err::<Vec<SensorReading>, PipelineError>(
                    PipelineError::Storage(StorageFault::IdSpaceExhausted),
                )
            },
            None => final(store)@ == old(store)@ && outcome is Ok,
        },
        outcome is Ok ==> reading_views(outcome.unwrap()@) == latest_all(final(store)@.readings),
{
    match remote {
        Ok(snapshots) => {
            proof {
                law_newest_first_is_ordered(snapshots@);
            }
            let sorted = sort_newest_first(snapshots);
            if sorted.len() > 0 {
                match process_esp32_data(store, &sorted[0]) {
                    Ok(()) => {},
                    Err(error) => {
                        return Err(error);
                    },
                }
            }
        },
        Err(_) => {},
    }
    Ok(sensor_reading_dao::get_latest_readings(store))
}

/// The readings of a sensor type from the newest to the oldest, at most
/// `limit` of them; a negative `limit` lifts the bound.
pub fn fetch_reading_history(store: &LocalStore, sensor_type: &str, limit: i64) -> (newest: Vec<
    SensorReading,
>)
    ensures
        reading_views(newest@) == history(store@.readings, sensor_type@, limit as int),
{
    sensor_reading_dao::get_history_by_type(store, sensor_type, limit)
}

/// The upper bound of a sensor type. Where the type had no threshold, the
/// default is stored first.
pub fn get_threshold(store: &mut LocalStore, sensor_type: &str) -> (max_value: Binary32)
    requires
        old(store)@.valid(),
    ensures
        final(store)@.valid(),
        max_value == effective_threshold(old(store)@.thresholds, sensor_type@).max_value,
        final(store)@ == (StoreView {
            thresholds: materialized(old(store)@.thresholds, sensor_type@),
            ..old(store)@
        }),
{
    let threshold = sensor_threshold_dao::get_threshold(store, sensor_type);
    threshold.max_value
}

/// Sets the upper bound of a sensor type and keeps its lower bound, which
/// is the default one where the type had no threshold.
pub fn set_threshold(store: &mut LocalStore, sensor_type: &str, value: Binary32)
    requires
        old(store)@.valid(),
    ensures
        final(store)@.valid(),
        final(store)@ == (StoreView {
            thresholds: with_threshold(
                old(store)@.thresholds,
                ThresholdView {
                    max_value: value,
                    ..effective_threshold(old(store)@.thresholds, sensor_type@)
                },
            ),
            ..old(store)@
        }),
{
    let ghost before = store@.thresholds;
    let mut threshold = sensor_threshold_dao::get_threshold(store, sensor_type);
    threshold.max_value = value;
    proof {
        let asked = materialized(before, sensor_type@);
        lemma_materialized(before, sensor_type@);
        if has_threshold(before, sensor_type@) {
            lemma_threshold_place(before, threshold_place(before, sensor_type@));
        } else {
            let last = before.len() as int;
            lemma_threshold_place(asked, last);
            assert(with_threshold(asked, threshold@) =~= with_threshold(before, threshold@));
        }
    }
    sensor_threshold_dao::set_threshold(store, &threshold);
}

/// A value on a bound raises no alert, a value between the bounds raises
/// none, and a value below the lower bound or above the upper one raises
/// one. This holds of every threshold whose upper bound is not below its
/// lower one.
pub proof fn law_alert_exactly_outside_the_bounds(value: Binary32, threshold: ThresholdView)
    requires
        !threshold.max_value.below(threshold.min_value),
    ensures
        value.same_number(threshold.min_value) ==> !out_of_bounds(value, threshold),
        value.same_number(threshold.max_value) ==> !out_of_bounds(value, threshold),
        threshold.min_value.at_most(value) && value.at_most(threshold.max_value) ==> !out_of_bounds(
            value,
            threshold,
        ),
        value.below(threshold.min_value) ==> out_of_bounds(value, threshold),
        threshold.max_value.below(value) ==> out_of_bounds(value, threshold),
{
}

/// Two snapshots ingested one after the other leave fourteen more readings
/// in the table: the seven of the first, then the seven of the second, each
/// seven in the order of the sensor types and under identifiers that follow
/// one another. What the table held before stands in front of them as it
/// was.
pub proof fn law_batches_do_not_interleave(
    store: StoreView,
    first: ESP32SensorData,
    second: ESP32SensorData,
)
    requires
        store.valid(),
        store.last_id + 2 * BATCH_LEN <= i64::MAX,
    ensures
        ingestion(ingestion(store, first), second).readings == store.readings + committed(
            store.last_id,
            judged_all(expand(first), store.thresholds),
        ) + committed(store.last_id + BATCH_LEN, judged_all(expand(second), store.thresholds)),
        ingestion(ingestion(store, first), second).readings.len() == store.readings.len() + 2
            * BATCH_LEN,
        ingestion(ingestion(store, first), second).last_id == store.last_id + 2 * BATCH_LEN,
{
    let middle = ingestion(store, first);
    lemma_materialized_all(store.thresholds, expand(first));
    assert(judged_all(expand(second), middle.thresholds) =~= judged_all(
        expand(second),
        store.thresholds,
    ));
}

/// A reading without the identifier under which it is stored.
pub open spec fn without_id(row: ReadingView) -> ReadingView {
    ReadingView { id: None, ..row }
}

/// After a snapshot was ingested the store shows a most recent reading for
/// each of the seven sensor types. To ingest the same snapshot once more
/// changes none of them but for the identifier: what is shown goes by
/// sensor type and time, not by how often a snapshot arrived.
pub proof fn law_ingesting_again_shows_the_same(store: StoreView, data: ESP32SensorData)
    requires
        store.valid(),
        store.last_id + 2 * BATCH_LEN <= i64::MAX,
    ensures
        latest_all(ingestion(store, data).readings).len() == 7,
        latest_all(ingestion(ingestion(store, data), data).readings).len() == 7,
        forall|k: int|
            0 <= k < 7 ==> without_id(
                #[trigger] latest_all(ingestion(ingestion(store, data), data).readings)[k],
            ) == without_id(latest_all(ingestion(store, data).readings)[k]),
{
    let keys = sensor_types();
    let once = ingestion(store, data);
    let twice = ingestion(once, data);
    let batch = judged_all(expand(data), store.thresholds);
    let first = committed(store.last_id, batch);
    let second = committed(store.last_id + BATCH_LEN, batch);
    law_sensor_types_distinct();
    law_batches_do_not_interleave(store, data, data);
    assert(once.readings == store.readings + first);
    assert(twice.readings =~= once.readings + second);
    assert forall|i: int, j: int| 0 <= i < j < first.len() implies (#[trigger] first[i]).sensor_type
        != (#[trigger] first[j]).sensor_type by {
        assert(first[i].sensor_type == keys[i] && first[j].sensor_type == keys[j]);
    }
    assert forall|i: int, j: int| 0 <= i < j < second.len() implies (
    #[trigger] second[i]).sensor_type != (#[trigger] second[j]).sensor_type by {
        assert(second[i].sensor_type == keys[i] && second[j].sensor_type == keys[j]);
    }
    assert forall|k: int| 0 <= k < keys.len() implies {
        &&& latest_of(once.readings, #[trigger] keys[k]) is Some
        &&& latest_of(twice.readings, keys[k]) is Some
        &&& without_id(latest_of(twice.readings, keys[k]).unwrap()) == without_id(
            latest_of(once.readings, keys[k]).unwrap(),
        )
    } by {
        assert(first[k].sensor_type == keys[k] && second[k].sensor_type == keys[k]);
        lemma_latest_of_single(first, k);
        lemma_latest_of_single(second, k);
        lemma_latest_of_added(
            store.readings,
            first,
            keys[k],
        );
        lemma_latest_of_added(
            once.readings,
            second,
            keys[k],
        );
    }
    lemma_latest_among_full(once.readings, keys);
    lemma_latest_among_full(twice.readings, keys);
}

} // verus!
