//! The table of readings: rows are added one at a time or a batch at a time,
//! and read back by sensor type.
use vstd::prelude::*;
use crate::data::store::{LocalStore, StoreView, ids_increase, is_stored_row};
use crate::error::{PipelineError, StorageFault};
use crate::model::sensor_data::{ReadingView, SensorReading, reading_views};
use crate::model::sensor_types::{
    is_known_sensor_type, is_sensor_type, law_sensor_types_distinct, sensor_type_at, sensor_types,
    str_eq, SENSOR_TYPE_COUNT,
};

verus! {

/// Why the row at place `offset` of a batch cannot be stored after
/// `last_id`, if it cannot.
pub open spec fn row_fault(last_id: int, offset: int, row: ReadingView) -> Option<StorageFault> {
    if !is_sensor_type(row.sensor_type) {
        Some(StorageFault::UnknownSensorType)
    } else if last_id + offset + 1 > i64::MAX {
        Some(StorageFault::IdSpaceExhausted)
    } else {
        None
    }
}

/// The fault of the first row of a batch that has one.
pub open spec fn batch_fault(last_id: int, batch: Seq<ReadingView>) -> Option<StorageFault>
    decreases batch.len(),
{
    if batch.len() == 0 {
        None
    } else {
        match batch_fault(last_id, batch.drop_last()) {
            Some(fault) => Some(fault),
            None => row_fault(last_id, batch.len() - 1, batch.last()),
        }
    }
}

/// A row as the table holds it under the identifier `id`.
pub open spec fn stored_as(row: ReadingView, id: int) -> ReadingView {
    ReadingView { id: Some(id as i64), ..row }
}

/// The rows of a batch as the table holds them: the identifiers follow
/// `last_id` without a gap, in the order of the batch.
pub open spec fn committed(last_id: int, batch: Seq<ReadingView>) -> Seq<ReadingView> {
    Seq::new(batch.len(), |i: int| stored_as(batch[i], last_id + 1 + i))
}

/// The most recent row of a sensor type: the one with the latest time, and
/// among rows of that time the one stored last.
pub open spec fn latest_of(rows: Seq<ReadingView>, key: Seq<char>) -> Option<ReadingView>
    decreases rows.len(),
{
    if rows.len() == 0 {
        None
    } else {
        let earlier = latest_of(rows.drop_last(), key);
        let row = rows.last();
        if row.sensor_type != key {
            earlier
        } else if earlier is Some && earlier.unwrap().timestamp > row.timestamp {
            earlier
        } else {
            Some(row)
        }
    }
}

/// The most recent row of each of the given sensor types that has a row, in
/// the order of the types.
pub open spec fn latest_among(rows: Seq<ReadingView>, keys: Seq<Seq<char>>) -> Seq<ReadingView>
    decreases keys.len(),
{
    if keys.len() == 0 {
        Seq::empty()
    } else {
        let first = latest_among(rows, keys.drop_last());
        match latest_of(rows, keys.last()) {
            Some(row) => first.push(row),
            None => first,
        }
    }
}

/// The most recent row of each sensor type that has a row, in the fixed
/// order of the sensor types.
pub open spec fn latest_all(rows: Seq<ReadingView>) -> Seq<ReadingView> {
    latest_among(rows, sensor_types())
}

/// How many rows at the front of a history are newer than `timestamp`.
pub open spec fn newer_count(history: Seq<ReadingView>, timestamp: i64) -> int
    decreases history.len(),
{
    if history.len() == 0 || history[0].timestamp <= timestamp {
        0
    } else {
        1 + newer_count(history.drop_first(), timestamp)
    }
}

/// The rows of a sensor type from the newest to the oldest. A row stands in
/// front of every row that is not newer than it and was stored before it.
pub open spec fn history_all(rows: Seq<ReadingView>, key: Seq<char>) -> Seq<ReadingView>
    decreases rows.len(),
{
    if rows.len() == 0 {
        Seq::empty()
    } else {
        let earlier = history_all(rows.drop_last(), key);
        let row = rows.last();
        if row.sensor_type == key {
            earlier.insert(newer_count(earlier, row.timestamp), row)
        } else {
            earlier
        }
    }
}

/// The newest rows of a sensor type, at most `limit` of them; a negative
/// `limit` lifts the bound.
pub open spec fn history(rows: Seq<ReadingView>, key: Seq<char>, limit: int) -> Seq<ReadingView> {
    let all = history_all(rows, key);
    if 0 <= limit < all.len() {
        all.take(limit)
    } else {
        all
    }
}

impl StoreView {
    /// The store after a batch was committed to it.
    pub open spec fn with_batch(self, batch: Seq<ReadingView>) -> StoreView {
        StoreView {
            readings: self.readings + committed(self.last_id, batch),
            last_id: self.last_id + batch.len(),
            ..self
        }
    }
}

/// The fault of a batch with one more row at its end.
pub proof fn lemma_batch_fault_push(last_id: int, batch: Seq<ReadingView>, row: ReadingView)
    ensures
        batch_fault(last_id, batch.push(row)) == match batch_fault(last_id, batch) {
            Some(fault) => Some(fault),
            None => row_fault(last_id, batch.len() as int, row),
        },
{
    assert(batch.push(row).drop_last() =~= batch);
}

/// A fault in the first rows of a batch is the fault of the batch.
pub proof fn lemma_batch_fault_of_prefix(last_id: int, batch: Seq<ReadingView>, k: int)
    requires
        0 <= k <= batch.len(),
        batch_fault(last_id, batch.take(k)) is Some,
    ensures
        batch_fault(last_id, batch) == batch_fault(last_id, batch.take(k)),
    decreases batch.len() - k,
{
    if k == batch.len() {
        assert(batch.take(k) =~= batch);
    } else {
        assert(batch.take(k + 1) =~= batch.take(k).push(batch[k]));
        lemma_batch_fault_push(last_id, batch.take(k), batch[k]);
        lemma_batch_fault_of_prefix(last_id, batch, k + 1);
    }
}

/// A batch without a fault leaves a store valid.
pub proof fn lemma_with_batch_valid(store: StoreView, batch: Seq<ReadingView>)
    requires
        store.valid(),
        batch_fault(store.last_id, batch) is None,
    ensures
        store.with_batch(batch).valid(),
        forall|i: int| 0 <= i < batch.len() ==> row_fault(store.last_id, i, #[trigger] batch[i]) is None,
    decreases batch.len(),
{
    if batch.len() > 0 {
        lemma_with_batch_valid(store, batch.drop_last());
        assert forall|i: int| 0 <= i < batch.len() implies row_fault(
            store.last_id,
            i,
            #[trigger] batch[i],
        ) is None by {
            if i < batch.len() - 1 {
                assert(batch[i] == batch.drop_last()[i]);
            }
        }
    }
    let after = store.with_batch(batch);
    assert forall|i: int| 0 <= i < after.readings.len() implies is_stored_row(
        #[trigger] after.readings[i],
        after.last_id,
    ) by {
        if i >= store.readings.len() {
            let k = i - store.readings.len();
            assert(row_fault(store.last_id, k, batch[k]) is None);
        }
    }
    assert forall|i: int, j: int| 0 <= i < j < after.readings.len() implies (
    #[trigger] after.readings[i]).id.unwrap() < (#[trigger] after.readings[j]).id.unwrap() by {
        if j >= store.readings.len() {
            let k = j - store.readings.len();
            assert(row_fault(store.last_id, k, batch[k]) is None);
            if i >= store.readings.len() {
                let h = i - store.readings.len();
                assert(row_fault(store.last_id, h, batch[h]) is None);
            }
        }
    }
}

/// Stores one reading under the next identifier and returns that
/// identifier. The identifier that the reading came with is not kept.
pub fn insert(store: &mut LocalStore, reading: &SensorReading) -> (outcome: Result<
    i64,
    PipelineError,
>)
    requires
        old(store)@.valid(),
    ensures
        final(store)@.valid(),
        match row_fault(old(store)@.last_id, 0, reading@) {
            Some(fault) => outcome == Err::<i64, PipelineError>(PipelineError::Storage(fault))
                && final(store)@ == old(store)@,
            None => outcome == Ok::<i64, PipelineError>((old(store)@.last_id + 1) as i64)
                && final(store)@ == old(store)@.with_batch(seq![reading@]),
        },
{
    proof {
        store.unfold();
    }
    if !is_known_sensor_type(reading.sensor_type.as_str()) {
        return Err(PipelineError::Storage(StorageFault::UnknownSensorType));
    }
    if store.last_id == i64::MAX {
        return Err(PipelineError::Storage(StorageFault::IdSpaceExhausted));
    }
    let id = store.last_id + 1;
    let mut row = reading.duplicate();
    row.id = Some(id);
    store.last_id = id;
    store.readings.push(row);
    proof {
        store.unfold();
        let batch = seq![reading@];
        assert(batch =~= Seq::<ReadingView>::empty().push(reading@));
        lemma_batch_fault_push(old(store)@.last_id, Seq::empty(), reading@);
        lemma_with_batch_valid(old(store)@, batch);
        assert(store@.readings =~= old(store)@.with_batch(batch).readings);
    }
    Ok(id)
}

/// Stores a batch of readings as a whole, in the order of the batch, or
/// none of it: the fault of the first row that has one is returned, and the
/// store is then as it was.
pub fn insert_batch(store: &mut LocalStore, readings: &[SensorReading]) -> (outcome: Result<
    (),
    PipelineError,
>)
    requires
        old(store)@.valid(),
    ensures
        final(store)@.valid(),
        match batch_fault(old(store)@.last_id, reading_views(readings@)) {
            Some(fault) => outcome == Err::<(), PipelineError>(PipelineError::Storage(fault))
                && final(store)@ == old(store)@,
            None => outcome is Ok && final(store)@ == old(store)@.with_batch(
                reading_views(readings@),
            ),
        },
{
    proof {
        store.unfold();
    }
    let ghost batch = reading_views(readings@);
    let ghost before = store@;
    let room: i64 = i64::MAX - store.last_id;
    let mut rows: Vec<SensorReading> = Vec::new();
    let mut i: usize = 0;
    while i < readings.len()
        invariant
            i <= readings.len(),
            batch == reading_views(readings@),
            store@ == before,
            before == old(store)@,
            before.valid(),
            store.last_id == before.last_id,
            room == i64::MAX - before.last_id,
            batch_fault(before.last_id, batch.take(i as int)) is None,
            rows@.len() == i,
            reading_views(rows@) == committed(before.last_id, batch.take(i as int)),
        decreases readings.len() - i,
    {
        let reading = &readings[i];
        proof {
            assert(batch[i as int] == reading@);
            assert(batch.take(i + 1) =~= batch.take(i as int).push(batch[i as int]));
            lemma_batch_fault_push(before.last_id, batch.take(i as int), batch[i as int]);
        }
        if !is_known_sensor_type(reading.sensor_type.as_str()) {
            proof {
                lemma_batch_fault_of_prefix(before.last_id, batch, i + 1);
            }
            return Err(PipelineError::Storage(StorageFault::UnknownSensorType));
        }
        if i as u64 >= room as u64 {
            proof {
                lemma_batch_fault_of_prefix(before.last_id, batch, i + 1);
            }
            return Err(PipelineError::Storage(StorageFault::IdSpaceExhausted));
        }
        let mut row = reading.duplicate();
        row.id = Some(store.last_id + 1 + i as i64);
        let ghost earlier = rows@;
        rows.push(row);
        proof {
            let target = committed(before.last_id, batch.take(i + 1));
            assert(row@ == stored_as(batch[i as int], before.last_id + 1 + i));
            assert forall|k: int| 0 <= k < rows@.len() implies reading_views(rows@)[k]
                == target[k] by {
                if k < i {
                    assert(rows@[k] == earlier[k]);
                    assert(reading_views(earlier)[k] == committed(
                        before.last_id,
                        batch.take(i as int),
                    )[k]);
                }
            }
            assert(reading_views(rows@) =~= target);
        }
        i += 1;
    }
    proof {
        assert(batch.take(i as int) =~= batch);
        lemma_with_batch_valid(before, batch);
    }
    store.last_id = store.last_id + rows.len() as i64;
    store.readings.append(&mut rows);
    proof {
        store.unfold();
        assert(store@.readings =~= before.with_batch(batch).readings);
    }
    Ok(())
}

/// The place in a history at which a row of the given time goes.
proof fn lemma_newer_count(history: Seq<ReadingView>, timestamp: i64, place: int)
    requires
        0 <= place <= history.len(),
        forall|k: int| 0 <= k < place ==> (#[trigger] history[k]).timestamp > timestamp,
        place < history.len() ==> history[place].timestamp <= timestamp,
    ensures
        newer_count(history, timestamp) == place,
    decreases history.len(),
{
    if place > 0 {
        assert(history[0].timestamp > timestamp);
        let rest = history.drop_first();
        assert forall|k: int| 0 <= k < place - 1 implies (#[trigger] rest[k]).timestamp
            > timestamp by {
            assert(rest[k] == history[k + 1]);
        }
        lemma_newer_count(rest, timestamp, place - 1);
    }
}

/// The most recent reading of a sensor type, where the table has one.
pub fn get_latest_by_type(store: &LocalStore, sensor_type: &str) -> (found: Option<SensorReading>)
    ensures
        match latest_of(store@.readings, sensor_type@) {
            Some(row) => found is Some && found.unwrap()@ == row,
            None => found is None,
        },
{
    proof {
        store.unfold();
    }
    let ghost rows = store@.readings;
    let mut best: Option<usize> = None;
    let mut i: usize = 0;
    while i < store.readings.len()
        invariant
            i <= store.readings.len(),
            rows == reading_views(store.readings@),
            match best {
                Some(b) => b < i && latest_of(rows.take(i as int), sensor_type@) == Some(
                    rows[b as int],
                ),
                None => latest_of(rows.take(i as int), sensor_type@) is None,
            },
        decreases store.readings.len() - i,
    {
        let row = &store.readings[i];
        proof {
            assert(rows[i as int] == row@);
            assert(rows.take(i + 1).drop_last() =~= rows.take(i as int));
            assert(rows.take(i + 1).last() == rows[i as int]);
        }
        if str_eq(row.sensor_type.as_str(), sensor_type) {
            let newer = match best {
                Some(b) => store.readings[b].timestamp <= row.timestamp,
                None => true,
            };
            if newer {
                best = Some(i);
            }
        }
        i += 1;
    }
    proof {
        assert(rows.take(i as int) =~= rows);
    }
    match best {
        Some(b) => Some(store.readings[b].duplicate()),
        None => None,
    }
}

/// The most recent reading of each sensor type that has one, in the fixed
/// order of the sensor types.
pub fn get_latest_readings(store: &LocalStore) -> (latest: Vec<SensorReading>)
    ensures
        reading_views(latest@) == latest_all(store@.readings),
{
    let ghost rows = store@.readings;
    let ghost keys = sensor_types();
    let mut latest: Vec<SensorReading> = Vec::new();
    let mut k: usize = 0;
    assert(reading_views(latest@) =~= latest_among(rows, keys.take(0)));
    while k < SENSOR_TYPE_COUNT
        invariant
            k <= SENSOR_TYPE_COUNT,
            rows == store@.readings,
            keys == sensor_types(),
            reading_views(latest@) == latest_among(rows, keys.take(k as int)),
        decreases SENSOR_TYPE_COUNT - k,
    {
        proof {
            assert(keys.take(k + 1).drop_last() =~= keys.take(k as int));
            assert(keys.take(k + 1).last() == keys[k as int]);
        }
        let ghost earlier = latest@;
        if let Some(key) = sensor_type_at(k) {
            match get_latest_by_type(store, key) {
                Some(row) => {
                    latest.push(row);
                    assert(reading_views(latest@) =~= reading_views(earlier).push(row@));
                },
                None => {},
            }
        }
        k += 1;
    }
    proof {
        assert(keys.take(k as int) =~= keys);
    }
    latest
}

/// The readings of a sensor type from the newest to the oldest, at most
/// `limit` of them; a negative `limit` lifts the bound.
pub fn get_history_by_type(store: &LocalStore, sensor_type: &str, limit: i64) -> (newest: Vec<
    SensorReading,
>)
    ensures
        reading_views(newest@) == history(store@.readings, sensor_type@, limit as int),
{
    proof {
        store.unfold();
    }
    let ghost rows = store@.readings;
    let mut newest: Vec<SensorReading> = Vec::new();
    let mut i: usize = 0;
    assert(reading_views(newest@) =~= history_all(rows.take(0), sensor_type@));
    while i < store.readings.len()
        invariant
            i <= store.readings.len(),
            rows == reading_views(store.readings@),
            reading_views(newest@) == history_all(rows.take(i as int), sensor_type@),
        decreases store.readings.len() - i,
    {
        let row = &store.readings[i];
        proof {
            assert(rows[i as int] == row@);
            assert(rows.take(i + 1).drop_last() =~= rows.take(i as int));
            assert(rows.take(i + 1).last() == rows[i as int]);
        }
        if str_eq(row.sensor_type.as_str(), sensor_type) {
            let ghost earlier = reading_views(newest@);
            let mut place: usize = 0;
            while place < newest.len() && newest[place].timestamp > row.timestamp
                invariant
                    place <= newest.len(),
                    earlier == reading_views(newest@),
                    forall|k: int| 0 <= k < place ==> (#[trigger] earlier[k]).timestamp > row.timestamp,
                decreases newest.len() - place,
            {
                assert(earlier[place as int] == newest@[place as int]@);
                place += 1;
            }
            proof {
                if place < newest.len() {
                    assert(earlier[place as int] == newest@[place as int]@);
                }
                lemma_newer_count(earlier, row.timestamp, place as int);
            }
            let copy = row.duplicate();
            newest.insert(place, copy);
            assert(reading_views(newest@) =~= earlier.insert(place as int, row@));
        }
        i += 1;
    }
    proof {
        assert(rows.take(i as int) =~= rows);
    }
    if limit >= 0 && (limit as u64) < newest.len() as u64 {
        newest.truncate(limit as usize);
        assert(reading_views(newest@) =~= history_all(rows, sensor_type@).take(limit as int));
    }
    newest
}

/// Whether a row is of a sensor type.
pub open spec fn has_type(key: Seq<char>) -> spec_fn(ReadingView) -> bool {
    |row: ReadingView| row.sensor_type == key
}

/// The most recent row of a sensor type is a row of the table and of that
/// type, no row of the type is later than it, and every row of the type
/// stored after it is earlier. There is none exactly where the table has no
/// row of the type.
pub proof fn law_latest_of_is_latest(rows: Seq<ReadingView>, key: Seq<char>)
    ensures
        match latest_of(rows, key) {
            Some(row) => {
                &&& row.sensor_type == key
                &&& forall|i: int|
                    0 <= i < rows.len() && (#[trigger] rows[i]).sensor_type == key
                        ==> rows[i].timestamp <= row.timestamp
                &&& exists|b: int|
                    {
                        &&& 0 <= b < rows.len()
                        &&& #[trigger] rows[b] == row
                        &&& forall|i: int|
                            b < i < rows.len() && (#[trigger] rows[i]).sensor_type == key
                                ==> rows[i].timestamp < row.timestamp
                    }
            },
            None => forall|i: int| 0 <= i < rows.len() ==> (#[trigger] rows[i]).sensor_type != key,
        },
    decreases rows.len(),
{
    if rows.len() > 0 {
        let before = rows.drop_last();
        law_latest_of_is_latest(before, key);
        assert forall|i: int| 0 <= i < before.len() implies #[trigger] before[i] == rows[i] by {}
        let last = rows.last();
        match latest_of(rows, key) {
            Some(row) => {
                if last.sensor_type == key && !(latest_of(before, key) is Some && latest_of(
                    before,
                    key,
                ).unwrap().timestamp > last.timestamp) {
                    assert(rows[rows.len() - 1] == row);
                    assert forall|i: int|
                        0 <= i < rows.len() && (#[trigger] rows[i]).sensor_type
                            == key implies rows[i].timestamp <= row.timestamp by {
                        if i < before.len() {
                            assert(before[i] == rows[i]);
                        }
                    }
                } else {
                    let b = choose|b: int|
                        {
                            &&& 0 <= b < before.len()
                            &&& #[trigger] before[b] == row
                            &&& forall|i: int|
                                b < i < before.len() && (#[trigger] before[i]).sensor_type == key
                                    ==> before[i].timestamp < row.timestamp
                        };
                    assert(rows[b] == row);
                    assert forall|i: int|
                        b < i < rows.len() && (#[trigger] rows[i]).sensor_type
                            == key implies rows[i].timestamp < row.timestamp by {
                        if i < before.len() {
                            assert(before[i] == rows[i]);
                        }
                    }
                    assert forall|i: int|
                        0 <= i < rows.len() && (#[trigger] rows[i]).sensor_type
                            == key implies rows[i].timestamp <= row.timestamp by {
                        if i < before.len() {
                            assert(before[i] == rows[i]);
                        }
                    }
                }
            },
            None => {
                assert forall|i: int| 0 <= i < rows.len() implies (#[trigger] rows[i]).sensor_type
                    != key by {
                    if i < before.len() {
                        assert(before[i] == rows[i]);
                    }
                }
            },
        }
    }
}

/// Each row of `latest_among` is the most recent row of one of the keys, the
/// most recent row of each key is among them, and where no key occurs twice
/// no two of them are of one sensor type.
pub proof fn law_latest_among(rows: Seq<ReadingView>, keys: Seq<Seq<char>>)
    ensures
        forall|a: int|
            0 <= a < latest_among(rows, keys).len() ==> keys.contains(
                (#[trigger] latest_among(rows, keys)[a]).sensor_type,
            ) && latest_of(rows, latest_among(rows, keys)[a].sensor_type) == Some(
                latest_among(rows, keys)[a],
            ),
        forall|k: int|
            0 <= k < keys.len() && latest_of(rows, #[trigger] keys[k]) is Some ==> latest_among(
                rows,
                keys,
            ).contains(latest_of(rows, keys[k]).unwrap()),
        keys.no_duplicates() ==> forall|a: int, b: int|
            0 <= a < b < latest_among(rows, keys).len() ==> (#[trigger] latest_among(
                rows,
                keys,
            )[a]).sensor_type != (#[trigger] latest_among(rows, keys)[b]).sensor_type,
    decreases keys.len(),
{
    let out = latest_among(rows, keys);
    if keys.len() > 0 {
        let front = keys.drop_last();
        let first = latest_among(rows, front);
        law_latest_among(rows, front);
        law_latest_of_is_latest(rows, keys.last());
        assert forall|k: int| 0 <= k < front.len() implies #[trigger] front[k] == keys[k] by {}
        assert forall|a: int| 0 <= a < out.len() implies keys.contains(
            (#[trigger] out[a]).sensor_type,
        ) && latest_of(rows, out[a].sensor_type) == Some(out[a]) by {
            if a < first.len() {
                assert(out[a] == first[a]);
                let k = choose|k: int| 0 <= k < front.len() && front[k] == first[a].sensor_type;
                assert(keys[k] == first[a].sensor_type);
            } else {
                assert(keys[keys.len() - 1] == keys.last());
            }
        }
        assert forall|k: int|
            0 <= k < keys.len() && latest_of(rows, #[trigger] keys[k]) is Some implies out.contains(
            latest_of(rows, keys[k]).unwrap(),
        ) by {
            let row = latest_of(rows, keys[k]).unwrap();
            if k < front.len() {
                assert(front[k] == keys[k]);
                let a = choose|a: int| 0 <= a < first.len() && first[a] == row;
                assert(out[a] == row);
            } else {
                assert(out[out.len() - 1] == row);
            }
        }
        if keys.no_duplicates() {
            assert(front.no_duplicates());
            assert forall|a: int, b: int| 0 <= a < b < out.len() implies (#[trigger] out[a]).sensor_type
                != (#[trigger] out[b]).sensor_type by {
                if b < first.len() {
                    assert(out[a] == first[a] && out[b] == first[b]);
                } else {
                    assert(out[a] == first[a]);
                    let k = choose|k: int| 0 <= k < front.len() && front[k] == first[a].sensor_type;
                    assert(keys[k] == first[a].sensor_type);
                    assert(out[b].sensor_type == keys[keys.len() - 1]);
                }
            }
        }
    }
}

/// Of each sensor type `latest_all` holds at most one row. Each of its rows
/// is a row of the table, and no row of the table of the same sensor type is
/// later than it, in whatever order the times stand in the table. Every
/// sensor type of the closed set that has a row in the table has one in
/// `latest_all`.
pub proof fn law_latest_all_one_row_per_type(rows: Seq<ReadingView>)
    ensures
        latest_all(rows).len() <= 7,
        forall|a: int, b: int|
            0 <= a < b < latest_all(rows).len() ==> (#[trigger] latest_all(rows)[a]).sensor_type != (
            #[trigger] latest_all(rows)[b]).sensor_type,
        forall|a: int|
            0 <= a < latest_all(rows).len() ==> rows.contains(#[trigger] latest_all(rows)[a]),
        forall|a: int, i: int|
            0 <= a < latest_all(rows).len() && 0 <= i < rows.len() && (#[trigger] rows[i]).sensor_type
                == (#[trigger] latest_all(rows)[a]).sensor_type ==> rows[i].timestamp
                <= latest_all(rows)[a].timestamp,
        forall|i: int|
            0 <= i < rows.len() && is_sensor_type((#[trigger] rows[i]).sensor_type) ==> exists|a: int|
                0 <= a < latest_all(rows).len() && (#[trigger] latest_all(rows)[a]).sensor_type
                    == rows[i].sensor_type,
{
    let keys = sensor_types();
    let out = latest_all(rows);
    law_sensor_types_distinct();
    law_latest_among(rows, keys);
    lemma_latest_among_len(rows, keys);
    assert forall|a: int| 0 <= a < out.len() implies rows.contains(#[trigger] out[a]) by {
        law_latest_of_is_latest(rows, out[a].sensor_type);
    }
    assert forall|a: int, i: int|
        0 <= a < out.len() && 0 <= i < rows.len() && (#[trigger] rows[i]).sensor_type == (
        #[trigger] out[a]).sensor_type implies rows[i].timestamp <= out[a].timestamp by {
        law_latest_of_is_latest(rows, out[a].sensor_type);
    }
    assert forall|i: int|
        0 <= i < rows.len() && is_sensor_type((#[trigger] rows[i]).sensor_type) implies exists|a: int|
        0 <= a < out.len() && (#[trigger] out[a]).sensor_type == rows[i].sensor_type by {
        let key = rows[i].sensor_type;
        let k = choose|k: int| 0 <= k < keys.len() && keys[k] == key;
        law_latest_of_is_latest(rows, key);
        let row = latest_of(rows, keys[k]).unwrap();
        let a = choose|a: int| 0 <= a < out.len() && out[a] == row;
        assert(out[a].sensor_type == key);
    }
}

/// `latest_among` holds at most one row for each key.
proof fn lemma_latest_among_len(rows: Seq<ReadingView>, keys: Seq<Seq<char>>)
    ensures
        latest_among(rows, keys).len() <= keys.len(),
    decreases keys.len(),
{
    if keys.len() > 0 {
        lemma_latest_among_len(rows, keys.drop_last());
    }
}

/// A history holds the rows of its sensor type, each as often as the table
/// does, and no other row.
pub proof fn law_history_holds_the_rows_of_the_type(rows: Seq<ReadingView>, key: Seq<char>)
    ensures
        history_all(rows, key).to_multiset() == rows.filter(has_type(key)).to_multiset(),
        history_all(rows, key).len() == rows.filter(has_type(key)).len(),
        forall|row: ReadingView| #[trigger]
            history_all(rows, key).contains(row) <==> rows.contains(row) && row.sensor_type == key,
    decreases rows.len(),
{
    broadcast use vstd::seq_lib::group_to_multiset_ensures;

    reveal(Seq::filter);
    let pred = has_type(key);
    if rows.len() > 0 {
        let before = rows.drop_last();
        let last = rows.last();
        let earlier = history_all(before, key);
        law_history_holds_the_rows_of_the_type(before, key);
        if last.sensor_type == key {
            let place = newer_count(earlier, last.timestamp);
            lemma_newer_count_in_range(earlier, last.timestamp);
            vstd::seq_lib::to_multiset_insert(earlier, place, last);
            vstd::seq_lib::to_multiset_build(before.filter(pred), last);
        }
        assert forall|row: ReadingView| #[trigger]
            history_all(rows, key).contains(row) <==> rows.contains(row) && row.sensor_type
                == key by {
            assert(rows.contains(row) <==> before.contains(row) || row == last) by {
                if rows.contains(row) {
                    let i = choose|i: int| 0 <= i < rows.len() && rows[i] == row;
                    if i < before.len() {
                        assert(before[i] == row);
                    }
                }
                if before.contains(row) {
                    let i = choose|i: int| 0 <= i < before.len() && before[i] == row;
                    assert(rows[i] == row);
                }
                assert(rows[rows.len() - 1] == last);
            }
            if last.sensor_type == key {
                let place = newer_count(earlier, last.timestamp);
                let all = earlier.insert(place, last);
                if all.contains(row) {
                    let i = choose|i: int| 0 <= i < all.len() && all[i] == row;
                    if i < place {
                        assert(earlier[i] == row);
                    } else if i > place {
                        assert(earlier[i - 1] == row);
                    }
                }
                if earlier.contains(row) {
                    let i = choose|i: int| 0 <= i < earlier.len() && earlier[i] == row;
                    if i < place {
                        assert(all[i] == row);
                    } else {
                        assert(all[i + 1] == row);
                    }
                }
                assert(all[place] == last);
            }
        }
    } else {
        assert(history_all(rows, key) =~= rows.filter(pred));
    }
}

/// The count of newer rows is a place of the history, the rows before that
/// place are newer, and the row at that place is not.
proof fn lemma_newer_count_in_range(history: Seq<ReadingView>, timestamp: i64)
    ensures
        0 <= newer_count(history, timestamp) <= history.len(),
        forall|k: int|
            0 <= k < newer_count(history, timestamp) ==> (#[trigger] history[k]).timestamp > timestamp,
        newer_count(history, timestamp) < history.len() ==> history[newer_count(
            history,
            timestamp,
        )].timestamp <= timestamp,
    decreases history.len(),
{
    if !(history.len() == 0 || history[0].timestamp <= timestamp) {
        let rest = history.drop_first();
        lemma_newer_count_in_range(rest, timestamp);
        assert forall|k: int| 0 <= k < newer_count(history, timestamp) implies (
        #[trigger] history[k]).timestamp > timestamp by {
            if k > 0 {
                assert(history[k] == rest[k - 1]);
            }
        }
        if newer_count(history, timestamp) < history.len() {
            assert(history[newer_count(history, timestamp)] == rest[newer_count(rest, timestamp)]);
        }
    }
}

/// A history runs from the newest row to the oldest, and of two rows of one
/// time the one stored later stands first.
pub proof fn law_history_newest_first(rows: Seq<ReadingView>, key: Seq<char>)
    requires
        ids_increase(rows),
    ensures
        forall|i: int, j: int|
            0 <= i < j < history_all(rows, key).len() ==> {
                ||| (#[trigger] history_all(rows, key)[i]).timestamp > (#[trigger] history_all(
                    rows,
                    key,
                )[j]).timestamp
                ||| history_all(rows, key)[i].timestamp == history_all(rows, key)[j].timestamp
                    && history_all(rows, key)[i].id.unwrap() > history_all(rows, key)[j].id.unwrap()
            },
    decreases rows.len(),
{
    if rows.len() > 0 {
        let before = rows.drop_last();
        let last = rows.last();
        let earlier = history_all(before, key);
        assert forall|i: int| 0 <= i < before.len() implies #[trigger] before[i] == rows[i] by {}
        assert(ids_increase(before));
        law_history_newest_first(before, key);
        if last.sensor_type == key {
            let place = newer_count(earlier, last.timestamp);
            let all = earlier.insert(place, last);
            lemma_newer_count_in_range(earlier, last.timestamp);
            law_history_holds_the_rows_of_the_type(before, key);
            assert forall|k: int| 0 <= k < earlier.len() implies (#[trigger] earlier[k]).id.unwrap()
                < last.id.unwrap() by {
                assert(earlier.contains(earlier[k]));
                let i = choose|i: int| 0 <= i < before.len() && before[i] == earlier[k];
                assert(rows[i] == earlier[k]);
                assert(rows[rows.len() - 1] == last);
            }
            assert forall|i: int, j: int| 0 <= i < j < all.len() implies {
                ||| (#[trigger] all[i]).timestamp > (#[trigger] all[j]).timestamp
                ||| all[i].timestamp == all[j].timestamp && all[i].id.unwrap() > all[j].id.unwrap()
            } by {
                if j < place {
                    assert(all[i] == earlier[i] && all[j] == earlier[j]);
                } else if j == place {
                    assert(all[i] == earlier[i]);
                } else if i < place {
                    assert(all[i] == earlier[i] && all[j] == earlier[j - 1]);
                    if place < j - 1 {
                        assert(earlier[place].timestamp >= earlier[j - 1].timestamp);
                    }
                } else if i == place {
                    assert(all[j] == earlier[j - 1]);
                    if place < j - 1 {
                        assert(earlier[place].timestamp >= earlier[j - 1].timestamp);
                    }
                } else {
                    assert(all[i] == earlier[i - 1] && all[j] == earlier[j - 1]);
                }
            }
        }
    }
}

/// The most recent row of a sensor type is the first row of its history.
pub proof fn law_latest_is_first_of_history(rows: Seq<ReadingView>, key: Seq<char>)
    ensures
        latest_of(rows, key) is Some <==> history_all(rows, key).len() > 0,
        latest_of(rows, key) is Some ==> history_all(rows, key)[0] == latest_of(rows, key).unwrap(),
    decreases rows.len(),
{
    if rows.len() > 0 {
        let last = rows.last();
        let earlier = history_all(rows.drop_last(), key);
        law_latest_is_first_of_history(rows.drop_last(), key);
        if last.sensor_type == key {
            let place = newer_count(earlier, last.timestamp);
            lemma_newer_count_in_range(earlier, last.timestamp);
            if place > 0 {
                assert(earlier.insert(place, last)[0] == earlier[0]);
            }
        }
    }
}

/// The more recent of the most recent row of a table and the most recent
/// row of what was stored after it: the later time wins, and at equal times
/// the row stored later.
pub open spec fn later_of(first: Option<ReadingView>, second: Option<ReadingView>) -> Option<
    ReadingView,
> {
    match second {
        Some(row) => if first is Some && first.unwrap().timestamp > row.timestamp {
            first
        } else {
            second
        },
        None => first,
    }
}

/// The most recent row of a table to which rows were added is the more
/// recent of the most recent row that it had and the most recent row among
/// those added.
pub proof fn lemma_latest_of_added(rows: Seq<ReadingView>, added: Seq<ReadingView>, key: Seq<char>)
    ensures
        latest_of(rows + added, key) == later_of(latest_of(rows, key), latest_of(added, key)),
    decreases added.len(),
{
    if added.len() == 0 {
        assert(rows + added =~= rows);
    } else {
        let front = added.drop_last();
        lemma_latest_of_added(rows, front, key);
        assert((rows + added).drop_last() =~= rows + front);
        assert((rows + added).last() == added.last());
    }
}

/// In a table with no two rows of one sensor type, each row is the most
/// recent of its type.
pub proof fn lemma_latest_of_single(rows: Seq<ReadingView>, place: int)
    requires
        0 <= place < rows.len(),
        forall|i: int, j: int|
            0 <= i < j < rows.len() ==> (#[trigger] rows[i]).sensor_type != (#[trigger] rows[j]).sensor_type,
    ensures
        latest_of(rows, rows[place].sensor_type) == Some(rows[place]),
    decreases rows.len(),
{
    let key = rows[place].sensor_type;
    let front = rows.drop_last();
    assert forall|i: int| 0 <= i < front.len() implies #[trigger] front[i] == rows[i] by {}
    if place == rows.len() - 1 {
        law_latest_of_is_latest(front, key);
        if latest_of(front, key) is Some {
            let b = choose|b: int| 0 <= b < front.len() && #[trigger] front[b] == latest_of(front, key).unwrap();
            assert(rows[b].sensor_type != rows[place].sensor_type);
        }
    } else {
        assert(rows[place].sensor_type != rows[rows.len() - 1].sensor_type);
        lemma_latest_of_single(front, place);
    }
}

/// Where every key has a most recent row, `latest_among` holds the most
/// recent row of each key at the place of the key.
pub proof fn lemma_latest_among_full(rows: Seq<ReadingView>, keys: Seq<Seq<char>>)
    requires
        forall|k: int| 0 <= k < keys.len() ==> latest_of(rows, #[trigger] keys[k]) is Some,
    ensures
        latest_among(rows, keys).len() == keys.len(),
        forall|k: int|
            0 <= k < keys.len() ==> #[trigger] latest_among(rows, keys)[k] == latest_of(
                rows,
                keys[k],
            ).unwrap(),
    decreases keys.len(),
{
    if keys.len() > 0 {
        let front = keys.drop_last();
        assert forall|k: int| 0 <= k < front.len() implies latest_of(rows, #[trigger] front[k]) is Some by {
            assert(front[k] == keys[k]);
        }
        lemma_latest_among_full(rows, front);
        assert(latest_of(rows, keys[keys.len() - 1]) is Some);
        assert forall|k: int| 0 <= k < keys.len() implies #[trigger] latest_among(rows, keys)[k]
            == latest_of(rows, keys[k]).unwrap() by {
            if k < front.len() {
                assert(front[k] == keys[k]);
                assert(latest_among(rows, keys)[k] == latest_among(rows, front)[k]);
            }
        }
    }
}

} // verus!
