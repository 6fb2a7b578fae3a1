//! The table of thresholds: one row for each sensor type that was asked
//! for or set.
use vstd::prelude::*;
use crate::data::store::{LocalStore, StoreView, keys_unique};
use crate::model::sensor_data::{SensorThreshold, ThresholdView, threshold_views};
use crate::model::sensor_types::{default_threshold, get_default_threshold, str_eq};

verus! {

/// Whether the table has a threshold for a sensor type.
pub open spec fn has_threshold(thresholds: Seq<ThresholdView>, key: Seq<char>) -> bool {
    exists|i: int| 0 <= i < thresholds.len() && (#[trigger] thresholds[i]).sensor_type == key
}

/// A place at which the table has a threshold for a sensor type.
pub open spec fn threshold_place(thresholds: Seq<ThresholdView>, key: Seq<char>) -> int {
    choose|i: int| 0 <= i < thresholds.len() && (#[trigger] thresholds[i]).sensor_type == key
}

/// The threshold that the table has for a sensor type.
pub open spec fn threshold_of(thresholds: Seq<ThresholdView>, key: Seq<char>) -> Option<
    ThresholdView,
> {
    if has_threshold(thresholds, key) {
        Some(thresholds[threshold_place(thresholds, key)])
    } else {
        None
    }
}

/// The threshold that a sensor type has until another is set.
pub open spec fn default_row(key: Seq<char>) -> ThresholdView {
    ThresholdView {
        sensor_type: key,
        min_value: default_threshold(key).0,
        max_value: default_threshold(key).1,
    }
}

/// The threshold that holds for a sensor type: the one in the table, or the
/// default where the table has none.
pub open spec fn effective_threshold(thresholds: Seq<ThresholdView>, key: Seq<char>)
    -> ThresholdView {
    match threshold_of(thresholds, key) {
        Some(threshold) => threshold,
        None => default_row(key),
    }
}

/// The table after the threshold of a sensor type was asked for: where it
/// had none, the default now stands at its end.
pub open spec fn materialized(thresholds: Seq<ThresholdView>, key: Seq<char>) -> Seq<
    ThresholdView,
> {
    if has_threshold(thresholds, key) {
        thresholds
    } else {
        thresholds.push(default_row(key))
    }
}

/// The table after a threshold was set: it stands in the place of the one
/// that its sensor type had, or at the end where the type had none.
pub open spec fn with_threshold(thresholds: Seq<ThresholdView>, threshold: ThresholdView) -> Seq<
    ThresholdView,
> {
    if has_threshold(thresholds, threshold.sensor_type) {
        thresholds.update(threshold_place(thresholds, threshold.sensor_type), threshold)
    } else {
        thresholds.push(threshold)
    }
}

/// The place of the threshold of a sensor type, where the table has one.
fn find_threshold(thresholds: &Vec<SensorThreshold>, sensor_type: &str) -> (place: Option<usize>)
    ensures
        match place {
            Some(i) => i < thresholds@.len() && thresholds@[i as int].sensor_type@
                == sensor_type@,
            None => !has_threshold(threshold_views(thresholds@), sensor_type@),
        },
{
    let ghost rows = threshold_views(thresholds@);
    let mut i: usize = 0;
    while i < thresholds.len()
        invariant
            i <= thresholds.len(),
            rows == threshold_views(thresholds@),
            forall|k: int| 0 <= k < i ==> (#[trigger] rows[k]).sensor_type != sensor_type@,
        decreases thresholds.len() - i,
    {
        if str_eq(thresholds[i].sensor_type.as_str(), sensor_type) {
            return Some(i);
        }
        assert(rows[i as int] == thresholds@[i as int]@);
        i += 1;
    }
    None
}

/// Where no two thresholds are for one sensor type, the threshold of a type
/// stands at one place only.
pub proof fn lemma_threshold_place(thresholds: Seq<ThresholdView>, place: int)
    requires
        keys_unique(thresholds),
        0 <= place < thresholds.len(),
    ensures
        has_threshold(thresholds, thresholds[place].sensor_type),
        threshold_place(thresholds, thresholds[place].sensor_type) == place,
        threshold_of(thresholds, thresholds[place].sensor_type) == Some(thresholds[place]),
{
    let key = thresholds[place].sensor_type;
    let other = threshold_place(thresholds, key);
    if other < place {
        assert(thresholds[other].sensor_type != thresholds[place].sensor_type);
    } else if place < other {
        assert(thresholds[place].sensor_type != thresholds[other].sensor_type);
    }
}

/// The threshold of a sensor type. Where the table has none, the default is
/// stored first, so that the table has one from then on.
pub fn get_threshold(store: &mut LocalStore, sensor_type: &str) -> (threshold: SensorThreshold)
    requires
        old(store)@.valid(),
    ensures
        final(store)@.valid(),
        threshold@ == effective_threshold(old(store)@.thresholds, sensor_type@),
        final(store)@ == (StoreView {
            thresholds: materialized(old(store)@.thresholds, sensor_type@),
            ..old(store)@
        }),
{
    proof {
        store.unfold();
    }
    let ghost before = store@.thresholds;
    match find_threshold(&store.thresholds, sensor_type) {
        Some(i) => {
            proof {
                assert(before[i as int] == store.thresholds@[i as int]@);
                lemma_threshold_place(before, i as int);
            }
            store.thresholds[i].duplicate()
        },
        None => {
            let (min_value, max_value) = get_default_threshold(sensor_type);
            let threshold = SensorThreshold {
                sensor_type: sensor_type.to_owned(),
                min_value,
                max_value,
            };
            store.thresholds.push(threshold.duplicate());
            proof {
                store.unfold();
                assert(store@.thresholds =~= before.push(default_row(sensor_type@)));
                lemma_materialized(before, sensor_type@);
            }
            threshold
        },
    }
}

/// Sets the threshold of its sensor type, in the place of the one that the
/// type had.
pub fn set_threshold(store: &mut LocalStore, threshold: &SensorThreshold)
    requires
        old(store)@.valid(),
    ensures
        final(store)@.valid(),
        final(store)@ == (StoreView {
            thresholds: with_threshold(old(store)@.thresholds, threshold@),
            ..old(store)@
        }),
{
    proof {
        store.unfold();
    }
    let ghost before = store@.thresholds;
    match find_threshold(&store.thresholds, threshold.sensor_type.as_str()) {
        Some(i) => {
            proof {
                assert(before[i as int] == store.thresholds@[i as int]@);
                lemma_threshold_place(before, i as int);
            }
            store.thresholds.set(i, threshold.duplicate());
            proof {
                store.unfold();
                assert(store@.thresholds =~= before.update(i as int, threshold@));
            }
        },
        None => {
            store.thresholds.push(threshold.duplicate());
            proof {
                store.unfold();
                assert(store@.thresholds =~= before.push(threshold@));
            }
        },
    }
    proof {
        lemma_with_threshold(before, threshold@);
    }
}

/// Every threshold of the table, in the order of the table.
pub fn get_all_thresholds(store: &LocalStore) -> (thresholds: Vec<SensorThreshold>)
    ensures
        threshold_views(thresholds@) == store@.thresholds,
{
    proof {
        store.unfold();
    }
    let mut thresholds: Vec<SensorThreshold> = Vec::new();
    let mut i: usize = 0;
    while i < store.thresholds.len()
        invariant
            i <= store.thresholds.len(),
            thresholds@.len() == i,
            forall|k: int| 0 <= k < i ==> (#[trigger] thresholds@[k])@ == store.thresholds@[k]@,
        decreases store.thresholds.len() - i,
    {
        thresholds.push(store.thresholds[i].duplicate());
        i += 1;
    }
    assert(threshold_views(thresholds@) =~= threshold_views(store.thresholds@));
    thresholds
}

/// Asking for a threshold keeps the table free of doubles, gives the sensor
/// type a threshold, and changes the effective threshold of no sensor type.
pub proof fn lemma_materialized(thresholds: Seq<ThresholdView>, key: Seq<char>)
    requires
        keys_unique(thresholds),
    ensures
        keys_unique(materialized(thresholds, key)),
        has_threshold(materialized(thresholds, key), key),
        forall|other: Seq<char>|
            has_threshold(thresholds, other) ==> #[trigger] has_threshold(
                materialized(thresholds, key),
                other,
            ),
        forall|other: Seq<char>| #[trigger]
            effective_threshold(materialized(thresholds, key), other) == effective_threshold(
                thresholds,
                other,
            ),
{
    let after = materialized(thresholds, key);
    if !has_threshold(thresholds, key) {
        let last = thresholds.len() as int;
        assert(after[last] == default_row(key));
        assert forall|i: int, j: int| 0 <= i < j < after.len() implies (#[trigger] after[i]).sensor_type
            != (#[trigger] after[j]).sensor_type by {
            assert(after[i] == thresholds[i]);
            if j < last {
                assert(after[j] == thresholds[j]);
            }
        }
        assert forall|other: Seq<char>| has_threshold(thresholds, other) implies #[trigger] has_threshold(
            after,
            other,
        ) by {
            let i = threshold_place(thresholds, other);
            assert(after[i] == thresholds[i]);
        }
        assert forall|other: Seq<char>| #[trigger]
            effective_threshold(after, other) == effective_threshold(thresholds, other) by {
            if has_threshold(thresholds, other) {
                let i = threshold_place(thresholds, other);
                assert(after[i] == thresholds[i]);
                lemma_threshold_place(thresholds, i);
                lemma_threshold_place(after, i);
            } else if other == key {
                lemma_threshold_place(after, last);
            } else {
                if has_threshold(after, other) {
                    let i = threshold_place(after, other);
                    if i < last {
                        assert(after[i] == thresholds[i]);
                    }
                }
            }
        }
    }
}

/// Setting a threshold keeps the table free of doubles and as long as it
/// was or one longer, makes the threshold the one of its sensor type, and
/// leaves the threshold of every other sensor type as it was.
pub proof fn lemma_with_threshold(thresholds: Seq<ThresholdView>, threshold: ThresholdView)
    requires
        keys_unique(thresholds),
    ensures
        keys_unique(with_threshold(thresholds, threshold)),
        threshold_of(with_threshold(thresholds, threshold), threshold.sensor_type) == Some(
            threshold,
        ),
        forall|other: Seq<char>|
            other != threshold.sensor_type ==> #[trigger] threshold_of(
                with_threshold(thresholds, threshold),
                other,
            ) == threshold_of(thresholds, other),
{
    let key = threshold.sensor_type;
    let after = with_threshold(thresholds, threshold);
    let place = if has_threshold(thresholds, key) {
        threshold_place(thresholds, key)
    } else {
        thresholds.len() as int
    };
    assert(after[place] == threshold);
    assert forall|i: int| 0 <= i < after.len() && i != place implies #[trigger] after[i]
        == thresholds[i] && after[i].sensor_type != key by {
        if has_threshold(thresholds, key) {
            lemma_threshold_place(thresholds, place);
            if i < place {
                assert(thresholds[i].sensor_type != thresholds[place].sensor_type);
            } else {
                assert(thresholds[place].sensor_type != thresholds[i].sensor_type);
            }
        }
    }
    assert forall|i: int, j: int| 0 <= i < j < after.len() implies (#[trigger] after[i]).sensor_type
        != (#[trigger] after[j]).sensor_type by {
        if i != place && j != place {
            assert(thresholds[i].sensor_type != thresholds[j].sensor_type);
        }
    }
    lemma_threshold_place(after, place);
    assert forall|other: Seq<char>| other != key implies #[trigger] threshold_of(after, other)
        == threshold_of(thresholds, other) by {
        if has_threshold(thresholds, other) {
            let i = threshold_place(thresholds, other);
            assert(after[i] == thresholds[i]);
            lemma_threshold_place(thresholds, i);
            lemma_threshold_place(after, i);
        } else if has_threshold(after, other) {
            let i = threshold_place(after, other);
            assert(thresholds[i].sensor_type == other);
        }
    }
}

/// A sensor type that was never given a threshold has the default one when
/// it is first asked for, and the same one, now from the table, whenever it
/// is asked for again; to ask again changes nothing.
pub proof fn law_threshold_materialized_once(thresholds: Seq<ThresholdView>, key: Seq<char>)
    requires
        keys_unique(thresholds),
        !has_threshold(thresholds, key),
    ensures
        effective_threshold(thresholds, key) == default_row(key),
        threshold_of(materialized(thresholds, key), key) == Some(default_row(key)),
        effective_threshold(materialized(thresholds, key), key) == effective_threshold(
            thresholds,
            key,
        ),
        materialized(materialized(thresholds, key), key) == materialized(thresholds, key),
{
    lemma_materialized(thresholds, key);
}

} // verus!
