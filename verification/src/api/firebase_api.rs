//! The remote store: where it is, and the order in which its snapshots are
//! handed on.
use firebase_rs::{Firebase, UrlParseError};
use vstd::prelude::*;
use crate::error::PipelineError;
use crate::model::sensor_data::ESP32SensorData;

verus! {

/// The address of the remote store.
pub const FIREBASE_URL: &'static str = "https://your-project-id.firebaseio.com";

/// The collection of the remote store that holds the snapshots.
pub const DATABASE_PATH: &'static str = "sensor_readings";

/// `firebase_rs::Firebase`: a handle on one node of the remote store. What
/// it holds is not seen here.
#[verifier::external_type_specification]
#[verifier::external_body]
pub struct ExFirebase(Firebase);

/// `firebase_rs::UrlParseError`: why `Firebase::new` refused an address.
/// What it holds is not seen here.
#[verifier::external_type_specification]
#[verifier::external_body]
pub struct ExUrlParseError(UrlParseError);

/// Whether `firebase_rs::Firebase::new` takes an address. By its source it
/// takes the addresses that parse as a URL and have the scheme `https`.
pub uninterp spec fn is_store_address(uri: Seq<char>) -> bool;

/// `firebase_rs::Firebase::new`. Believed of it, and not proved: whether it
/// returns a handle depends on the address alone, so that it returns one
/// exactly for the addresses that `is_store_address` names. It neither
/// reads nor sends anything.
#[verifier::external_body]
fn firebase_new(uri: &str) -> (made: Result<Firebase, UrlParseError>)
    ensures
        made is Ok <==> is_store_address(uri@),
{
    Firebase::new(uri)
}

/// `firebase_rs::Firebase::at`, which makes the handle on the node at
/// `path` below the node of `node`. Nothing is claimed of the handle that it
/// returns. It neither reads nor sends anything.
#[verifier::external_body]
fn firebase_at(node: &Firebase, path: &str) -> (child: Firebase) {
    node.at(path)
}

/// The handle that was made, or the failure to set the remote store up.
pub fn handle_or_config_error(made: Result<Firebase, UrlParseError>) -> (outcome: Result<
    Firebase,
    PipelineError,
>)
    ensures
        match made {
            Ok(handle) => outcome == Ok::<Firebase, PipelineError>(handle),
            Err(_) => outcome == Err::<Firebase, PipelineError>(PipelineError::Config),
        },
{
    match made {
        Ok(handle) => Ok(handle),
        Err(_) => Err(PipelineError::Config),
    }
}

/// A handle on the root of the remote store. There is one exactly where
/// `Firebase::new` takes the address of the store; where it does not, the
/// store counts as set up wrongly.
pub fn initialize() -> (outcome: Result<Firebase, PipelineError>)
    ensures
        outcome is Ok <==> is_store_address(FIREBASE_URL@),
        outcome is Err ==> outcome == Err::<Firebase, PipelineError>(PipelineError::Config),
{
    handle_or_config_error(firebase_new(FIREBASE_URL))
}

/// A handle on the collection of snapshots. There is one exactly where
/// there is one on the root of the store.
pub fn snapshot_collection() -> (outcome: Result<Firebase, PipelineError>)
    ensures
        outcome is Ok <==> is_store_address(FIREBASE_URL@),
        outcome is Err ==> outcome == Err::<Firebase, PipelineError>(PipelineError::Config),
{
    match initialize() {
        Ok(root) => Ok(firebase_at(&root, DATABASE_PATH)),
        Err(error) => Err(error),
    }
}

/// The field by which the remote store orders the snapshots that it is
/// asked for: their time.
pub const ORDER_FIELD: &'static str = "timestamp";

/// How many snapshots the remote store is asked for at a time: the last
/// ones in that order.
pub const LATEST_LIMIT: u32 = 5;

/// How many snapshots at the front of a list are not older than
/// `timestamp`.
pub open spec fn not_older_count(sorted: Seq<ESP32SensorData>, timestamp: i64) -> int
    decreases sorted.len(),
{
    if sorted.len() == 0 || sorted[0].timestamp < timestamp {
        0
    } else {
        1 + not_older_count(sorted.drop_first(), timestamp)
    }
}

/// The snapshots from the newest to the oldest. Snapshots of one time keep
/// the order in which they came.
pub open spec fn newest_first(snapshots: Seq<ESP32SensorData>) -> Seq<ESP32SensorData>
    decreases snapshots.len(),
{
    if snapshots.len() == 0 {
        Seq::empty()
    } else {
        let earlier = newest_first(snapshots.drop_last());
        earlier.insert(not_older_count(earlier, snapshots.last().timestamp), snapshots.last())
    }
}

/// The count of snapshots that are not older is a place of the list, the
/// snapshots before that place are not older, and the one at that place is.
pub proof fn lemma_not_older_count(sorted: Seq<ESP32SensorData>, timestamp: i64)
    ensures
        0 <= not_older_count(sorted, timestamp) <= sorted.len(),
        forall|k: int|
            0 <= k < not_older_count(sorted, timestamp) ==> (#[trigger] sorted[k]).timestamp
                >= timestamp,
        not_older_count(sorted, timestamp) < sorted.len() ==> sorted[not_older_count(
            sorted,
            timestamp,
        )].timestamp < timestamp,
    decreases sorted.len(),
{
    if !(sorted.len() == 0 || sorted[0].timestamp < timestamp) {
        let rest = sorted.drop_first();
        lemma_not_older_count(rest, timestamp);
        assert forall|k: int| 0 <= k < not_older_count(sorted, timestamp) implies (
        #[trigger] sorted[k]).timestamp >= timestamp by {
            if k > 0 {
                assert(sorted[k] == rest[k - 1]);
            }
        }
        if not_older_count(sorted, timestamp) < sorted.len() {
            assert(sorted[not_older_count(sorted, timestamp)] == rest[not_older_count(
                rest,
                timestamp,
            )]);
        }
    }
}

/// The place that ends the run of snapshots that are not older.
proof fn lemma_not_older_count_is(sorted: Seq<ESP32SensorData>, timestamp: i64, place: int)
    requires
        0 <= place <= sorted.len(),
        forall|k: int| 0 <= k < place ==> (#[trigger] sorted[k]).timestamp >= timestamp,
        place < sorted.len() ==> sorted[place].timestamp < timestamp,
    ensures
        not_older_count(sorted, timestamp) == place,
    decreases sorted.len(),
{
    if place > 0 {
        assert(sorted[0].timestamp >= timestamp);
        let rest = sorted.drop_first();
        assert forall|k: int| 0 <= k < place - 1 implies (#[trigger] rest[k]).timestamp
            >= timestamp by {
            assert(rest[k] == sorted[k + 1]);
        }
        lemma_not_older_count_is(rest, timestamp, place - 1);
    }
}

/// Orders the snapshots that the remote store returned from the newest to
/// the oldest.
pub fn sort_newest_first(snapshots: Vec<ESP32SensorData>) -> (sorted: Vec<ESP32SensorData>)
    ensures
        sorted@ == newest_first(snapshots@),
{
    let mut sorted: Vec<ESP32SensorData> = Vec::new();
    let mut i: usize = 0;
    assert(sorted@ =~= newest_first(snapshots@.take(0)));
    while i < snapshots.len()
        invariant
            i <= snapshots.len(),
            sorted@ == newest_first(snapshots@.take(i as int)),
        decreases snapshots.len() - i,
    {
        let snapshot = snapshots[i];
        proof {
            assert(snapshots@.take(i + 1).drop_last() =~= snapshots@.take(i as int));
            assert(snapshots@.take(i + 1).last() == snapshot);
        }
        let mut place: usize = 0;
        while place < sorted.len() && sorted[place].timestamp >= snapshot.timestamp
            invariant
                place <= sorted.len(),
                forall|k: int| 0 <= k < place ==> (#[trigger] sorted@[k]).timestamp >= snapshot.timestamp,
            decreases sorted.len() - place,
        {
            place += 1;
        }
        proof {
            lemma_not_older_count_is(sorted@, snapshot.timestamp, place as int);
        }
        sorted.insert(place, snapshot);
        i += 1;
    }
    proof {
        assert(snapshots@.take(i as int) =~= snapshots@);
    }
    sorted
}

/// The ordered list holds the snapshots that came, each as often as it
/// came, and none is followed by a newer one; so the first is the newest.
pub proof fn law_newest_first_is_ordered(snapshots: Seq<ESP32SensorData>)
    ensures
        newest_first(snapshots).to_multiset() == snapshots.to_multiset(),
        newest_first(snapshots).len() == snapshots.len(),
        forall|i: int, j: int|
            0 <= i < j < newest_first(snapshots).len() ==> (#[trigger] newest_first(
                snapshots,
            )[i]).timestamp >= (#[trigger] newest_first(snapshots)[j]).timestamp,
        forall|i: int|
            0 <= i < snapshots.len() ==> (#[trigger] snapshots[i]).timestamp <= newest_first(
                snapshots,
            )[0].timestamp,
    decreases snapshots.len(),
{
    broadcast use vstd::seq_lib::group_to_multiset_ensures;

    if snapshots.len() > 0 {
        let before = snapshots.drop_last();
        let last = snapshots.last();
        let earlier = newest_first(before);
        law_newest_first_is_ordered(before);
        lemma_not_older_count(earlier, last.timestamp);
        let place = not_older_count(earlier, last.timestamp);
        let all = earlier.insert(place, last);
        vstd::seq_lib::to_multiset_insert(earlier, place, last);
        assert(snapshots =~= before.push(last));
        vstd::seq_lib::to_multiset_build(before, last);
        assert forall|i: int, j: int| 0 <= i < j < all.len() implies (#[trigger] all[i]).timestamp >= (
        #[trigger] all[j]).timestamp by {
            if j < place {
                assert(all[i] == earlier[i] && all[j] == earlier[j]);
            } else if j == place {
                assert(all[i] == earlier[i]);
            } else if i < place {
                assert(all[i] == earlier[i] && all[j] == earlier[j - 1]);
            } else if i == place {
                assert(all[j] == earlier[j - 1]);
                if place < j - 1 {
                    assert(earlier[place].timestamp >= earlier[j - 1].timestamp);
                }
            } else {
                assert(all[i] == earlier[i - 1] && all[j] == earlier[j - 1]);
            }
        }
        assert forall|i: int| 0 <= i < snapshots.len() implies (#[trigger] snapshots[i]).timestamp
            <= all[0].timestamp by {
            if i < before.len() {
                assert(before[i] == snapshots[i]);
                assert(earlier[0].timestamp >= before[i].timestamp);
                if place == 0 {
                    assert(all[0] == last);
                } else {
                    assert(all[0] == earlier[0]);
                }
            } else {
                if place == 0 {
                    assert(all[0] == last);
                } else {
                    assert(all[0] == earlier[0]);
                }
            }
        }
    }
}

} // verus!
