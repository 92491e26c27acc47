//! What holds of the record store whatever it holds: the laws of adding,
//! deleting and dropping records.

use crate::records::{RecordData, RecordKey};
use crate::store::{added, deleted, distinct, dropped, has_zone, with_zone, zone_id, ZoneView};
use vstd::prelude::*;

verus! {

/// The zone with the name holds a record under the key.
pub open spec fn holds(zones: Seq<ZoneView>, name: Seq<char>, key: RecordKey) -> bool {
    has_zone(zones, name) && zones[zone_id(zones, name)].records.dom().contains(key)
}

/// Where no two zones have one name, the id of a zone is the one place
/// where its name stands.
pub proof fn lemma_zone_id(zones: Seq<ZoneView>, name: Seq<char>, z: int)
    requires
        distinct(zones),
        0 <= z < zones.len(),
        zones[z].name == name,
    ensures
        has_zone(zones, name),
        zone_id(zones, name) == z,
{
}

/// With a zone of the name among them, no two zones have one name still,
/// and the zone is there.
pub proof fn lemma_with_zone(zones: Seq<ZoneView>, name: Seq<char>)
    requires
        distinct(zones),
    ensures
        distinct(with_zone(zones, name)),
        has_zone(with_zone(zones, name), name),
        with_zone(zones, name)[zone_id(with_zone(zones, name), name)].name == name,
        has_zone(zones, name) ==> zone_id(with_zone(zones, name), name) == zone_id(zones, name),
        !has_zone(zones, name) ==> zone_id(with_zone(zones, name), name) == zones.len(),
{
    let all = with_zone(zones, name);
    if !has_zone(zones, name) {
        assert(all[zones.len() as int].name == name);
        assert forall|i: int, j: int|
            0 <= i < all.len() && 0 <= j < all.len() && i != j implies (#[trigger] all[i]).name != (
        #[trigger] all[j]).name by {
            if i < zones.len() {
                assert(all[i] == zones[i]);
            }
            if j < zones.len() {
                assert(all[j] == zones[j]);
            }
        }
        lemma_zone_id(all, name, zones.len() as int);
    }
}

/// Adding a record keeps the names of the zones apart, leaves the zone
/// there, and leaves in it the record that was added.
pub proof fn lemma_added(zones: Seq<ZoneView>, name: Seq<char>, key: RecordKey, value: RecordData)
    requires
        distinct(zones),
    ensures
        distinct(added(zones, name, key, value)),
        has_zone(added(zones, name, key, value), name),
        zone_id(added(zones, name, key, value), name) == zone_id(with_zone(zones, name), name),
        added(zones, name, key, value).len() == with_zone(zones, name).len(),
        holds(added(zones, name, key, value), name, key),
        added(zones, name, key, value)[zone_id(
            added(zones, name, key, value),
            name,
        )].records[key] == value,
{
    lemma_with_zone(zones, name);
    let all = with_zone(zones, name);
    let z = zone_id(all, name);
    let after = added(zones, name, key, value);
    assert(after[z].name == name);
    assert forall|i: int, j: int|
        0 <= i < after.len() && 0 <= j < after.len() && i != j implies (#[trigger] after[i]).name
        != (#[trigger] after[j]).name by {
        assert(after[i].name == all[i].name);
        assert(after[j].name == all[j].name);
    }
    lemma_zone_id(after, name, z);
}

/// Adding the same record twice is adding it once: no second record
/// comes of it.
pub proof fn lemma_add_idempotent(
    zones: Seq<ZoneView>,
    name: Seq<char>,
    key: RecordKey,
    value: RecordData,
)
    requires
        distinct(zones),
    ensures
        added(added(zones, name, key, value), name, key, value) == added(zones, name, key, value),
{
    lemma_add_overwrites(zones, name, key, value, value);
}

/// Adding a record under a key that the zone holds puts the new time to
/// live and data in the place of the old: what is left is what adding the
/// new record alone would have left.
pub proof fn lemma_add_overwrites(
    zones: Seq<ZoneView>,
    name: Seq<char>,
    key: RecordKey,
    first: RecordData,
    second: RecordData,
)
    requires
        distinct(zones),
    ensures
        added(added(zones, name, key, first), name, key, second) == added(
            zones,
            name,
            key,
            second,
        ),
{
    lemma_with_zone(zones, name);
    lemma_added(zones, name, key, first);
    let all = with_zone(zones, name);
    let z = zone_id(all, name);
    let once = added(zones, name, key, first);
    assert(with_zone(once, name) == once);
    let twice = added(once, name, key, second);
    let direct = added(zones, name, key, second);
    assert(all[z].records.insert(key, first).insert(key, second) =~= all[z].records.insert(
        key,
        second,
    ));
    assert(twice =~= direct);
}

/// Deleting a record that is not there changes nothing.
pub proof fn lemma_delete_absent(zones: Seq<ZoneView>, name: Seq<char>, key: RecordKey)
    requires
        distinct(zones),
        !holds(zones, name, key),
    ensures
        deleted(zones, name, key) == zones,
{
    if has_zone(zones, name) {
        let z = zone_id(zones, name);
        assert(zones[z].records.remove(key) =~= zones[z].records);
        assert(deleted(zones, name, key) =~= zones);
    }
}

/// Deleting a record leaves the zones and their names as they were, and
/// no record under the key.
pub proof fn lemma_deleted(zones: Seq<ZoneView>, name: Seq<char>, key: RecordKey)
    requires
        distinct(zones),
    ensures
        distinct(deleted(zones, name, key)),
        deleted(zones, name, key).len() == zones.len(),
        has_zone(deleted(zones, name, key), name) == has_zone(zones, name),
        !holds(deleted(zones, name, key), name, key),
{
    let after = deleted(zones, name, key);
    assert forall|i: int, j: int|
        0 <= i < after.len() && 0 <= j < after.len() && i != j implies (#[trigger] after[i]).name
        != (#[trigger] after[j]).name by {
        assert(after[i].name == zones[i].name);
        assert(after[j].name == zones[j].name);
    }
    if has_zone(zones, name) {
        let z = zone_id(zones, name);
        assert(after[z].name == name);
        lemma_zone_id(after, name, z);
    } else {
        assert(after == zones);
    }
}

/// Dropping the records leaves every zone under its name and id, and no
/// record in any of them.
pub proof fn lemma_dropped(zones: Seq<ZoneView>)
    requires
        distinct(zones),
    ensures
        distinct(dropped(zones)),
        dropped(zones).len() == zones.len(),
        forall|z: int|
            0 <= z < zones.len() ==> (#[trigger] dropped(zones)[z]).name == zones[z].name
                && dropped(zones)[z].records == Map::<RecordKey, RecordData>::empty(),
        forall|name: Seq<char>| #[trigger]
            has_zone(dropped(zones), name) == has_zone(zones, name),
        forall|name: Seq<char>|
            has_zone(zones, name) ==> #[trigger] zone_id(dropped(zones), name) == zone_id(
                zones,
                name,
            ),
        forall|name: Seq<char>, key: RecordKey| !#[trigger] holds(dropped(zones), name, key),
{
    let after = dropped(zones);
    assert forall|i: int, j: int|
        0 <= i < after.len() && 0 <= j < after.len() && i != j implies (#[trigger] after[i]).name
        != (#[trigger] after[j]).name by {
        assert(after[i].name == zones[i].name);
        assert(after[j].name == zones[j].name);
    }
    assert forall|name: Seq<char>| #[trigger]
        has_zone(after, name) == has_zone(zones, name) by {
        if has_zone(zones, name) {
            let z = zone_id(zones, name);
            assert(after[z].name == name);
        }
        if has_zone(after, name) {
            let z = zone_id(after, name);
            assert(zones[z].name == name);
        }
    }
    assert forall|name: Seq<char>| has_zone(zones, name) implies #[trigger] zone_id(after, name)
        == zone_id(zones, name) by {
        let z = zone_id(zones, name);
        assert(after[z].name == name);
        lemma_zone_id(after, name, z);
    }
    assert forall|name: Seq<char>, key: RecordKey| !#[trigger] holds(after, name, key) by {
        if has_zone(after, name) {
            let z = zone_id(after, name);
            assert(after[z].records == Map::<RecordKey, RecordData>::empty());
        }
    }
}

} // verus!
