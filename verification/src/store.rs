//! The record store: zones, each with its records.
//!
//! A zone comes into being with the first record that is added to it and
//! is never removed; its id is its place in the order in which the zones
//! came. A store stands for the sequence of its zones by id, each with its
//! name and the map of its records.

use crate::records;
use crate::records::{records_map, sorted, views};
use crate::records::{RecordData, RecordKey, ResourceRecord, ResourceRecordView};
use crate::text;
use vstd::prelude::*;
use vstd::string::StringExecFns;

verus! {

/// A zone as the store stands for it.
pub struct ZoneView {
    pub name: Seq<char>,
    pub records: Map<RecordKey, RecordData>,
}

/// A zone as it is listed.
#[derive(Debug, PartialEq, Eq)]
pub struct Zone {
    pub id: usize,
    pub name: String,
}

/// Some zone has the name.
pub open spec fn has_zone(zones: Seq<ZoneView>, name: Seq<char>) -> bool {
    exists|z: int| 0 <= z < zones.len() && (#[trigger] zones[z]).name == name
}

/// The id of a zone with the name.
pub open spec fn zone_id(zones: Seq<ZoneView>, name: Seq<char>) -> int {
    choose|z: int| 0 <= z < zones.len() && (#[trigger] zones[z]).name == name
}

/// No two zones have one name.
pub open spec fn distinct(zones: Seq<ZoneView>) -> bool {
    forall|i: int, j: int|
        0 <= i < zones.len() && 0 <= j < zones.len() && i != j ==> (#[trigger] zones[i]).name != (
        #[trigger] zones[j]).name
}

/// The zones with one of the name among them: a new one, without
/// records, comes last.
pub open spec fn with_zone(zones: Seq<ZoneView>, name: Seq<char>) -> Seq<ZoneView> {
    if has_zone(zones, name) {
        zones
    } else {
        zones.push(ZoneView { name, records: Map::empty() })
    }
}

/// The zones after a record was added: the zone is there, and it holds
/// `value` under `key`, in place of what it held under it.
pub open spec fn added(zones: Seq<ZoneView>, name: Seq<char>, key: RecordKey, value: RecordData) -> Seq<
    ZoneView,
> {
    let all = with_zone(zones, name);
    let z = zone_id(all, name);
    all.update(z, ZoneView { name, records: all[z].records.insert(key, value) })
}

/// The zones after a record was deleted: the zone, where there is one,
/// holds nothing under `key`.
pub open spec fn deleted(zones: Seq<ZoneView>, name: Seq<char>, key: RecordKey) -> Seq<ZoneView> {
    if has_zone(zones, name) {
        let z = zone_id(zones, name);
        zones.update(z, ZoneView { name, records: zones[z].records.remove(key) })
    } else {
        zones
    }
}

/// The zones after all records were dropped: every zone is still there,
/// and none holds a record.
pub open spec fn dropped(zones: Seq<ZoneView>) -> Seq<ZoneView> {
    Seq::new(zones.len(), |z: int| ZoneView { name: zones[z].name, records: Map::empty() })
}

/// The zone with the id `z` is in the list.
pub open spec fn lists_zone(listed: Seq<Zone>, z: int) -> bool {
    exists|i: int| 0 <= i < listed.len() && (#[trigger] listed[i]).id == z
}

/// The ids in `order` are ids of `names`, and their names ascend.
spec fn ordered(names: Seq<Seq<char>>, order: Seq<usize>) -> bool {
    &&& order.len() == names.len()
    &&& forall|i: int| 0 <= i < order.len() ==> (#[trigger] order[i]) < names.len()
    &&& forall|i: int, j: int|
        0 <= i < j < order.len() ==> text::before(
            names[(#[trigger] order[i]) as int],
            names[(#[trigger] order[j]) as int],
        )
}

/// The id `z` is in `order`.
spec fn lists(order: Seq<usize>, z: int) -> bool {
    exists|i: int| 0 <= i < order.len() && #[trigger] order[i] == z
}

/// A new name put into the order where it belongs keeps the order, and
/// every id is still in it.
proof fn lemma_order_insert(names: Seq<Seq<char>>, order: Seq<usize>, at: int, name: Seq<char>)
    requires
        ordered(names, order),
        names.len() <= usize::MAX,
        forall|z: int| 0 <= z < names.len() ==> #[trigger] lists(order, z),
        forall|z: int| 0 <= z < names.len() ==> #[trigger] names[z] != name,
        0 <= at <= order.len(),
        forall|i: int| 0 <= i < at ==> text::before(names[(#[trigger] order[i]) as int], name),
        at == order.len() || !text::before(names[order[at] as int], name),
    ensures
        ordered(names.push(name), order.insert(at, names.len() as usize)),
        forall|z: int|
            0 <= z <= names.len() ==> #[trigger] lists(order.insert(at, names.len() as usize), z),
{
    let id = names.len() as usize;
    let names2 = names.push(name);
    let order2 = order.insert(at, id);
    assert forall|i: int| at <= i < order.len() implies text::before(
        name,
        names[(#[trigger] order[i]) as int],
    ) by {
        let first = names[order[at] as int];
        text::lemma_total(first, name);
        if i > at {
            assert(text::before(names[order[at] as int], names[order[i] as int]));
            text::lemma_transitive(name, first, names[order[i] as int]);
        }
    }
    assert forall|i: int, j: int| 0 <= i < j < order2.len() implies text::before(
        names2[(#[trigger] order2[i]) as int],
        names2[(#[trigger] order2[j]) as int],
    ) by {
        let i0 = if i < at {
            i
        } else {
            i - 1
        };
        let j0 = if j < at {
            j
        } else {
            j - 1
        };
        if i != at && j != at {
            assert(text::before(names[order[i0] as int], names[order[j0] as int]));
        } else if i == at {
            assert(text::before(name, names[order[j0] as int]));
        } else {
            assert(text::before(names[order[i0] as int], name));
        }
    }
    assert forall|z: int| 0 <= z <= names.len() implies #[trigger] lists(order2, z) by {
        if z == names.len() {
            assert(order2[at] == z);
        } else {
            assert(lists(order, z));
            let i0 = choose|i: int| 0 <= i < order.len() && #[trigger] order[i] == z;
            let i = if i0 < at {
                i0
            } else {
                i0 + 1
            };
            assert(order2[i] == z);
        }
    }
}

struct ZoneEntry {
    name: String,
    records: Vec<ResourceRecord>,
}

/// The zones and their records.
pub struct Store {
    /// The zones by id.
    zones: Vec<ZoneEntry>,
    /// The ids in the order of the zones' names.
    order: Vec<usize>,
}

impl View for Store {
    type V = Seq<ZoneView>;

    closed spec fn view(&self) -> Seq<ZoneView> {
        Seq::new(
            self.zones@.len(),
            |z: int|
                ZoneView {
                    name: self.zones@[z].name@,
                    records: records_map(views(self.zones@[z].records@)),
                },
        )
    }
}

impl Store {
    /// The names of the zones by id.
    spec fn names(&self) -> Seq<Seq<char>> {
        Seq::new(self.zones@.len(), |z: int| self.zones@[z].name@)
    }

    spec fn records_sorted(&self) -> bool {
        forall|z: int|
            0 <= z < self.zones@.len() ==> sorted(views((#[trigger] self.zones@[z]).records@))
    }

    spec fn order_sorted(&self) -> bool {
        ordered(self.names(), self.order@)
    }

    spec fn order_lists(&self, z: int) -> bool {
        lists(self.order@, z)
    }

    /// What holds of every store: the records of each zone are in the
    /// order of their keys, no two zones have one name, and the zones are
    /// indexed in the order of their names.
    pub closed spec fn wf(&self) -> bool {
        &&& self.records_sorted()
        &&& distinct(self@)
        &&& self.order_sorted()
        &&& forall|z: int| 0 <= z < self.zones@.len() ==> #[trigger] self.order_lists(z)
    }

    /// No two zones of a store have one name.
    pub proof fn lemma_distinct(&self)
        requires
            self.wf(),
        ensures
            distinct(self@),
    {
    }

    /// A store without zones.
    pub fn new() -> (store: Store)
        ensures
            store.wf(),
            store@ == Seq::<ZoneView>::empty(),
    {
        let store = Store { zones: Vec::new(), order: Vec::new() };
        assert(store@ =~= Seq::<ZoneView>::empty());
        store
    }

    /// How many zones there are. Their ids are the numbers below it.
    pub fn zone_count(&self) -> (count: usize)
        ensures
            count == self@.len(),
    {
        self.zones.len()
    }

    /// The name of the zone with the id, where there is one.
    pub fn zone_name(&self, zoneid: usize) -> (name: Option<&str>)
        ensures
            match name {
                Some(name) => zoneid < self@.len() && name@ == self@[zoneid as int].name,
                None => zoneid >= self@.len(),
            },
    {
        if zoneid < self.zones.len() {
            Some(self.zones[zoneid].name.as_str())
        } else {
            None
        }
    }

    /// The id of the zone with the name, where there is one.
    pub fn find_zone(&self, name: &str) -> (found: Option<usize>)
        requires
            self.wf(),
        ensures
            match found {
                Some(z) => has_zone(self@, name@) && z == zone_id(self@, name@) && z < self@.len(),
                None => !has_zone(self@, name@),
            },
    {
        let mut z: usize = 0;
        while z < self.zones.len()
            invariant
                z <= self.zones@.len(),
                self.wf(),
                forall|i: int| 0 <= i < z ==> (#[trigger] self@[i]).name != name@,
            decreases self.zones@.len() - z,
        {
            if text::same(name, self.zones[z].name.as_str()) {
                assert(self@[z as int].name == name@);
                return Some(z);
            }
            assert(self@[z as int].name != name@);
            z = z + 1;
        }
        None
    }
}

impl Store {
    /// The id of the zone with the name, which comes into being, without
    /// records, where there is none.
    pub fn ensure_zone(&mut self, name: &str) -> (z: usize)
        requires
            old(self).wf(),
        ensures
            final(self).wf(),
            final(self)@ == with_zone(old(self)@, name@),
            has_zone(final(self)@, name@),
            z == zone_id(final(self)@, name@),
            z < final(self)@.len(),
    {
        if let Some(z) = self.find_zone(name) {
            return z;
        }
        let mut at: usize = 0;
        while at < self.order.len() && text::comes_before(
            self.zones[self.order[at]].name.as_str(),
            name,
        )
            invariant
                self.wf(),
                at <= self.order@.len(),
                forall|i: int|
                    0 <= i < at ==> text::before(
                        self.names()[(#[trigger] self.order@[i]) as int],
                        name@,
                    ),
            decreases self.order@.len() - at,
        {
            at = at + 1;
        }
        let z = self.zones.len();
        let ghost names = self.names();
        let ghost order = self.order@;
        let ghost before = self@;
        proof {
            assert forall|i: int| 0 <= i < names.len() implies #[trigger] names[i] != name@ by {
                assert(before[i].name == names[i]);
            }
            assert forall|i: int| 0 <= i < names.len() implies #[trigger] lists(order, i) by {
                assert(self.order_lists(i));
            }
            lemma_order_insert(names, order, at as int, name@);
            records::lemma_empty();
        }
        self.zones.push(ZoneEntry { name: String::from_str(name), records: Vec::new() });
        self.order.insert(at, z);
        proof {
            let added = ZoneView { name: name@, records: Map::empty() };
            assert(views(self.zones@[z as int].records@) =~= Seq::<ResourceRecordView>::empty());
            assert(self@ =~= before.push(added));
            assert(self.names() =~= names.push(name@));
            assert(self@[z as int].name == name@);
            assert forall|i: int| 0 <= i < self.zones@.len() implies sorted(
                views((#[trigger] self.zones@[i]).records@),
            ) by {
                if i < z {
                    assert(self.zones@[i] == old(self).zones@[i]);
                }
            }
            assert forall|i: int, j: int|
                0 <= i < self@.len() && 0 <= j < self@.len() && i != j implies (
            #[trigger] self@[i]).name != (#[trigger] self@[j]).name by {
                if i < z && j < z {
                    assert(before[i].name != before[j].name);
                } else if i < z {
                    assert(before[i].name == names[i]);
                } else {
                    assert(before[j].name == names[j]);
                }
            }
            assert forall|i: int| 0 <= i < self.zones@.len() implies #[trigger] self.order_lists(
                i,
            ) by {
                assert(lists(order.insert(at as int, z), i));
            }
        }
        z
    }
}

/// A copy of a record.
pub fn copy_record(record: &ResourceRecord) -> (copy: ResourceRecord)
    ensures
        copy@ == record@,
{
    ResourceRecord {
        subdomain: record.subdomain.clone(),
        ttl: record.ttl,
        class: record.class.clone(),
        type_: record.type_.clone(),
        data: record.data.clone(),
    }
}

/// A copy of a list of records.
pub fn copy_records(records: &Vec<ResourceRecord>) -> (copy: Vec<ResourceRecord>)
    ensures
        views(copy@) == views(records@),
{
    let mut copy: Vec<ResourceRecord> = Vec::new();
    let mut i: usize = 0;
    while i < records.len()
        invariant
            i <= records@.len(),
            copy@.len() == i,
            forall|j: int| 0 <= j < i ==> (#[trigger] copy@[j])@ == records@[j]@,
        decreases records@.len() - i,
    {
        copy.push(copy_record(&records[i]));
        i = i + 1;
    }
    assert(views(copy@) =~= views(records@));
    copy
}

impl Store {
    /// Adds a record to the zone, which comes into being where it is new:
    /// the record takes the place of the one with its key, where there is
    /// one.
    pub fn add(
        &mut self,
        zone: &str,
        subdomain: &str,
        ttl: u32,
        class: &str,
        type_: &str,
        data: &str,
    )
        requires
            old(self).wf(),
        ensures
            final(self).wf(),
            final(self)@ == added(
                old(self)@,
                zone@,
                RecordKey { subdomain: subdomain@, class: class@, type_: type_@ },
                RecordData { ttl, data: data@ },
            ),
    {
        let z = self.ensure_zone(zone);
        let record = ResourceRecord {
            subdomain: String::from_str(subdomain),
            ttl,
            class: String::from_str(class),
            type_: String::from_str(type_),
            data: String::from_str(data),
        };
        let ghost mid = *self;
        let ghost key = RecordKey { subdomain: subdomain@, class: class@, type_: type_@ };
        let ghost value = RecordData { ttl, data: data@ };
        assert(mid@[z as int].name == zone@);
        records::upsert(&mut self.zones[z].records, record);
        proof {
            assert(self.names() =~= mid.names());
            assert(self@ =~= mid@.update(
                z as int,
                ZoneView { name: zone@, records: mid@[z as int].records.insert(key, value) },
            ));
            assert forall|i: int| 0 <= i < self.zones@.len() implies #[trigger] self.order_lists(
                i,
            ) by {
                assert(mid.order_lists(i));
            }
        }
    }

    /// Deletes the record with the key from the zone. Where the zone or
    /// the record is not there, nothing changes.
    pub fn delete(&mut self, zone: &str, subdomain: &str, class: &str, type_: &str)
        requires
            old(self).wf(),
        ensures
            final(self).wf(),
            final(self)@ == deleted(
                old(self)@,
                zone@,
                RecordKey { subdomain: subdomain@, class: class@, type_: type_@ },
            ),
    {
        let ghost before = *self;
        let ghost key = RecordKey { subdomain: subdomain@, class: class@, type_: type_@ };
        match self.find_zone(zone) {
            None => {},
            Some(z) => {
                assert(before@[z as int].name == zone@);
                records::remove(&mut self.zones[z].records, subdomain, class, type_);
                proof {
                    assert(self.names() =~= before.names());
                    assert(self@ =~= before@.update(
                        z as int,
                        ZoneView { name: zone@, records: before@[z as int].records.remove(key) },
                    ));
                    assert forall|i: int| 0 <= i < self.zones@.len() implies #[trigger]
                        self.order_lists(i) by {
                        assert(before.order_lists(i));
                    }
                }
            },
        }
    }

    /// Drops the records of every zone. The zones stay.
    pub fn drop_records(&mut self)
        requires
            old(self).wf(),
        ensures
            final(self).wf(),
            final(self)@ == dropped(old(self)@),
    {
        let ghost before = *self;
        let n = self.zones.len();
        let mut z: usize = 0;
        proof {
            records::lemma_empty();
        }
        while z < n
            invariant
                n == self.zones@.len(),
                n == before.zones@.len(),
                z <= n,
                before.wf(),
                self.order@ == before.order@,
                forall|i: int|
                    0 <= i < n ==> (#[trigger] self.zones@[i]).name@ == before.zones@[i].name@,
                forall|i: int| 0 <= i < z ==> (#[trigger] self.zones@[i]).records@.len() == 0,
                forall|i: int|
                    z <= i < n ==> (#[trigger] self.zones@[i]).records@
                        == before.zones@[i].records@,
            decreases n - z,
        {
            self.zones[z].records = Vec::new();
            z = z + 1;
        }
        proof {
            records::lemma_empty();
            assert forall|i: int| 0 <= i < n implies views((#[trigger] self.zones@[i]).records@)
                == Seq::<ResourceRecordView>::empty() by {
                assert(views(self.zones@[i].records@) =~= Seq::<ResourceRecordView>::empty());
            }
            assert(self.names() =~= before.names());
            assert(self@ =~= dropped(before@));
            assert forall|i: int, j: int|
                0 <= i < self@.len() && 0 <= j < self@.len() && i != j implies (
            #[trigger] self@[i]).name != (#[trigger] self@[j]).name by {
                assert(before@[i].name != before@[j].name);
            }
            assert forall|i: int| 0 <= i < self.zones@.len() implies #[trigger] self.order_lists(
                i,
            ) by {
                assert(before.order_lists(i));
            }
        }
    }

    /// The zones in the order of their names.
    pub fn list_zones(&self) -> (listed: Vec<Zone>)
        requires
            self.wf(),
        ensures
            listed@.len() == self@.len(),
            forall|i: int|
                0 <= i < listed@.len() ==> (#[trigger] listed@[i]).id < self@.len()
                    && listed@[i].name@ == self@[listed@[i].id as int].name,
            forall|i: int, j: int|
                0 <= i < j < listed@.len() ==> text::before(
                    (#[trigger] listed@[i]).name@,
                    (#[trigger] listed@[j]).name@,
                ),
            forall|z: int| 0 <= z < self@.len() ==> #[trigger] lists_zone(listed@, z),
    {
        let mut listed: Vec<Zone> = Vec::new();
        let mut i: usize = 0;
        while i < self.order.len()
            invariant
                self.wf(),
                i <= self.order@.len(),
                listed@.len() == i,
                forall|k: int|
                    0 <= k < i ==> (#[trigger] listed@[k]).id == self.order@[k] && listed@[k].name@
                        == self.names()[self.order@[k] as int],
            decreases self.order@.len() - i,
        {
            let id = self.order[i];
            listed.push(Zone { id, name: self.zones[id].name.clone() });
            i = i + 1;
        }
        proof {
            assert forall|k: int| 0 <= k < listed@.len() implies (#[trigger] listed@[k]).id
                < self@.len() && listed@[k].name@ == self@[listed@[k].id as int].name by {
                assert(self.order@[k] < self.zones@.len());
            }
            assert forall|a: int, b: int| 0 <= a < b < listed@.len() implies text::before(
                (#[trigger] listed@[a]).name@,
                (#[trigger] listed@[b]).name@,
            ) by {
                assert(text::before(
                    self.names()[self.order@[a] as int],
                    self.names()[self.order@[b] as int],
                ));
            }
            assert forall|z: int| 0 <= z < self@.len() implies #[trigger] lists_zone(
                listed@,
                z,
            ) by {
                assert(self.order_lists(z));
                let k = choose|k: int| 0 <= k < self.order@.len() && #[trigger] self.order@[k] == z;
                assert(listed@[k].id == z);
            }
        }
        listed
    }

    /// The records of the zone with the id, in the order of their keys;
    /// none where no zone has the id.
    pub fn list_records(&self, zoneid: usize) -> (listed: Vec<ResourceRecord>)
        requires
            self.wf(),
        ensures
            zoneid >= self@.len() ==> listed@.len() == 0,
            zoneid < self@.len() ==> sorted(views(listed@)) && records_map(views(listed@))
                == self@[zoneid as int].records,
            forall|i: int, j: int|
                0 <= i < j < listed@.len() ==> records::listed_before(
                    #[trigger] views(listed@)[i],
                    #[trigger] views(listed@)[j],
                ),
    {
        if zoneid < self.zones.len() {
            let listed = copy_records(&self.zones[zoneid].records);
            proof {
                records::lemma_sorted_is_listed(views(listed@));
            }
            listed
        } else {
            Vec::new()
        }
    }

    /// A copy of the store.
    pub fn snapshot(&self) -> (copy: Store)
        requires
            self.wf(),
        ensures
            copy.wf(),
            copy@ == self@,
    {
        let mut zones: Vec<ZoneEntry> = Vec::new();
        let mut z: usize = 0;
        while z < self.zones.len()
            invariant
                z <= self.zones@.len(),
                zones@.len() == z,
                forall|i: int|
                    0 <= i < z ==> (#[trigger] zones@[i]).name@ == self.zones@[i].name@ && views(
                        zones@[i].records@,
                    ) == views(self.zones@[i].records@),
            decreases self.zones@.len() - z,
        {
            let entry = &self.zones[z];
            zones.push(ZoneEntry { name: entry.name.clone(), records: copy_records(&entry.records) });
            z = z + 1;
        }
        let mut order: Vec<usize> = Vec::new();
        let mut i: usize = 0;
        while i < self.order.len()
            invariant
                i <= self.order@.len(),
                order@ == self.order@.take(i as int),
            decreases self.order@.len() - i,
        {
            order.push(self.order[i]);
            assert(self.order@.take(i + 1) =~= self.order@.take(i as int).push(self.order@[i as int]));
            i = i + 1;
        }
        assert(order@ =~= self.order@);
        let copy = Store { zones, order };
        proof {
            assert(copy@ =~= self@);
            assert(copy.names() =~= self.names());
            assert forall|k: int| 0 <= k < copy.zones@.len() implies sorted(
                views((#[trigger] copy.zones@[k]).records@),
            ) by {
                assert(sorted(views(self.zones@[k].records@)));
            }
            assert forall|k: int| 0 <= k < copy.zones@.len() implies #[trigger] copy.order_lists(
                k,
            ) by {
                assert(self.order_lists(k));
            }
        }
        copy
    }
}

} // verus!
