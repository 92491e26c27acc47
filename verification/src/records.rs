//! The records of one zone: a list kept in the order of their keys, which
//! stands for a map from key to time to live and data.

use crate::text;
use crate::text::Place;
use vstd::prelude::*;

verus! {

/// A resource record as it is stored and listed.
#[derive(Debug, PartialEq, Eq)]
pub struct ResourceRecord {
    pub subdomain: String,
    pub ttl: u32,
    pub class: String,
    pub type_: String,
    pub data: String,
}

/// A resource record, as text and number.
pub struct ResourceRecordView {
    pub subdomain: Seq<char>,
    pub ttl: u32,
    pub class: Seq<char>,
    pub type_: Seq<char>,
    pub data: Seq<char>,
}

/// What tells the records of one zone apart: at most one record is kept
/// for each key.
pub struct RecordKey {
    pub subdomain: Seq<char>,
    pub class: Seq<char>,
    pub type_: Seq<char>,
}

/// What a record says beside its key.
pub struct RecordData {
    pub ttl: u32,
    pub data: Seq<char>,
}

impl View for ResourceRecord {
    type V = ResourceRecordView;

    open spec fn view(&self) -> ResourceRecordView {
        ResourceRecordView {
            subdomain: self.subdomain@,
            ttl: self.ttl,
            class: self.class@,
            type_: self.type_@,
            data: self.data@,
        }
    }
}

impl ResourceRecordView {
    /// What tells the record apart from the others of its zone.
    pub open spec fn key(self) -> RecordKey {
        RecordKey { subdomain: self.subdomain, class: self.class, type_: self.type_ }
    }

    /// What the record says beside its key.
    pub open spec fn value(self) -> RecordData {
        RecordData { ttl: self.ttl, data: self.data }
    }
}

/// The order of keys: by subdomain, then class, then type.
pub open spec fn key_before(a: RecordKey, b: RecordKey) -> bool {
    ||| text::before(a.subdomain, b.subdomain)
    ||| a.subdomain == b.subdomain && text::before(a.class, b.class)
    ||| a.subdomain == b.subdomain && a.class == b.class && text::before(a.type_, b.type_)
}

/// The order in which records are listed: by subdomain, class, type, time
/// to live and data.
pub open spec fn listed_before(a: ResourceRecordView, b: ResourceRecordView) -> bool {
    ||| key_before(a.key(), b.key())
    ||| a.key() == b.key() && a.ttl < b.ttl
    ||| a.key() == b.key() && a.ttl == b.ttl && text::before(a.data, b.data)
}

/// Strictly ascending keys.
pub open spec fn sorted(records: Seq<ResourceRecordView>) -> bool {
    forall|i: int, j: int|
        0 <= i < j < records.len() ==> key_before(
            (#[trigger] records[i]).key(),
            (#[trigger] records[j]).key(),
        )
}

/// Some record of the list has the key.
pub open spec fn has_key(records: Seq<ResourceRecordView>, key: RecordKey) -> bool {
    exists|j: int| 0 <= j < records.len() && (#[trigger] records[j]).key() == key
}

/// The place in the list of a record with the key.
pub open spec fn key_index(records: Seq<ResourceRecordView>, key: RecordKey) -> int {
    choose|j: int| 0 <= j < records.len() && (#[trigger] records[j]).key() == key
}

/// The map that a list of records stands for.
pub open spec fn records_map(records: Seq<ResourceRecordView>) -> Map<RecordKey, RecordData> {
    Map::new(
        |key: RecordKey| has_key(records, key),
        |key: RecordKey| records[key_index(records, key)].value(),
    )
}

/// The views of a list of records.
pub open spec fn views(records: Seq<ResourceRecord>) -> Seq<ResourceRecordView> {
    Seq::new(records.len(), |i: int| records[i]@)
}

/// No key comes before itself.
pub proof fn lemma_key_irreflexive(a: RecordKey)
    ensures
        !key_before(a, a),
{
    text::lemma_irreflexive(a.subdomain);
    text::lemma_irreflexive(a.class);
    text::lemma_irreflexive(a.type_);
}

/// The order of keys is transitive.
pub proof fn lemma_key_transitive(a: RecordKey, b: RecordKey, c: RecordKey)
    requires
        key_before(a, b),
        key_before(b, c),
    ensures
        key_before(a, c),
{
    if text::before(a.subdomain, b.subdomain) && text::before(b.subdomain, c.subdomain) {
        text::lemma_transitive(a.subdomain, b.subdomain, c.subdomain);
    }
    if text::before(a.class, b.class) && text::before(b.class, c.class) {
        text::lemma_transitive(a.class, b.class, c.class);
    }
    if text::before(a.type_, b.type_) && text::before(b.type_, c.type_) {
        text::lemma_transitive(a.type_, b.type_, c.type_);
    }
}

/// Of two keys one comes before the other, or they are the same.
pub proof fn lemma_key_total(a: RecordKey, b: RecordKey)
    ensures
        key_before(a, b) || a == b || key_before(b, a),
{
    text::lemma_total(a.subdomain, b.subdomain);
    text::lemma_total(a.class, b.class);
    text::lemma_total(a.type_, b.type_);
}

/// In a list with ascending keys no key occurs twice, and the list is in
/// the order in which records are listed.
pub proof fn lemma_sorted_is_listed(records: Seq<ResourceRecordView>)
    requires
        sorted(records),
    ensures
        forall|i: int, j: int|
            0 <= i < j < records.len() ==> listed_before(
                #[trigger] records[i],
                #[trigger] records[j],
            ),
        forall|i: int, j: int|
            0 <= i < records.len() && 0 <= j < records.len() && i != j ==> (
            #[trigger] records[i]).key() != (#[trigger] records[j]).key(),
{
    assert forall|i: int, j: int|
        0 <= i < records.len() && 0 <= j < records.len() && i != j implies (
    #[trigger] records[i]).key() != (#[trigger] records[j]).key() by {
        lemma_key_irreflexive(records[i].key());
        if i < j {
            assert(key_before(records[i].key(), records[j].key()));
        } else {
            assert(key_before(records[j].key(), records[i].key()));
        }
    }
}

/// The map of a list with ascending keys holds each record of the list
/// under its key, and nothing else.
pub proof fn lemma_map_of_sorted(records: Seq<ResourceRecordView>)
    requires
        sorted(records),
    ensures
        forall|j: int|
            0 <= j < records.len() ==> records_map(records).contains_pair(
                (#[trigger] records[j]).key(),
                records[j].value(),
            ),
        forall|key: RecordKey| #[trigger]
            records_map(records).dom().contains(key) ==> has_key(records, key),
{
    lemma_sorted_is_listed(records);
    assert forall|j: int| 0 <= j < records.len() implies records_map(records).contains_pair(
        (#[trigger] records[j]).key(),
        records[j].value(),
    ) by {
        let key = records[j].key();
        assert(has_key(records, key));
        let at = key_index(records, key);
        assert(at == j);
    }
}

/// A key that the list passes by at `at` is not in it.
pub proof fn lemma_absent(records: Seq<ResourceRecordView>, at: int, key: RecordKey)
    requires
        0 <= at <= records.len(),
        forall|i: int| 0 <= i < at ==> key_before((#[trigger] records[i]).key(), key),
        forall|i: int| at <= i < records.len() ==> key_before(key, (#[trigger] records[i]).key()),
    ensures
        !has_key(records, key),
        records_map(records).remove(key) == records_map(records),
{
    lemma_key_irreflexive(key);
    assert(records_map(records).remove(key) =~= records_map(records));
}

/// A record put where its key belongs is added to the map.
pub proof fn lemma_insert(records: Seq<ResourceRecordView>, at: int, record: ResourceRecordView)
    requires
        sorted(records),
        0 <= at <= records.len(),
        forall|i: int| 0 <= i < at ==> key_before((#[trigger] records[i]).key(), record.key()),
        forall|i: int|
            at <= i < records.len() ==> key_before(record.key(), (#[trigger] records[i]).key()),
    ensures
        sorted(records.insert(at, record)),
        records_map(records.insert(at, record)) == records_map(records).insert(
            record.key(),
            record.value(),
        ),
{
    let after = records.insert(at, record);
    assert forall|i: int, j: int| 0 <= i < j < after.len() implies key_before(
        (#[trigger] after[i]).key(),
        (#[trigger] after[j]).key(),
    ) by {
        let i0 = if i < at {
            i
        } else {
            i - 1
        };
        let j0 = if j < at {
            j
        } else {
            j - 1
        };
        if i != at && j != at {
            assert(key_before(records[i0].key(), records[j0].key()));
        } else if i == at {
            assert(key_before(record.key(), records[j0].key()));
        } else {
            assert(key_before(records[i0].key(), record.key()));
        }
    }
    lemma_map_of_sorted(records);
    lemma_map_of_sorted(after);
    lemma_sorted_is_listed(after);
    let expected = records_map(records).insert(record.key(), record.value());
    assert forall|key: RecordKey| records_map(after).dom().contains(key) implies #[trigger]
        expected.dom().contains(key) && expected[key] == records_map(after)[key] by {
        assert(has_key(after, key));
        let j = key_index(after, key);
        assert(0 <= j < after.len() && after[j].key() == key);
        assert(records_map(after).contains_pair(after[j].key(), after[j].value()));
        if j != at {
            let j0 = if j < at {
                j
            } else {
                j - 1
            };
            assert(records[j0] == after[j]);
            assert(after[at].key() != after[j].key());
            assert(records_map(records).contains_pair(records[j0].key(), records[j0].value()));
        } else {
            assert(after[at] == record);
        }
    }
    assert forall|key: RecordKey| #[trigger] expected.dom().contains(key) implies records_map(
        after,
    ).dom().contains(key) by {
        if key == record.key() {
            assert(after[at].key() == key);
        } else {
            let j0 = key_index(records, key);
            let j = if j0 < at {
                j0
            } else {
                j0 + 1
            };
            assert(after[j].key() == key);
        }
    }
    assert(records_map(after) =~= expected);
}

/// A record put in place of the one with its key replaces it in the map.
pub proof fn lemma_replace(records: Seq<ResourceRecordView>, at: int, record: ResourceRecordView)
    requires
        sorted(records),
        0 <= at < records.len(),
        records[at].key() == record.key(),
    ensures
        sorted(records.update(at, record)),
        records_map(records.update(at, record)) == records_map(records).insert(
            record.key(),
            record.value(),
        ),
{
    let after = records.update(at, record);
    assert forall|i: int, j: int| 0 <= i < j < after.len() implies key_before(
        (#[trigger] after[i]).key(),
        (#[trigger] after[j]).key(),
    ) by {
        assert(key_before(records[i].key(), records[j].key()));
    }
    lemma_map_of_sorted(records);
    lemma_map_of_sorted(after);
    lemma_sorted_is_listed(after);
    let expected = records_map(records).insert(record.key(), record.value());
    assert forall|key: RecordKey| records_map(after).dom().contains(key) implies #[trigger]
        expected.dom().contains(key) && expected[key] == records_map(after)[key] by {
        assert(has_key(after, key));
        let j = key_index(after, key);
        assert(0 <= j < after.len() && after[j].key() == key);
        assert(records_map(after).contains_pair(after[j].key(), after[j].value()));
        if j != at {
            assert(records[j] == after[j]);
            assert(after[at].key() != after[j].key());
            assert(records_map(records).contains_pair(records[j].key(), records[j].value()));
        } else {
            assert(after[at] == record);
        }
    }
    assert forall|key: RecordKey| #[trigger] expected.dom().contains(key) implies records_map(
        after,
    ).dom().contains(key) by {
        if key == record.key() {
            assert(after[at].key() == key);
        } else {
            let j = key_index(records, key);
            assert(after[j].key() == key);
        }
    }
    assert(records_map(after) =~= expected);
}

/// A record taken out of the list is taken out of the map.
pub proof fn lemma_remove(records: Seq<ResourceRecordView>, at: int)
    requires
        sorted(records),
        0 <= at < records.len(),
    ensures
        sorted(records.remove(at)),
        records_map(records.remove(at)) == records_map(records).remove(records[at].key()),
{
    let after = records.remove(at);
    let gone = records[at].key();
    assert forall|i: int, j: int| 0 <= i < j < after.len() implies key_before(
        (#[trigger] after[i]).key(),
        (#[trigger] after[j]).key(),
    ) by {
        let i0 = if i < at {
            i
        } else {
            i + 1
        };
        let j0 = if j < at {
            j
        } else {
            j + 1
        };
        assert(key_before(records[i0].key(), records[j0].key()));
    }
    lemma_sorted_is_listed(records);
    lemma_map_of_sorted(records);
    lemma_map_of_sorted(after);
    let expected = records_map(records).remove(gone);
    assert forall|key: RecordKey| records_map(after).dom().contains(key) implies #[trigger]
        expected.dom().contains(key) && expected[key] == records_map(after)[key] by {
        let j = key_index(after, key);
        assert(records_map(after).contains_pair(after[j].key(), after[j].value()));
        let j0 = if j < at {
            j
        } else {
            j + 1
        };
        assert(records[j0] == after[j]);
        assert(records_map(records).contains_pair(records[j0].key(), records[j0].value()));
    }
    assert forall|key: RecordKey| #[trigger] expected.dom().contains(key) implies records_map(
        after,
    ).dom().contains(key) by {
        let j0 = key_index(records, key);
        let j = if j0 < at {
            j0
        } else {
            j0 - 1
        };
        assert(after[j].key() == key);
    }
    assert(records_map(after) =~= expected);
}

/// The map of no records is empty.
pub proof fn lemma_empty()
    ensures
        sorted(Seq::<ResourceRecordView>::empty()),
        records_map(Seq::<ResourceRecordView>::empty()) == Map::<RecordKey, RecordData>::empty(),
{
    assert(records_map(Seq::<ResourceRecordView>::empty()) =~= Map::<
        RecordKey,
        RecordData,
    >::empty());
}

/// Where the key made of the three texts stands with respect to the key
/// of `record`.
fn key_place(subdomain: &str, class: &str, type_: &str, record: &ResourceRecord) -> (p: Place)
    ensures
        ({
            let key = RecordKey { subdomain: subdomain@, class: class@, type_: type_@ };
            &&& p == Place::Before <==> key_before(key, record@.key())
            &&& p == Place::Same <==> key == record@.key()
            &&& p == Place::After <==> key_before(record@.key(), key)
        }),
{
    proof {
        let key = RecordKey { subdomain: subdomain@, class: class@, type_: type_@ };
        lemma_key_irreflexive(key);
        lemma_key_total(key, record@.key());
        if key_before(key, record@.key()) && key_before(record@.key(), key) {
            lemma_key_transitive(key, record@.key(), key);
        }
    }
    match text::place(subdomain, record.subdomain.as_str()) {
        Place::Same => match text::place(class, record.class.as_str()) {
            Place::Same => text::place(type_, record.type_.as_str()),
            other => other,
        },
        other => other,
    }
}

/// The place of the first record whose key is not before the key made of
/// the three texts, and whether that record has the key.
fn find(records: &Vec<ResourceRecord>, subdomain: &str, class: &str, type_: &str) -> (r: (
    usize,
    bool,
))
    requires
        sorted(views(records@)),
    ensures
        ({
            let key = RecordKey { subdomain: subdomain@, class: class@, type_: type_@ };
            let list = views(records@);
            &&& r.0 <= list.len()
            &&& forall|i: int| 0 <= i < r.0 ==> key_before((#[trigger] list[i]).key(), key)
            &&& r.1 ==> r.0 < list.len() && list[r.0 as int].key() == key
            &&& !r.1 ==> forall|i: int|
                r.0 <= i < list.len() ==> key_before(key, (#[trigger] list[i]).key())
        }),
{
    let ghost key = RecordKey { subdomain: subdomain@, class: class@, type_: type_@ };
    let ghost list = views(records@);
    let mut at: usize = 0;
    while at < records.len()
        invariant
            at <= records@.len(),
            list == views(records@),
            sorted(list),
            key == (RecordKey { subdomain: subdomain@, class: class@, type_: type_@ }),
            forall|i: int| 0 <= i < at ==> key_before((#[trigger] list[i]).key(), key),
        decreases records@.len() - at,
    {
        match key_place(subdomain, class, type_, &records[at]) {
            Place::After => {
                assert(list[at as int] == records@[at as int]@);
                at = at + 1;
            },
            Place::Same => {
                assert(list[at as int] == records@[at as int]@);
                return (at, true);
            },
            Place::Before => {
                proof {
                    assert(list[at as int] == records@[at as int]@);
                    assert forall|i: int| at <= i < list.len() implies key_before(
                        key,
                        (#[trigger] list[i]).key(),
                    ) by {
                        if i > at {
                            assert(key_before(list[at as int].key(), list[i].key()));
                            lemma_key_transitive(key, list[at as int].key(), list[i].key());
                        }
                    }
                }
                return (at, false);
            },
        }
    }
    (at, false)
}

/// Puts `record` into the list: in place of the record with its key where
/// there is one, else where its key belongs.
pub fn upsert(records: &mut Vec<ResourceRecord>, record: ResourceRecord)
    requires
        sorted(views(old(records)@)),
    ensures
        sorted(views(final(records)@)),
        records_map(views(final(records)@)) == records_map(views(old(records)@)).insert(
            record@.key(),
            record@.value(),
        ),
{
    let (at, found) = find(
        records,
        record.subdomain.as_str(),
        record.class.as_str(),
        record.type_.as_str(),
    );
    let ghost before = views(records@);
    if found {
        records.set(at, record);
        proof {
            assert(views(records@) =~= before.update(at as int, record@));
            lemma_replace(before, at as int, record@);
        }
    } else {
        records.insert(at, record);
        proof {
            assert(views(records@) =~= before.insert(at as int, record@));
            lemma_insert(before, at as int, record@);
        }
    }
}

/// Takes the record with the key made of the three texts out of the list,
/// where there is one.
pub fn remove(records: &mut Vec<ResourceRecord>, subdomain: &str, class: &str, type_: &str)
    requires
        sorted(views(old(records)@)),
    ensures
        sorted(views(final(records)@)),
        records_map(views(final(records)@)) == records_map(views(old(records)@)).remove(
            RecordKey { subdomain: subdomain@, class: class@, type_: type_@ },
        ),
{
    let (at, found) = find(records, subdomain, class, type_);
    let ghost before = views(records@);
    if found {
        records.remove(at);
        proof {
            assert(views(records@) =~= before.remove(at as int));
            lemma_remove(before, at as int);
        }
    } else {
        proof {
            lemma_absent(
                before,
                at as int,
                RecordKey { subdomain: subdomain@, class: class@, type_: type_@ },
            );
        }
    }
}

/// Two lists with ascending keys that stand for one map start with the
/// same record.
proof fn lemma_same_first(a: Seq<ResourceRecordView>, b: Seq<ResourceRecordView>)
    requires
        sorted(a),
        sorted(b),
        records_map(a) == records_map(b),
        a.len() > 0,
    ensures
        b.len() > 0,
        a[0] == b[0],
{
    lemma_map_of_sorted(a);
    lemma_map_of_sorted(b);
    assert(records_map(a).contains_pair(a[0].key(), a[0].value()));
    assert(has_key(b, a[0].key()));
    let j = key_index(b, a[0].key());
    assert(records_map(b).contains_pair(b[0].key(), b[0].value()));
    assert(has_key(a, b[0].key()));
    let i = key_index(a, b[0].key());
    if j > 0 {
        assert(key_before(b[0].key(), b[j].key()));
        if i > 0 {
            assert(key_before(a[0].key(), a[i].key()));
            lemma_key_transitive(a[0].key(), b[0].key(), a[0].key());
        }
        lemma_key_irreflexive(a[0].key());
    }
    assert(records_map(b).contains_pair(b[j].key(), b[j].value()));
}

/// A set of records is listed in one way only: two lists with ascending
/// keys that stand for one map are the same list.
pub proof fn lemma_listing_unique(a: Seq<ResourceRecordView>, b: Seq<ResourceRecordView>)
    requires
        sorted(a),
        sorted(b),
        records_map(a) == records_map(b),
    ensures
        a == b,
    decreases a.len() + b.len(),
{
    if a.len() == 0 && b.len() == 0 {
        assert(a =~= b);
    } else if a.len() == 0 {
        lemma_same_first(b, a);
    } else {
        lemma_same_first(a, b);
        lemma_remove(a, 0);
        lemma_remove(b, 0);
        lemma_listing_unique(a.remove(0), b.remove(0));
        assert(a =~= seq![a[0]] + a.remove(0));
        assert(b =~= seq![b[0]] + b.remove(0));
    }
}

} // verus!
