//! The pending transaction and what the commands do to the records.
//!
//! A transaction is a copy of the store that the commands work on. It
//! comes into being with the first command that changes records, takes
//! every change that follows, and ends once: a commit puts it in the
//! place of the store, a rollback throws it away.

use crate::parse::{Add, Delete};
use crate::records::{records_map, sorted, RecordData, RecordKey, ResourceRecordView};
use crate::render;
use crate::resolve::{refusal, resolution_of};
use crate::resolve::{tld_to_zone_and_subdomain, ResolveError};
use crate::store::{added, deleted, dropped, has_zone, zone_id, Store, ZoneView};
use crate::text;
use tldextract::TldExtractor;
use vstd::prelude::*;

verus! {

/// The changes that were made since the last commit, as the store that
/// they would leave.
pub struct Transaction {
    store: Store,
}

impl View for Transaction {
    type V = Seq<ZoneView>;

    closed spec fn view(&self) -> Seq<ZoneView> {
        self.store@
    }
}

impl Transaction {
    /// What holds of every transaction: its store is as every store is.
    pub closed spec fn wf(&self) -> bool {
        self.store.wf()
    }

    /// A new transaction on the store: it holds what the store holds.
    pub fn begin(store: &Store) -> (tx: Transaction)
        requires
            store.wf(),
        ensures
            tx.wf(),
            tx@ == store@,
    {
        Transaction { store: store.snapshot() }
    }

    /// The store as the transaction would leave it.
    pub fn pending(&self) -> (store: &Store)
        requires
            self.wf(),
        ensures
            store.wf(),
            store@ == self@,
    {
        &self.store
    }
}

/// The key of the record that an `add` is about, in the zone where
/// `subdomain` lies.
pub open spec fn add_key(subdomain: Seq<char>, r: crate::grammar::AddView) -> RecordKey {
    RecordKey { subdomain, class: r.class, type_: r.type_ }
}

/// What an `add` says of its record.
pub open spec fn add_value(r: crate::grammar::AddView) -> RecordData {
    RecordData { ttl: r.ttl, data: r.data }
}

/// The key of the record that a `delete` is about, in the zone where
/// `subdomain` lies.
pub open spec fn delete_key(subdomain: Seq<char>, r: crate::grammar::DeleteView) -> RecordKey {
    RecordKey { subdomain, class: r.class, type_: r.type_ }
}

/// The records after the change `update` was made in `zone` under
/// `subdomain`.
pub open spec fn changed(
    records: Seq<ZoneView>,
    update: crate::grammar::UpdateView,
    zone: Seq<char>,
    subdomain: Seq<char>,
) -> Seq<ZoneView> {
    match update {
        crate::grammar::UpdateView::Add(r) => added(
            records,
            zone,
            add_key(subdomain, r),
            add_value(r),
        ),
        crate::grammar::UpdateView::Delete(r) => deleted(records, zone, delete_key(subdomain, r)),
    }
}

/// The transaction that is open, or a new one on the store where none is.
pub fn optionally_create_transaction(store: &Store, optional_tx: Option<Transaction>) -> (r:
    Option<Transaction>)
    requires
        store.wf(),
        optional_tx matches Some(tx) ==> tx.wf(),
    ensures
        r matches Some(tx) && tx.wf() && tx@ == (match optional_tx {
            Some(open) => open@,
            None => store@,
        }),
{
    match optional_tx {
        None => Some(Transaction::begin(store)),
        Some(tx) => Some(tx),
    }
}

/// Commits the transaction that is open, if one is: what it holds takes
/// the place of the store. No transaction is open afterwards.
pub fn optionally_commit_transaction(store: &mut Store, optional_tx: Option<Transaction>) -> (r:
    Option<Transaction>)
    requires
        old(store).wf(),
        optional_tx matches Some(tx) ==> tx.wf(),
    ensures
        r is None,
        final(store).wf(),
        final(store)@ == (match optional_tx {
            Some(tx) => tx@,
            None => old(store)@,
        }),
{
    if let Some(tx) = optional_tx {
        *store = tx.store;
    }
    None
}

/// Rolls the transaction back that is open, if one is: its changes are
/// lost, and the second part of the result says so. No transaction is
/// open afterwards.
pub fn optionally_rollback_transaction(optional_tx: Option<Transaction>) -> (r: (
    Option<Transaction>,
    bool,
))
    ensures
        r.0 is None,
        r.1 == optional_tx is Some,
{
    match optional_tx {
        Some(_) => (None, true),
        None => (None, false),
    }
}

/// Adds the record of `r` to `zone` under `subdomain`, in place of the
/// record with its key where there is one.
pub fn add_resolved(r: Add, tx: &mut Transaction, zone: &str, subdomain: &str)
    requires
        old(tx).wf(),
    ensures
        final(tx).wf(),
        final(tx)@ == added(old(tx)@, zone@, add_key(subdomain@, r@), add_value(r@)),
{
    tx.store.add(zone, subdomain, r.ttl, r.class, r.type_, r.data);
}

/// Deletes the record that `r` is about from `zone` under `subdomain`,
/// if it is there.
pub fn delete_resolved(r: Delete, tx: &mut Transaction, zone: &str, subdomain: &str)
    requires
        old(tx).wf(),
    ensures
        final(tx).wf(),
        final(tx)@ == deleted(old(tx)@, zone@, delete_key(subdomain@, r@)),
{
    tx.store.delete(zone, subdomain, r.class, r.type_);
}

/// Adds the record of `r` to the zone of its name, under the subdomain
/// that the name has in it: the zone comes into being where it is new,
/// and the record takes the place of the one with its key where there is
/// one. Where the name has no zone, nothing changes, and the error says
/// why it has none.
pub fn add(r: Add, tx: &mut Transaction, tld_ext: &TldExtractor) -> (done: Result<
    (),
    ResolveError,
>)
    requires
        old(tx).wf(),
    ensures
        final(tx).wf(),
        match resolution_of(*tld_ext, r.name@) {
            Some((zone, subdomain)) => done is Ok && final(tx)@ == added(
                old(tx)@,
                zone,
                add_key(subdomain, r@),
                add_value(r@),
            ),
            None => done is Err && final(tx)@ == old(tx)@,
        },
        done matches Err(e) ==> refusal(*tld_ext, r.name@, e),
{
    match tld_to_zone_and_subdomain(tld_ext, r.name) {
        Err(e) => Err(e),
        Ok((zone, subdomain)) => {
            add_resolved(r, tx, zone.as_str(), subdomain.as_str());
            Ok(())
        },
    }
}

/// Drops every record of every zone. The zones stay, so that each still
/// gets its file.
pub fn drop(tx: &mut Transaction)
    requires
        old(tx).wf(),
    ensures
        final(tx).wf(),
        final(tx)@ == dropped(old(tx)@),
{
    tx.store.drop_records();
}

/// Deletes the record that `r` is about from the zone of its name, under
/// the subdomain that the name has in it. Where the zone or the record is
/// not there, nothing changes and the deletion has still succeeded. Where
/// the name has no zone, nothing changes, and the error says why it has
/// none.
pub fn delete(r: Delete, tx: &mut Transaction, tld_ext: &TldExtractor) -> (done: Result<
    (),
    ResolveError,
>)
    requires
        old(tx).wf(),
    ensures
        final(tx).wf(),
        match resolution_of(*tld_ext, r.name@) {
            Some((zone, subdomain)) => done is Ok && final(tx)@ == deleted(
                old(tx)@,
                zone,
                delete_key(subdomain, r@),
            ),
            None => done is Err && final(tx)@ == old(tx)@,
        },
        done matches Err(e) ==> refusal(*tld_ext, r.name@, e),
{
    match tld_to_zone_and_subdomain(tld_ext, r.name) {
        Err(e) => Err(e),
        Ok((zone, subdomain)) => {
            delete_resolved(r, tx, zone.as_str(), subdomain.as_str());
            Ok(())
        },
    }
}

/// The file of one zone: the name of the zone and the text of the file.
#[derive(Debug, PartialEq, Eq)]
pub struct ZoneFile {
    pub zone_name: String,
    pub zone_data: String,
}

/// `data` is the text of the file of `zone`: its records are listed in
/// the order of their keys.
pub open spec fn is_text_of(data: Seq<char>, zone: ZoneView) -> bool {
    exists|listed: Seq<ResourceRecordView>|
        sorted(listed) && records_map(listed) == zone.records && data == #[trigger]
        render::zone_text(zone.name, listed)
}

/// Some file is the file of the zone with the name.
pub open spec fn has_file(files: Seq<ZoneFile>, name: Seq<char>) -> bool {
    exists|i: int| 0 <= i < files.len() && (#[trigger] files[i]).zone_name@ == name
}

/// The files of all zones, in the order of the zones' names: one for each
/// zone, be it without records.
pub fn save_zones(store: &Store) -> (files: Vec<ZoneFile>)
    requires
        store.wf(),
    ensures
        files@.len() == store@.len(),
        forall|i: int, j: int|
            0 <= i < j < files@.len() ==> text::before(
                (#[trigger] files@[i]).zone_name@,
                (#[trigger] files@[j]).zone_name@,
            ),
        forall|i: int|
            0 <= i < files@.len() ==> has_zone(store@, (#[trigger] files@[i]).zone_name@)
                && is_text_of(
                files@[i].zone_data@,
                store@[zone_id(store@, files@[i].zone_name@)],
            ),
        forall|z: int| 0 <= z < store@.len() ==> has_file(files@, (#[trigger] store@[z]).name),
{
    let zones = store.list_zones();
    let mut files: Vec<ZoneFile> = Vec::new();
    let mut i: usize = 0;
    proof {
        store.lemma_distinct();
    }
    while i < zones.len()
        invariant
            store.wf(),
            crate::store::distinct(store@),
            i <= zones@.len(),
            files@.len() == i,
            zones@.len() == store@.len(),
            forall|k: int|
                0 <= k < zones@.len() ==> (#[trigger] zones@[k]).id < store@.len()
                    && zones@[k].name@ == store@[zones@[k].id as int].name,
            forall|k: int|
                0 <= k < i ==> (#[trigger] files@[k]).zone_name@ == zones@[k].name@ && is_text_of(
                    files@[k].zone_data@,
                    store@[zones@[k].id as int],
                ),
        decreases zones@.len() - i,
    {
        let zone = &zones[i];
        let listed = store.list_records(zone.id);
        let zone_data = render::zone_data(zone.name.as_str(), &listed);
        proof {
            let all = crate::records::views(listed@);
            assert(zone_data@ == render::zone_text(store@[zone.id as int].name, all));
            assert(is_text_of(zone_data@, store@[zone.id as int]));
        }
        files.push(ZoneFile { zone_name: zone.name.clone(), zone_data });
        i = i + 1;
    }
    proof {
        assert forall|k: int| 0 <= k < files@.len() implies has_zone(
            store@,
            (#[trigger] files@[k]).zone_name@,
        ) && is_text_of(files@[k].zone_data@, store@[zone_id(store@, files@[k].zone_name@)]) by {
            let z = zones@[k].id as int;
            assert(store@[z].name == files@[k].zone_name@);
            crate::store_laws::lemma_zone_id(store@, files@[k].zone_name@, z);
        }
        assert forall|z: int| 0 <= z < store@.len() implies has_file(
            files@,
            (#[trigger] store@[z]).name,
        ) by {
            assert(crate::store::lists_zone(zones@, z));
            let k = choose|k: int| 0 <= k < zones@.len() && (#[trigger] zones@[k]).id == z;
            assert(files@[k].zone_name@ == store@[z].name);
        }
    }
    files
}

} // verus!
