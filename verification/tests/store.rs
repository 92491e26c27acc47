use zonegen::records::ResourceRecord;
use zonegen::store::{Store, Zone};
use zonegen::text::{comes_before, place, same, Place};

fn record(subdomain: &str, ttl: u32, class: &str, type_: &str, data: &str) -> ResourceRecord {
    ResourceRecord {
        subdomain: subdomain.to_string(),
        ttl,
        class: class.to_string(),
        type_: type_.to_string(),
        data: data.to_string(),
    }
}

#[test]
fn new_store_has_no_zones() {
    let store = Store::new();
    assert_eq!(store.list_zones(), vec![]);
    assert_eq!(store.list_records(0), vec![]);
    assert_eq!(store.find_zone("example.org"), None);
}

#[test]
fn add_creates_the_zone_once() {
    let mut store = Store::new();
    store.add("example.org", "a", 60, "IN", "A", "1.2.3.4");
    store.add("example.org", "b", 60, "IN", "A", "1.2.3.5");
    assert_eq!(
        store.list_zones(),
        vec![Zone { id: 0, name: "example.org".to_string() }]
    );
    assert_eq!(store.find_zone("example.org"), Some(0));
    assert_eq!(
        store.list_records(0),
        vec![
            record("a", 60, "IN", "A", "1.2.3.4"),
            record("b", 60, "IN", "A", "1.2.3.5"),
        ]
    );
}

#[test]
fn adding_twice_leaves_one_record() {
    let mut store = Store::new();
    store.add("example.org", "a", 60, "IN", "A", "1.2.3.4");
    store.add("example.org", "a", 60, "IN", "A", "1.2.3.4");
    assert_eq!(store.list_zones().len(), 1);
    assert_eq!(
        store.list_records(0),
        vec![record("a", 60, "IN", "A", "1.2.3.4")]
    );
}

#[test]
fn add_replaces_ttl_and_data_under_the_same_key() {
    let mut store = Store::new();
    store.add("example.org", "a", 60, "IN", "A", "1.2.3.4");
    store.add("example.org", "a", 300, "IN", "A", "5.6.7.8");
    assert_eq!(
        store.list_records(0),
        vec![record("a", 300, "IN", "A", "5.6.7.8")]
    );
    store.add("example.org", "a", 300, "IN", "AAAA", "::1");
    store.add("example.org", "a", 300, "CH", "A", "5.6.7.8");
    assert_eq!(
        store.list_records(0),
        vec![
            record("a", 300, "CH", "A", "5.6.7.8"),
            record("a", 300, "IN", "A", "5.6.7.8"),
            record("a", 300, "IN", "AAAA", "::1"),
        ]
    );
}

#[test]
fn delete_of_what_is_not_there_changes_nothing() {
    let mut store = Store::new();
    store.delete("example.org", "a", "IN", "A");
    assert_eq!(store.list_zones(), vec![]);
    store.add("example.org", "a", 60, "IN", "A", "1.2.3.4");
    store.delete("example.org", "b", "IN", "A");
    store.delete("example.org", "a", "IN", "AAAA");
    store.delete("example.org", "a", "CH", "A");
    store.delete("example.com", "a", "IN", "A");
    assert_eq!(
        store.list_zones(),
        vec![Zone { id: 0, name: "example.org".to_string() }]
    );
    assert_eq!(
        store.list_records(0),
        vec![record("a", 60, "IN", "A", "1.2.3.4")]
    );
}

#[test]
fn delete_goes_by_the_key_alone() {
    let mut store = Store::new();
    store.add("example.org", "a", 60, "IN", "A", "1.2.3.4");
    store.add("example.org", "b", 60, "IN", "A", "1.2.3.5");
    store.delete("example.org", "a", "IN", "A");
    assert_eq!(
        store.list_records(0),
        vec![record("b", 60, "IN", "A", "1.2.3.5")]
    );
    assert_eq!(store.list_zones().len(), 1);
}

#[test]
fn drop_keeps_the_zones() {
    let mut store = Store::new();
    store.add("example.org", "a", 60, "IN", "A", "1.2.3.4");
    store.add("example.com", "@", 60, "IN", "A", "1.2.3.5");
    store.drop_records();
    assert_eq!(
        store.list_zones(),
        vec![
            Zone { id: 1, name: "example.com".to_string() },
            Zone { id: 0, name: "example.org".to_string() },
        ]
    );
    assert_eq!(store.list_records(0), vec![]);
    assert_eq!(store.list_records(1), vec![]);
    assert_eq!(store.find_zone("example.org"), Some(0));
    assert_eq!(store.find_zone("example.com"), Some(1));
}

#[test]
fn zones_are_listed_by_name() {
    let mut store = Store::new();
    for name in ["m.org", "z.org", "a.org", "mm.org", "a.com", "Z.org", "m.org"] {
        store.add(name, "@", 1, "IN", "A", "x");
    }
    let names: Vec<String> = store.list_zones().into_iter().map(|z| z.name).collect();
    assert_eq!(
        names,
        vec!["Z.org", "a.com", "a.org", "m.org", "mm.org", "z.org"]
    );
    let ids: Vec<usize> = store.list_zones().into_iter().map(|z| z.id).collect();
    assert_eq!(ids, vec![5, 4, 2, 0, 3, 1]);
}

#[test]
fn records_are_listed_by_subdomain_class_and_type() {
    let mut store = Store::new();
    store.add("example.org", "b", 1, "IN", "A", "x");
    store.add("example.org", "a", 9, "IN", "TXT", "x");
    store.add("example.org", "a", 5, "IN", "A", "z");
    store.add("example.org", "@", 7, "IN", "A", "x");
    store.add("example.org", "a", 3, "CH", "TXT", "y");
    store.add("example.org", "ab", 3, "IN", "A", "y");
    store.add("other.org", "0", 3, "IN", "A", "y");
    assert_eq!(
        store.list_records(0),
        vec![
            record("@", 7, "IN", "A", "x"),
            record("a", 3, "CH", "TXT", "y"),
            record("a", 5, "IN", "A", "z"),
            record("a", 9, "IN", "TXT", "x"),
            record("ab", 3, "IN", "A", "y"),
            record("b", 1, "IN", "A", "x"),
        ]
    );
    assert_eq!(store.list_records(1), vec![record("0", 3, "IN", "A", "y")]);
    assert_eq!(store.list_records(2), vec![]);
}

#[test]
fn text_is_ordered_by_its_bytes() {
    assert_eq!(place("a", "b"), Place::Before);
    assert_eq!(place("b", "a"), Place::After);
    assert_eq!(place("a", "a"), Place::Same);
    assert_eq!(place("", "a"), Place::Before);
    assert_eq!(place("a", "ab"), Place::Before);
    assert_eq!(place("Z", "a"), Place::Before);
    assert_eq!(place("z", "\u{e9}"), Place::Before);
    assert_eq!(place("\u{e9}", "\u{4e2d}"), Place::Before);
    assert_eq!(place("\u{ffff}", "\u{10000}"), Place::Before);
    assert!(same("", ""));
    assert!(!same("a", "A"));
    assert!(comes_before("a", "b"));
    assert!(!comes_before("a", "a"));
}

#[test]
fn a_snapshot_is_a_store_of_its_own() {
    let mut store = Store::new();
    store.add("example.org", "a", 60, "IN", "A", "1.2.3.4");
    let copy = store.snapshot();
    store.add("example.org", "b", 60, "IN", "A", "1.2.3.5");
    store.add("example.com", "b", 60, "IN", "A", "1.2.3.5");
    assert_eq!(copy.list_zones().len(), 1);
    assert_eq!(
        copy.list_records(0),
        vec![record("a", 60, "IN", "A", "1.2.3.4")]
    );
    assert_eq!(store.list_zones().len(), 2);
    assert_eq!(store.list_records(0).len(), 2);
}

#[test]
fn zones_keep_their_ids() {
    let mut store = Store::new();
    assert_eq!(store.zone_count(), 0);
    assert_eq!(store.zone_name(0), None);
    assert_eq!(store.ensure_zone("b.org"), 0);
    assert_eq!(store.ensure_zone("a.org"), 1);
    assert_eq!(store.ensure_zone("b.org"), 0);
    store.add("c.org", "@", 1, "IN", "A", "x");
    store.drop_records();
    assert_eq!(store.zone_count(), 3);
    assert_eq!(store.zone_name(0), Some("b.org"));
    assert_eq!(store.zone_name(1), Some("a.org"));
    assert_eq!(store.zone_name(2), Some("c.org"));
    assert_eq!(store.zone_name(3), None);
    assert_eq!(store.find_zone("c.org"), Some(2));
    assert_eq!(store.find_zone("d.org"), None);
}
