use tldextract::{TldExtractor, TldOption};
use zonegen::db;
use zonegen::db::{save_zones, Transaction, ZoneFile};
use zonegen::parse::{Add, Delete, Update};
use zonegen::records::ResourceRecord;
use zonegen::repl::{Reply, Session};
use zonegen::resolve::{tld_to_zone_and_subdomain, zone_and_subdomain, Extracted, ResolveError};
use zonegen::store::{Store, Zone};

fn extractor() -> TldExtractor {
    TldExtractor::new(TldOption::default())
}

fn record(subdomain: &str, ttl: u32, class: &str, type_: &str, data: &str) -> ResourceRecord {
    ResourceRecord {
        subdomain: subdomain.to_string(),
        ttl,
        class: class.to_string(),
        type_: type_.to_string(),
        data: data.to_string(),
    }
}

fn parts(domain: Option<&str>, subdomain: Option<&str>, suffix: Option<&str>) -> Extracted {
    Extracted {
        domain: domain.map(|s| s.to_string()),
        subdomain: subdomain.map(|s| s.to_string()),
        suffix: suffix.map(|s| s.to_string()),
    }
}

#[test]
fn zone_is_domain_dot_suffix() {
    let r = zone_and_subdomain(parts(Some("example"), Some("a"), Some("org")));
    assert_eq!(r.unwrap(), ("example.org".to_string(), "a".to_string()));
    let r = zone_and_subdomain(parts(Some("bbc"), Some("www.news"), Some("co.uk")));
    assert_eq!(r.unwrap(), ("bbc.co.uk".to_string(), "www.news".to_string()));
}

#[test]
fn apex_is_at_sign() {
    let r = zone_and_subdomain(parts(Some("example"), None, Some("org")));
    assert_eq!(r.unwrap(), ("example.org".to_string(), "@".to_string()));
}

#[test]
fn a_name_without_domain_or_suffix_has_no_zone() {
    assert!(matches!(
        zone_and_subdomain(parts(None, None, Some("org"))),
        Err(ResolveError::NoDomain)
    ));
    assert!(matches!(
        zone_and_subdomain(parts(None, Some("a"), None)),
        Err(ResolveError::NoDomain)
    ));
    assert!(matches!(
        zone_and_subdomain(parts(Some("example"), Some("a"), None)),
        Err(ResolveError::NoSuffix)
    ));
}

#[test]
fn names_are_split_along_the_suffix_list() {
    let ext = extractor();
    assert_eq!(
        tld_to_zone_and_subdomain(&ext, "a.example.org.").unwrap(),
        ("example.org".to_string(), "a".to_string())
    );
    assert_eq!(
        tld_to_zone_and_subdomain(&ext, "example.org.").unwrap(),
        ("example.org".to_string(), "@".to_string())
    );
    assert_eq!(
        tld_to_zone_and_subdomain(&ext, "x.y.example.org").unwrap(),
        ("example.org".to_string(), "x.y".to_string())
    );
    assert!(matches!(
        tld_to_zone_and_subdomain(&ext, "org."),
        Err(ResolveError::NoDomain)
    ));
    assert!(matches!(
        tld_to_zone_and_subdomain(&ext, "localhost"),
        Err(ResolveError::NoSuffix)
    ));
    assert!(matches!(
        tld_to_zone_and_subdomain(&ext, "http://"),
        Err(ResolveError::Extract(_))
    ));
}

#[test]
fn a_transaction_is_opened_once() {
    let mut store = Store::new();
    store.add("example.org", "a", 60, "IN", "A", "1.2.3.4");
    let optional_tx = db::optionally_create_transaction(&store, None);
    let mut tx = optional_tx.unwrap();
    db::drop(&mut tx);
    let optional_tx = db::optionally_create_transaction(&store, Some(tx));
    let tx = optional_tx.unwrap();
    assert_eq!(tx.pending().list_records(0), vec![]);
    assert_eq!(store.list_records(0).len(), 1);
}

#[test]
fn commit_puts_the_transaction_in_place_of_the_store() {
    let ext = extractor();
    let mut store = Store::new();
    let mut tx = db::optionally_create_transaction(&store, None).unwrap();
    let r = Add { name: "a.example.org.", ttl: 60, class: "IN", type_: "A", data: "1.2.3.4" };
    db::add(r, &mut tx, &ext).unwrap();
    assert_eq!(store.list_zones(), vec![]);
    let left = db::optionally_commit_transaction(&mut store, Some(tx));
    assert!(left.is_none());
    assert_eq!(
        store.list_records(0),
        vec![record("a", 60, "IN", "A", "1.2.3.4")]
    );
    let left = db::optionally_commit_transaction(&mut store, None);
    assert!(left.is_none());
    assert_eq!(store.list_records(0).len(), 1);
}

#[test]
fn rollback_says_whether_changes_were_lost() {
    let (left, lost) = db::optionally_rollback_transaction(None);
    assert!(left.is_none());
    assert!(!lost);
    let (left, lost) = db::optionally_rollback_transaction(Some(Transaction::begin(&Store::new())));
    assert!(left.is_none());
    assert!(lost);
}

#[test]
fn add_and_delete_resolve_the_name() {
    let ext = extractor();
    let mut tx = Transaction::begin(&Store::new());
    let r = Add { name: "a.example.org.", ttl: 60, class: "IN", type_: "A", data: "1.2.3.4" };
    db::add(r, &mut tx, &ext).unwrap();
    let r = Add { name: "example.org.", ttl: 61, class: "IN", type_: "A", data: "1.2.3.5" };
    db::add(r, &mut tx, &ext).unwrap();
    assert_eq!(
        tx.pending().list_zones(),
        vec![Zone { id: 0, name: "example.org".to_string() }]
    );
    assert_eq!(
        tx.pending().list_records(0),
        vec![
            record("@", 61, "IN", "A", "1.2.3.5"),
            record("a", 60, "IN", "A", "1.2.3.4"),
        ]
    );
    let r = Delete { name: "a.example.org.", class: "IN", type_: "A" };
    db::delete(r, &mut tx, &ext).unwrap();
    assert_eq!(
        tx.pending().list_records(0),
        vec![record("@", 61, "IN", "A", "1.2.3.5")]
    );
    let r = Delete { name: "org.", class: "IN", type_: "A" };
    assert!(db::delete(r, &mut tx, &ext).is_err());
    let r = Add { name: "org.", ttl: 60, class: "IN", type_: "A", data: "1.2.3.4" };
    assert!(db::add(r, &mut tx, &ext).is_err());
    assert_eq!(tx.pending().list_zones().len(), 1);
    assert_eq!(tx.pending().list_records(0).len(), 1);
}

#[test]
fn add_then_send_gives_the_zone_file() {
    let ext = extractor();
    let mut session = Session::new(Store::new());
    let reply = session.line("add a.example.org. 60 IN A 1.2.3.4", &ext);
    assert!(matches!(
        reply,
        Reply::Added(Add { name: "a.example.org.", ttl: 60, class: "IN", type_: "A", data: "1.2.3.4" })
    ));
    assert!(session.is_pending());
    assert_eq!(save_zones(session.store()), vec![]);
    assert!(matches!(session.line("send", &ext), Reply::Sent));
    assert!(!session.is_pending());
    let (store, lost) = session.end();
    assert!(!lost);
    let files = save_zones(&store);
    assert_eq!(
        files,
        vec![ZoneFile {
            zone_name: "example.org".to_string(),
            zone_data: "; This file was automatically generated by zonegen.\n; Do not edit or your changes will be overwritten!\n\n$ORIGIN example.org.\na                        60 IN  A     1.2.3.4\n".to_string(),
        }]
    );
    assert!(files[0].zone_data.contains("$ORIGIN example.org.\n"));
}

#[test]
fn add_then_quit_changes_nothing() {
    let ext = extractor();
    let mut store = Store::new();
    store.add("example.org", "a", 60, "IN", "A", "1.2.3.4");
    let before = save_zones(&store);
    let mut session = Session::new(store);
    assert!(matches!(
        session.line("add x.example.org. 60 IN A 1.1.1.1", &ext),
        Reply::Added(_)
    ));
    assert!(matches!(session.line("quit", &ext), Reply::Quit));
    assert!(session.is_pending());
    let (store, lost) = session.end();
    assert!(lost);
    assert_eq!(save_zones(&store), before);
}

#[test]
fn lines_that_change_nothing() {
    let ext = extractor();
    let mut session = Session::new(Store::new());
    assert!(matches!(session.line("", &ext), Reply::Nothing));
    assert!(matches!(session.line("help", &ext), Reply::Help));
    assert!(matches!(session.line("quit", &ext), Reply::Quit));
    assert!(matches!(session.line("send", &ext), Reply::Sent));
    assert!(matches!(session.line("help ", &ext), Reply::Rejected(_)));
    assert!(matches!(session.line("nonsense", &ext), Reply::Rejected(_)));
    assert!(matches!(
        session.line("add org. 60 IN A 1.2.3.4", &ext),
        Reply::Unresolved(Update::Add(_), ResolveError::NoDomain)
    ));
    assert!(matches!(
        session.line("del localhost IN A", &ext),
        Reply::Unresolved(Update::Delete(_), ResolveError::NoSuffix)
    ));
    assert!(!session.is_pending());
    let (store, lost) = session.end();
    assert!(!lost);
    assert_eq!(store.list_zones(), vec![]);
}

#[test]
fn changes_share_one_transaction_until_send() {
    let ext = extractor();
    let mut session = Session::new(Store::new());
    assert!(matches!(
        session.line("add a.example.org. 60 IN A 1.2.3.4", &ext),
        Reply::Added(_)
    ));
    assert!(matches!(
        session.line("update add b.example.org. 60 IN A 1.2.3.5", &ext),
        Reply::Added(_)
    ));
    assert!(matches!(
        session.line("del a.example.org. IN A", &ext),
        Reply::Deleted(Delete { name: "a.example.org.", class: "IN", type_: "A" })
    ));
    assert_eq!(session.store().list_zones(), vec![]);
    assert!(matches!(session.line("send", &ext), Reply::Sent));
    assert_eq!(
        session.store().list_records(0),
        vec![record("b", 60, "IN", "A", "1.2.3.5")]
    );
    assert!(matches!(session.line("drop", &ext), Reply::Dropped));
    assert!(session.is_pending());
    assert_eq!(session.store().list_records(0).len(), 1);
    assert!(matches!(session.line("send", &ext), Reply::Sent));
    assert_eq!(session.store().list_records(0), vec![]);
    assert_eq!(session.store().list_zones().len(), 1);
}

#[test]
fn a_change_whose_name_has_no_zone_says_why() {
    let ext = extractor();
    let mut tx = Transaction::begin(&Store::new());
    let r = Add { name: "org.", ttl: 60, class: "IN", type_: "A", data: "1.2.3.4" };
    assert!(matches!(db::add(r, &mut tx, &ext), Err(ResolveError::NoDomain)));
    let r = Add { name: "localhost", ttl: 60, class: "IN", type_: "A", data: "1.2.3.4" };
    assert!(matches!(db::add(r, &mut tx, &ext), Err(ResolveError::NoSuffix)));
    let r = Delete { name: "org.", class: "IN", type_: "A" };
    assert!(matches!(db::delete(r, &mut tx, &ext), Err(ResolveError::NoDomain)));
    let r = Delete { name: "localhost", class: "IN", type_: "A" };
    assert!(matches!(db::delete(r, &mut tx, &ext), Err(ResolveError::NoSuffix)));
    assert_eq!(tx.pending().list_zones(), vec![]);
    let r = Delete { name: "a.example.org.", class: "IN", type_: "A" };
    assert!(db::delete(r, &mut tx, &ext).is_ok());
    assert_eq!(tx.pending().list_zones(), vec![]);
}
