use zonegen::db::{save_zones, ZoneFile};
use zonegen::records::ResourceRecord;
use zonegen::render::{append_line, zone_data};
use zonegen::store::Store;
use zonegen::zone_files::{save, Action, Previous, Save, READ_ONLY};

fn record(subdomain: &str, ttl: u32, class: &str, type_: &str, data: &str) -> ResourceRecord {
    ResourceRecord {
        subdomain: subdomain.to_string(),
        ttl,
        class: class.to_string(),
        type_: type_.to_string(),
        data: data.to_string(),
    }
}

fn formatted(r: &ResourceRecord) -> String {
    format!(
        "{: <20} {: >6} {: <3} {: <5} {}\n",
        r.subdomain, r.ttl, r.class, r.type_, r.data
    )
}

#[test]
fn a_line_has_fixed_columns() {
    let mut out = String::new();
    append_line(&mut out, &record("a", 60, "IN", "A", "1.2.3.4"));
    assert_eq!(out, "a                        60 IN  A     1.2.3.4\n");
    append_line(&mut out, &record("@", 0, "IN", "AAAA", "::1"));
    assert_eq!(
        out,
        "a                        60 IN  A     1.2.3.4\n@                         0 IN  AAAA  ::1\n"
    );
}

#[test]
fn a_line_is_what_the_format_gives() {
    for r in [
        record("a", 60, "IN", "A", "1.2.3.4"),
        record("", 0, "", "", ""),
        record("exactly-twenty-chars", 999999, "INT", "AAAAA", "x"),
        record("more-than-twenty-characters", 1000000, "LONG", "LONGER", "x y"),
        record("www", 4294967295, "IN", "TXT", "v=spf1"),
        record("nineteen-characters", 99999, "IN", "CNAME", "a.example.org."),
        record("\u{e9}\u{e9}\u{e9}", 7, "\u{4e2d}", "\u{1f600}", "\u{e9}"),
        record("a", 10, "I", "A", "d"),
        record("a", 100000, "I", "A", "d"),
    ] {
        let mut out = String::new();
        append_line(&mut out, &r);
        assert_eq!(out, formatted(&r));
    }
}

#[test]
fn a_zone_file_starts_with_banner_and_origin() {
    assert_eq!(
        zone_data("example.org", &vec![]),
        "; This file was automatically generated by zonegen.\n; Do not edit or your changes will be overwritten!\n\n$ORIGIN example.org.\n"
    );
    let records = vec![
        record("a", 60, "IN", "A", "1.2.3.4"),
        record("b", 3600, "IN", "AAAA", "::1"),
    ];
    assert_eq!(
        zone_data("example.org", &records),
        format!(
            "; This file was automatically generated by zonegen.\n; Do not edit or your changes will be overwritten!\n\n$ORIGIN example.org.\n{}{}",
            formatted(&records[0]),
            formatted(&records[1])
        )
    );
}

#[test]
fn rendering_twice_gives_the_same_text() {
    let mut first = Store::new();
    first.add("example.org", "b", 1, "IN", "A", "x");
    first.add("example.org", "a", 2, "IN", "A", "y");
    first.add("example.com", "@", 3, "IN", "MX", "z");
    let mut second = Store::new();
    second.add("example.com", "@", 9, "IN", "MX", "other");
    second.add("example.org", "a", 2, "IN", "A", "y");
    second.add("example.com", "@", 3, "IN", "MX", "z");
    second.add("example.org", "b", 1, "IN", "A", "x");
    assert_eq!(save_zones(&first), save_zones(&first));
    assert_eq!(save_zones(&first), save_zones(&second));
    assert_eq!(
        save_zones(&first),
        vec![
            ZoneFile {
                zone_name: "example.com".to_string(),
                zone_data: zone_data("example.com", &vec![record("@", 3, "IN", "MX", "z")]),
            },
            ZoneFile {
                zone_name: "example.org".to_string(),
                zone_data: zone_data(
                    "example.org",
                    &vec![record("a", 2, "IN", "A", "y"), record("b", 1, "IN", "A", "x")]
                ),
            },
        ]
    );
}

#[test]
fn a_zone_without_records_still_has_its_file() {
    let mut store = Store::new();
    store.add("example.org", "a", 60, "IN", "A", "1.2.3.4");
    store.drop_records();
    assert_eq!(
        save_zones(&store),
        vec![ZoneFile {
            zone_name: "example.org".to_string(),
            zone_data: zone_data("example.org", &vec![]),
        }]
    );
    assert_eq!(save_zones(&Store::new()), vec![]);
}

#[test]
fn a_file_that_holds_the_text_is_kept() {
    assert_eq!(
        save("example.org", "text\n", Previous::Text("text\n")),
        Save {
            file_name: "example.org.zone".to_string(),
            action: Action::Keep,
            mode: 0o444,
        }
    );
    assert_eq!(READ_ONLY, 0o444);
}

#[test]
fn any_other_file_is_replaced() {
    assert_eq!(
        save("example.org", "text\n", Previous::Text("text")).action,
        Action::Replace
    );
    assert_eq!(
        save("example.org", "text\n", Previous::Text("")).action,
        Action::Replace
    );
    assert_eq!(
        save("example.org", "text\n", Previous::Absent),
        Save {
            file_name: "example.org.zone".to_string(),
            action: Action::Replace,
            mode: 0o444,
        }
    );
    assert_eq!(save("example.org", "", Previous::Absent).action, Action::Replace);
    assert_eq!(save("example.org", "", Previous::Text("")).action, Action::Keep);
}

#[test]
fn a_file_that_cannot_be_read_is_left_alone() {
    assert_eq!(
        save("a.b", "text\n", Previous::Unreadable),
        Save {
            file_name: "a.b.zone".to_string(),
            action: Action::GiveUp,
            mode: 0o444,
        }
    );
}
