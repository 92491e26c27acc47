use zonegen::grammar::{ErrorKind, Rule};
use zonegen::parse::{add, add_or_delete, command, delete, drop, help, parse, quit, send, ttl, update};
use zonegen::parse::{Add, Command, Delete, ParseError, Update};

#[test]
fn command_token_test() {
    assert_eq!(command("help"), Ok(("", Command::Help)));
    assert_eq!(command("send"), Ok(("", Command::Send)));
    assert_eq!(command("quit"), Ok(("", Command::Quit)));
    assert_eq!(command("drop"), Ok(("", Command::Drop)));
    assert_eq!(
        command("update bla"),
        Err(ParseError {
            errors: vec![
                ("bla", ErrorKind::Tag),
                ("bla", ErrorKind::Alt),
                ("bla", ErrorKind::Context(Rule::Delete)),
                ("bla", ErrorKind::Alt),
                ("bla", ErrorKind::Context(Rule::AddOrDelete)),
                ("update bla", ErrorKind::Context(Rule::Update)),
                ("update bla", ErrorKind::Alt),
                ("update bla", ErrorKind::Context(Rule::Command)),
            ]
        })
    );
    assert_eq!(
        command("unknown"),
        Err(ParseError {
            errors: vec![
                ("unknown", ErrorKind::Tag),
                ("unknown", ErrorKind::Alt),
                ("unknown", ErrorKind::Context(Rule::Delete)),
                ("unknown", ErrorKind::Alt),
                ("unknown", ErrorKind::Context(Rule::Command)),
            ]
        })
    );
    assert_eq!(Rule::Delete.name(), "delete");
    assert_eq!(Rule::Command.name(), "command");
}

#[test]
fn add_test() {
    assert_eq!(
        add("add test.example.org. 300 IN AAAA ::1"),
        Ok((
            "",
            Command::Update(Update::Add(Add {
                name: "test.example.org.",
                ttl: 300,
                class: "IN",
                type_: "AAAA",
                data: "::1",
            }))
        ))
    );
    assert_eq!(
        add("add test.example.org. f300 IN AAAA ::1"),
        Err(ParseError {
            errors: vec![
                ("f300 IN AAAA ::1", ErrorKind::TakeWhile1),
                ("f300 IN AAAA ::1", ErrorKind::Context(Rule::Ttl)),
                (
                    "add test.example.org. f300 IN AAAA ::1",
                    ErrorKind::Context(Rule::Add),
                ),
            ]
        })
    );
    assert_eq!(Rule::Ttl.name(), "ttl");
    assert_eq!(Rule::Add.name(), "add");
}

#[test]
fn delete_test() {
    assert_eq!(
        delete("del test.example.org. IN A"),
        Ok((
            "",
            Command::Update(Update::Delete(Delete {
                name: "test.example.org.",
                class: "IN",
                type_: "A",
            }))
        ))
    );
    assert_eq!(
        delete("delete test.example.org. IN AAAA"),
        Ok((
            "",
            Command::Update(Update::Delete(Delete {
                name: "test.example.org.",
                class: "IN",
                type_: "AAAA",
            }))
        ))
    );
    assert_eq!(
        add("dele test.example.org. IN A"),
        Err(ParseError {
            errors: vec![
                ("dele test.example.org. IN A", ErrorKind::Tag),
                ("dele test.example.org. IN A", ErrorKind::Context(Rule::Add)),
            ]
        })
    );
    assert_eq!(Rule::Add.name(), "add");
}

#[test]
fn parse_test() {
    assert_eq!(parse("help"), Ok(Command::Help));
    assert_eq!(parse("send"), Ok(Command::Send));
    assert_eq!(parse("quit"), Ok(Command::Quit));
    assert_eq!(parse("drop"), Ok(Command::Drop));
    assert_eq!(
        parse("update delete example.org. IN A"),
        Ok(Command::Update(Update::Delete(Delete {
            name: "example.org.",
            class: "IN",
            type_: "A",
        })))
    );
    assert_eq!(
        parse("delete example.org. IN A"),
        Ok(Command::Update(Update::Delete(Delete {
            name: "example.org.",
            class: "IN",
            type_: "A",
        })))
    );
    assert_eq!(
        parse("add example.org. 123 IN A 1.2.3.4"),
        Ok(Command::Update(Update::Add(Add {
            name: "example.org.",
            ttl: 123,
            class: "IN",
            type_: "A",
            data: "1.2.3.4",
        })))
    );
    assert_eq!(
        parse("update delete example.org. IN A "),
        Err(ParseError {
            errors: vec![(
                "update delete example.org. IN A ",
                ErrorKind::Context(Rule::TrailingGarbage)
            )]
        })
    );
    assert_eq!(
        parse("help "),
        Err(ParseError {
            errors: vec![("help ", ErrorKind::Context(Rule::TrailingGarbage))]
        })
    );
    assert_eq!(
        Rule::TrailingGarbage.name(),
        "Trailing garbage after command"
    );
}

#[test]
fn parse_is_repeatable() {
    let line = "update add www.example.org. 3600 IN TXT v=spf1";
    assert_eq!(parse(line), parse(line));
    assert_eq!(
        parse(line),
        Ok(Command::Update(Update::Add(Add {
            name: "www.example.org.",
            ttl: 3600,
            class: "IN",
            type_: "TXT",
            data: "v=spf1",
        })))
    );
}

#[test]
fn parse_reads_both_spellings_of_delete() {
    let long = parse("delete example.org. IN A");
    let short = parse("del example.org. IN A");
    assert!(long.is_ok());
    assert_eq!(long, short);
    assert_eq!(
        parse("update del example.org. IN A"),
        parse("delete example.org. IN A")
    );
}

#[test]
fn ttl_fits_32_bits() {
    assert_eq!(ttl("4294967295"), Ok(("", 4294967295)));
    assert_eq!(ttl("0"), Ok(("", 0)));
    assert_eq!(ttl("000000000000000000300 IN"), Ok((" IN", 300)));
    assert_eq!(
        ttl("4294967296"),
        Err(ParseError {
            errors: vec![("4294967296", ErrorKind::Context(Rule::Ttl))]
        })
    );
    assert_eq!(
        ttl("99999999999999999999999999 IN"),
        Err(ParseError {
            errors: vec![(
                "99999999999999999999999999 IN",
                ErrorKind::Context(Rule::Ttl)
            )]
        })
    );
    assert_eq!(
        ttl("x"),
        Err(ParseError {
            errors: vec![
                ("x", ErrorKind::TakeWhile1),
                ("x", ErrorKind::Context(Rule::Ttl)),
            ]
        })
    );
    assert_eq!(
        ttl(""),
        Err(ParseError {
            errors: vec![
                ("", ErrorKind::TakeWhile1),
                ("", ErrorKind::Context(Rule::Ttl)),
            ]
        })
    );
}

#[test]
fn a_ttl_too_large_is_reported_at_its_digits() {
    let line = "add a.example.org. 4294967296 IN A 1.2.3.4";
    assert_eq!(
        add(line),
        Err(ParseError {
            errors: vec![
                ("4294967296 IN A 1.2.3.4", ErrorKind::Context(Rule::Ttl)),
                (line, ErrorKind::Context(Rule::Add)),
            ]
        })
    );
    assert_eq!(
        parse(line),
        Err(ParseError {
            errors: vec![
                ("4294967296 IN A 1.2.3.4", ErrorKind::Context(Rule::Ttl)),
                (line, ErrorKind::Context(Rule::Add)),
                (line, ErrorKind::Alt),
                (line, ErrorKind::Context(Rule::Command)),
            ]
        })
    );
    assert!(parse("add a.example.org. 4294967295 IN A 1.2.3.4").is_ok());
}

#[test]
fn trailing_text_is_rejected() {
    for line in [
        "help",
        "send",
        "quit",
        "drop",
        "add a.example.org. 60 IN A 1.2.3.4",
        "del a.example.org. IN A",
        "update add a.example.org. 60 IN A 1.2.3.4",
    ] {
        assert!(parse(line).is_ok());
        for extra in [" ", " x", "\t", " more text", "\u{e9}"] {
            let longer = format!("{}{}", line, extra);
            assert_eq!(
                parse(&longer),
                Err(ParseError {
                    errors: vec![(longer.as_str(), ErrorKind::Context(Rule::TrailingGarbage))]
                })
            );
        }
    }
    assert!(parse("helpx").is_err());
}

#[test]
fn text_that_goes_on_the_last_field_is_part_of_it() {
    assert_eq!(
        parse("add a.example.org. 60 IN A 1.2.3.45"),
        Ok(Command::Update(Update::Add(Add {
            name: "a.example.org.",
            ttl: 60,
            class: "IN",
            type_: "A",
            data: "1.2.3.45",
        })))
    );
    assert_eq!(
        parse("del a.example.org. IN AAAA"),
        Ok(Command::Update(Update::Delete(Delete {
            name: "a.example.org.",
            class: "IN",
            type_: "AAAA",
        })))
    );
}

#[test]
fn update_needs_an_add_or_a_delete() {
    assert_eq!(
        update("update bla"),
        Err(ParseError {
            errors: vec![
                ("bla", ErrorKind::Tag),
                ("bla", ErrorKind::Alt),
                ("bla", ErrorKind::Context(Rule::Delete)),
                ("bla", ErrorKind::Alt),
                ("bla", ErrorKind::Context(Rule::AddOrDelete)),
                ("update bla", ErrorKind::Context(Rule::Update)),
            ]
        })
    );
    assert_eq!(Rule::AddOrDelete.name(), "add or delete");
    assert_eq!(Rule::Update.name(), "update");
    assert_eq!(
        update("updat"),
        Err(ParseError {
            errors: vec![
                ("updat", ErrorKind::Tag),
                ("updat", ErrorKind::Context(Rule::Update)),
            ]
        })
    );
}

#[test]
fn fields_are_strict_ascii() {
    assert!(parse("add A.example.org. 60 IN A 1.2.3.4").is_err());
    assert!(parse("add a.example.org. 60 in A 1.2.3.4").is_err());
    assert!(parse("add a.example.org. 60 IN a 1.2.3.4").is_err());
    assert!(parse("add a.example.org. 60 IN A caf\u{e9}").is_err());
    assert!(parse("add \u{e4}.example.org. 60 IN A 1.2.3.4").is_err());
    assert!(parse("add a.example.org. \u{665}0 IN A 1.2.3.4").is_err());
    assert!(parse("add a.example.org.  60 IN A 1.2.3.4").is_err());
    assert!(parse("").is_err());
    assert!(parse(" help").is_err());
    assert!(parse("HELP").is_err());
    assert_eq!(
        add("add \u{e4}.example.org. 60 IN A 1.2.3.4"),
        Err(ParseError {
            errors: vec![
                ("\u{e4}.example.org. 60 IN A 1.2.3.4", ErrorKind::TakeWhile1),
                (
                    "add \u{e4}.example.org. 60 IN A 1.2.3.4",
                    ErrorKind::Context(Rule::Add)
                ),
            ]
        })
    );
}

#[test]
fn command_hands_back_what_follows() {
    assert_eq!(command("help me"), Ok((" me", Command::Help)));
    assert_eq!(
        command("del a.example.org. IN A and more"),
        Ok((
            " and more",
            Command::Update(Update::Delete(Delete {
                name: "a.example.org.",
                class: "IN",
                type_: "A",
            }))
        ))
    );
}

#[test]
fn keywords_are_read_letter_by_letter() {
    assert_eq!(help("help"), Ok(("", Command::Help)));
    assert_eq!(send("send it"), Ok((" it", Command::Send)));
    assert_eq!(quit("quit"), Ok(("", Command::Quit)));
    assert_eq!(drop("dropped"), Ok(("ped", Command::Drop)));
    assert_eq!(
        help("hel"),
        Err(ParseError {
            errors: vec![("hel", ErrorKind::Tag), ("hel", ErrorKind::Context(Rule::Help))]
        })
    );
    assert_eq!(
        send("help"),
        Err(ParseError {
            errors: vec![("help", ErrorKind::Tag), ("help", ErrorKind::Context(Rule::Send))]
        })
    );
    assert_eq!(
        quit(""),
        Err(ParseError {
            errors: vec![("", ErrorKind::Tag), ("", ErrorKind::Context(Rule::Quit))]
        })
    );
    assert_eq!(
        drop("Drop"),
        Err(ParseError {
            errors: vec![("Drop", ErrorKind::Tag), ("Drop", ErrorKind::Context(Rule::Drop))]
        })
    );
    assert_eq!(Rule::Help.name(), "help");
    assert_eq!(Rule::Send.name(), "send");
    assert_eq!(Rule::Quit.name(), "quit");
    assert_eq!(Rule::Drop.name(), "drop");
}

#[test]
fn add_is_tried_before_delete() {
    assert_eq!(
        add_or_delete("add a.example.org. 1 IN A x"),
        add("add a.example.org. 1 IN A x")
    );
    assert_eq!(
        add_or_delete("delete a.example.org. IN A"),
        delete("delete a.example.org. IN A")
    );
    assert_eq!(
        add_or_delete("add a.example.org. x IN A x"),
        Err(ParseError {
            errors: vec![
                ("x IN A x", ErrorKind::TakeWhile1),
                ("x IN A x", ErrorKind::Context(Rule::Ttl)),
                ("add a.example.org. x IN A x", ErrorKind::Context(Rule::Add)),
                ("add a.example.org. x IN A x", ErrorKind::Alt),
                ("add a.example.org. x IN A x", ErrorKind::Context(Rule::AddOrDelete)),
            ]
        })
    );
    assert_eq!(
        add_or_delete("none"),
        Err(ParseError {
            errors: vec![
                ("none", ErrorKind::Tag),
                ("none", ErrorKind::Alt),
                ("none", ErrorKind::Context(Rule::Delete)),
                ("none", ErrorKind::Alt),
                ("none", ErrorKind::Context(Rule::AddOrDelete)),
            ]
        })
    );
    assert_eq!(
        delete("deleted a.example.org. IN A"),
        Err(ParseError {
            errors: vec![
                ("d a.example.org. IN A", ErrorKind::Tag),
                ("deleted a.example.org. IN A", ErrorKind::Context(Rule::Delete)),
            ]
        })
    );
    assert_eq!(
        delete("del a.example.org. IN 4"),
        Err(ParseError {
            errors: vec![
                ("4", ErrorKind::TakeWhile1),
                ("del a.example.org. IN 4", ErrorKind::Context(Rule::Delete)),
            ]
        })
    );
}

#[test]
fn a_failure_stands_at_the_token_that_is_wrong() {
    let line = "add test.example.org. f300 IN AAAA ::1";
    assert_eq!(
        parse(line),
        Err(ParseError {
            errors: vec![
                ("f300 IN AAAA ::1", ErrorKind::TakeWhile1),
                ("f300 IN AAAA ::1", ErrorKind::Context(Rule::Ttl)),
                (line, ErrorKind::Context(Rule::Add)),
                (line, ErrorKind::Alt),
                (line, ErrorKind::Context(Rule::Command)),
            ]
        })
    );
    let line = "update del a.example.org. in A";
    assert_eq!(
        parse(line),
        Err(ParseError {
            errors: vec![
                ("in A", ErrorKind::TakeWhile1),
                ("del a.example.org. in A", ErrorKind::Context(Rule::Delete)),
                ("del a.example.org. in A", ErrorKind::Alt),
                ("del a.example.org. in A", ErrorKind::Context(Rule::AddOrDelete)),
                (line, ErrorKind::Context(Rule::Update)),
                (line, ErrorKind::Alt),
                (line, ErrorKind::Context(Rule::Command)),
            ]
        })
    );
    let line = "delete a.example.org. IN";
    assert_eq!(
        parse(line),
        Err(ParseError {
            errors: vec![
                ("", ErrorKind::Tag),
                (line, ErrorKind::Context(Rule::Delete)),
                (line, ErrorKind::Alt),
                (line, ErrorKind::Context(Rule::Command)),
            ]
        })
    );
    let line = "sent";
    assert_eq!(
        parse(line),
        Err(ParseError {
            errors: vec![
                ("sent", ErrorKind::Tag),
                ("sent", ErrorKind::Alt),
                ("sent", ErrorKind::Context(Rule::Delete)),
                ("sent", ErrorKind::Alt),
                ("sent", ErrorKind::Context(Rule::Command)),
            ]
        })
    );
}
