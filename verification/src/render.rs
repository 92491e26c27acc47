//! The text of a zone file.
//!
//! A zone file is a banner, the origin of the zone, and one line for each
//! record in the order in which records are listed. A line holds the
//! subdomain, the time to live, the class, the type and the data, with one
//! space between them; the first four are padded with spaces to columns of
//! 20, 6, 3 and 5 characters, the time to live to the right and the others
//! to the left. A field that is wider than its column is written in full.

use crate::grammar;
use crate::grammar::CharClass;
use crate::records::{views, ResourceRecord, ResourceRecordView};
use vstd::prelude::*;
use vstd::string::{StrSliceExecFns, StringExecFns};

verus! {

/// The digit that writes `d`.
pub open spec fn digit(d: nat) -> char {
    if d == 0 {
        '0'
    } else if d == 1 {
        '1'
    } else if d == 2 {
        '2'
    } else if d == 3 {
        '3'
    } else if d == 4 {
        '4'
    } else if d == 5 {
        '5'
    } else if d == 6 {
        '6'
    } else if d == 7 {
        '7'
    } else if d == 8 {
        '8'
    } else {
        '9'
    }
}

/// The digits that write `n`, without leading zeros.
pub open spec fn decimal_text(n: nat) -> Seq<char>
    decreases n,
{
    if n < 10 {
        seq![digit(n)]
    } else {
        decimal_text(n / 10).push(digit(n % 10))
    }
}

/// `count` spaces.
pub open spec fn spaces(count: nat) -> Seq<char> {
    Seq::new(count, |i: int| ' ')
}

/// How many spaces fill `text` up to `width` characters.
pub open spec fn padding(text: Seq<char>, width: nat) -> nat {
    if text.len() < width {
        (width - text.len()) as nat
    } else {
        0
    }
}

/// `text` with spaces after it up to `width` characters.
pub open spec fn pad_right(text: Seq<char>, width: nat) -> Seq<char> {
    text + spaces(padding(text, width))
}

/// `text` with spaces before it up to `width` characters.
pub open spec fn pad_left(text: Seq<char>, width: nat) -> Seq<char> {
    spaces(padding(text, width)) + text
}

/// What a zone file starts with.
pub open spec fn header(zone_name: Seq<char>) -> Seq<char> {
    "; This file was automatically generated by zonegen.\n"@
        + "; Do not edit or your changes will be overwritten!\n"@ + "\n"@ + "$ORIGIN "@ + zone_name
        + ".\n"@
}

/// The line of a record.
pub open spec fn line(record: ResourceRecordView) -> Seq<char> {
    pad_right(record.subdomain, 20) + spaces(1) + pad_left(decimal_text(record.ttl as nat), 6)
        + spaces(1) + pad_right(record.class, 3) + spaces(1) + pad_right(record.type_, 5) + spaces(
        1,
    ) + record.data + "\n"@
}

/// The lines of the records, one after the other.
pub open spec fn lines(records: Seq<ResourceRecordView>) -> Seq<char>
    decreases records.len(),
{
    if records.len() == 0 {
        Seq::empty()
    } else {
        lines(records.drop_last()) + line(records.last())
    }
}

/// The text of the file of a zone with these records, in this order.
pub open spec fn zone_text(zone_name: Seq<char>, records: Seq<ResourceRecordView>) -> Seq<char> {
    header(zone_name) + lines(records)
}

/// The digits that write a number are digits, and read back they give the
/// number.
pub proof fn lemma_decimal_text(n: nat)
    ensures
        decimal_text(n).len() > 0,
        CharClass::Digit.covers(decimal_text(n)),
        grammar::decimal(decimal_text(n)) == n,
    decreases n,
{
    if n < 10 {
        let text = decimal_text(n);
        assert(text.drop_last() =~= Seq::<char>::empty());
        assert(grammar::decimal(text.drop_last()) == 0);
        assert(text.last() == digit(n));
    } else {
        lemma_decimal_text(n / 10);
        let text = decimal_text(n);
        assert(text.drop_last() =~= decimal_text(n / 10));
        assert(text.last() == digit(n % 10));
    }
}

/// The text of one digit.
fn digit_text(d: u32) -> (s: &'static str)
    requires
        d < 10,
    ensures
        s@ == seq![digit(d as nat)],
{
    proof {
        reveal_strlit("0");
        reveal_strlit("1");
        reveal_strlit("2");
        reveal_strlit("3");
        reveal_strlit("4");
        reveal_strlit("5");
        reveal_strlit("6");
        reveal_strlit("7");
        reveal_strlit("8");
        reveal_strlit("9");
    }
    let s = if d == 0 {
        "0"
    } else if d == 1 {
        "1"
    } else if d == 2 {
        "2"
    } else if d == 3 {
        "3"
    } else if d == 4 {
        "4"
    } else if d == 5 {
        "5"
    } else if d == 6 {
        "6"
    } else if d == 7 {
        "7"
    } else if d == 8 {
        "8"
    } else {
        "9"
    };
    assert(s@ =~= seq![digit(d as nat)]);
    s
}

/// Writes the digits of `n` after `out`.
fn append_decimal(out: &mut String, n: u32)
    ensures
        final(out)@ == old(out)@ + decimal_text(n as nat),
    decreases n,
{
    if n >= 10 {
        append_decimal(out, n / 10);
    }
    out.append(digit_text(n % 10));
    proof {
        if n >= 10 {
            assert(old(out)@ + decimal_text(n as nat) =~= old(out)@ + decimal_text((n / 10) as nat)
                + seq![digit((n % 10) as nat)]);
        }
    }
}

/// Writes `count` spaces after `out`.
fn append_spaces(out: &mut String, count: usize)
    ensures
        final(out)@ == old(out)@ + spaces(count as nat),
{
    let mut i: usize = 0;
    proof {
        reveal_strlit(" ");
        assert(out@ =~= old(out)@ + spaces(0));
    }
    while i < count
        invariant
            i <= count,
            out@ == old(out)@ + spaces(i as nat),
            " "@ == seq![' '],
        decreases count - i,
    {
        out.append(" ");
        proof {
            assert(old(out)@ + spaces(i as nat) + seq![' '] =~= old(out)@ + spaces((i + 1) as nat));
        }
        i = i + 1;
    }
}

/// How many spaces fill a text of `len` characters up to `width`.
fn padding_of(len: usize, width: usize) -> (count: usize)
    ensures
        count == if len < width {
            width - len
        } else {
            0
        },
{
    if len < width {
        width - len
    } else {
        0
    }
}

/// Writes `text` after `out`, then spaces up to `width` characters.
fn append_left(out: &mut String, text: &str, width: usize)
    ensures
        final(out)@ == old(out)@ + pad_right(text@, width as nat),
{
    let count = padding_of(text.unicode_len(), width);
    out.append(text);
    append_spaces(out, count);
    proof {
        assert(old(out)@ + text@ + spaces(count as nat) =~= old(out)@ + pad_right(
            text@,
            width as nat,
        ));
    }
}

/// Writes after `out` spaces up to `width` characters, then `text`.
fn append_right(out: &mut String, text: &str, width: usize)
    ensures
        final(out)@ == old(out)@ + pad_left(text@, width as nat),
{
    let count = padding_of(text.unicode_len(), width);
    append_spaces(out, count);
    out.append(text);
    proof {
        assert(old(out)@ + spaces(count as nat) + text@ =~= old(out)@ + pad_left(
            text@,
            width as nat,
        ));
    }
}

/// Writes the line of `record` after `out`.
pub fn append_line(out: &mut String, record: &ResourceRecord)
    ensures
        final(out)@ == old(out)@ + line(record@),
{
    let mut ttl = String::new();
    append_decimal(&mut ttl, record.ttl);
    assert(ttl@ =~= decimal_text(record.ttl as nat));
    append_left(out, record.subdomain.as_str(), 20);
    append_spaces(out, 1);
    append_right(out, ttl.as_str(), 6);
    append_spaces(out, 1);
    append_left(out, record.class.as_str(), 3);
    append_spaces(out, 1);
    append_left(out, record.type_.as_str(), 5);
    append_spaces(out, 1);
    out.append(record.data.as_str());
    out.append("\n");
    proof {
        let r = record@;
        assert(out@ =~= old(out)@ + (pad_right(r.subdomain, 20) + spaces(1) + pad_left(
            decimal_text(r.ttl as nat),
            6,
        ) + spaces(1) + pad_right(r.class, 3) + spaces(1) + pad_right(r.type_, 5) + spaces(1)
            + r.data + "\n"@));
    }
}

/// The text of the file of the zone `zone_name` with `records`.
pub fn zone_data(zone_name: &str, records: &Vec<ResourceRecord>) -> (text: String)
    ensures
        text@ == zone_text(zone_name@, views(records@)),
{
    let mut text = String::new();
    text.append("; This file was automatically generated by zonegen.\n");
    text.append("; Do not edit or your changes will be overwritten!\n");
    text.append("\n");
    text.append("$ORIGIN ");
    text.append(zone_name);
    text.append(".\n");
    assert(text@ =~= header(zone_name@));
    let ghost all = views(records@);
    let mut i: usize = 0;
    assert(all.take(0) =~= Seq::<ResourceRecordView>::empty());
    while i < records.len()
        invariant
            i <= records@.len(),
            all == views(records@),
            text@ == header(zone_name@) + lines(all.take(i as int)),
        decreases records@.len() - i,
    {
        append_line(&mut text, &records[i]);
        proof {
            let next = all.take(i + 1);
            assert(next.drop_last() =~= all.take(i as int));
            assert(next.last() == records@[i as int]@);
            assert(header(zone_name@) + lines(all.take(i as int)) + line(records@[i as int]@)
                =~= header(zone_name@) + lines(next));
        }
        i = i + 1;
    }
    assert(all.take(i as int) =~= all);
    text
}

} // verus!
