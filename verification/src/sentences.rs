//! The sentences of the grammar: the lines that are commands, written out
//! from their parts, and the proofs that the grammar reads each of them
//! back as the command it was written from.

use crate::grammar;
use crate::grammar::{left_over, AddView, CharClass, CommandView, DeleteView, ErrorKind};
use crate::grammar::{Parsed, Rule, UpdateView};
use crate::grammar::{space, word_add, word_del, word_delete, word_update};
use crate::grammar::{word_drop, word_help, word_quit, word_send};
use vstd::prelude::*;

verus! {

/// A field: at least one character, all of `class`.
pub open spec fn is_field(class: CharClass, s: Seq<char>) -> bool {
    s.len() > 0 && class.covers(s)
}

/// Text that does not go on a field of `class`: nothing, or something that
/// starts outside the class.
pub open spec fn ends_field(class: CharClass, rest: Seq<char>) -> bool {
    rest.len() == 0 || !class.contains(rest[0])
}

/// The line that adds a record, with the time to live as written.
pub open spec fn add_line(
    name: Seq<char>,
    digits: Seq<char>,
    class: Seq<char>,
    type_: Seq<char>,
    data: Seq<char>,
) -> Seq<char> {
    word_add() + space() + name + space() + digits + space() + class + space() + type_ + space()
        + data
}

/// The line that deletes a record, in the long or the short spelling.
pub open spec fn delete_line(long: bool, name: Seq<char>, class: Seq<char>, type_: Seq<char>) -> Seq<
    char,
> {
    (if long {
        word_delete()
    } else {
        word_del()
    }) + space() + name + space() + class + space() + type_
}

/// A line with the optional keyword `update` before it.
pub open spec fn update_line(line: Seq<char>) -> Seq<char> {
    word_update() + space() + line
}

/// The command that an `add` line says.
pub open spec fn added(
    name: Seq<char>,
    digits: Seq<char>,
    class: Seq<char>,
    type_: Seq<char>,
    data: Seq<char>,
) -> CommandView {
    CommandView::Update(
        UpdateView::Add(
            AddView { name, ttl: grammar::decimal(digits) as u32, class, type_, data },
        ),
    )
}

/// The command that a `delete` line says.
pub open spec fn deleted(name: Seq<char>, class: Seq<char>, type_: Seq<char>) -> CommandView {
    CommandView::Update(UpdateView::Delete(DeleteView { name, class, type_ }))
}

/// A word is read off the front of any text that starts with it.
pub proof fn lemma_tag_reads(word: Seq<char>, rest: Seq<char>)
    ensures
        grammar::tag(word + rest, word) == Ok::<(Seq<char>, ()), Seq<grammar::Frame>>((rest, ())),
{
    let input = word + rest;
    assert(input.subrange(0, word.len() as int) =~= word);
    assert(input.skip(word.len() as int) =~= rest);
}

/// A word is not read where the text differs from it, or ends, at `i`.
pub proof fn lemma_tag_fails(input: Seq<char>, word: Seq<char>, i: int)
    requires
        0 <= i < word.len(),
        i >= input.len() || input[i] != word[i],
    ensures
        grammar::tag(input, word) == Err::<(Seq<char>, ()), Seq<grammar::Frame>>(
            grammar::failure(input, ErrorKind::Tag),
        ),
{
    if word.is_prefix_of(input) {
        assert(input.subrange(0, word.len() as int)[i] == word[i]);
    }
}

/// A field is read whole off the front of text that does not go on it.
pub proof fn lemma_field_reads(class: CharClass, field: Seq<char>, rest: Seq<char>)
    requires
        is_field(class, field),
        ends_field(class, rest),
    ensures
        grammar::take_while1(field + rest, class) == Ok::<
            (Seq<char>, Seq<char>),
            Seq<grammar::Frame>,
        >((rest, field)),
{
    let input = field + rest;
    assert forall|i: int| 0 <= i < field.len() implies class.contains(#[trigger] input[i]) by {
        assert(input[i] == field[i]);
    }
    if rest.len() > 0 {
        assert(input[field.len() as int] == rest[0]);
    }
    grammar::lemma_run_len(input, class, field.len());
    assert(input.skip(field.len() as int) =~= rest);
    assert(input.take(field.len() as int) =~= field);
}

/// A space and a field are read off the front of text that does not go on
/// the field.
pub proof fn lemma_spaced_reads(class: CharClass, field: Seq<char>, rest: Seq<char>)
    requires
        is_field(class, field),
        ends_field(class, rest),
    ensures
        grammar::spaced(space() + (field + rest), class) == Ok::<
            (Seq<char>, Seq<char>),
            Seq<grammar::Frame>,
        >((rest, field)),
{
    lemma_tag_reads(space(), field + rest);
    lemma_field_reads(class, field, rest);
}

/// A space and a time to live are read off the front of text that does not
/// go on the digits.
pub proof fn lemma_spaced_ttl_reads(digits: Seq<char>, rest: Seq<char>)
    requires
        is_field(CharClass::Digit, digits),
        grammar::decimal(digits) <= u32::MAX,
        ends_field(CharClass::Digit, rest),
    ensures
        grammar::spaced_ttl(space() + (digits + rest)) == Ok::<(Seq<char>, u32), Seq<grammar::Frame>>(
            (rest, grammar::decimal(digits) as u32),
        ),
{
    lemma_tag_reads(space(), digits + rest);
    lemma_field_reads(CharClass::Digit, digits, rest);
}

/// Text that starts with a space goes on no field.
pub proof fn lemma_space_ends_field(class: CharClass, rest: Seq<char>)
    ensures
        ends_field(class, space() + rest),
{
    assert((space() + rest)[0] == ' ');
}

/// An `add` written out is read back, whatever follows it that does not go
/// on its data.
pub proof fn lemma_add_reads(
    name: Seq<char>,
    digits: Seq<char>,
    class: Seq<char>,
    type_: Seq<char>,
    data: Seq<char>,
    rest: Seq<char>,
)
    requires
        is_field(CharClass::Name, name),
        is_field(CharClass::Digit, digits),
        grammar::decimal(digits) <= u32::MAX,
        is_field(CharClass::Upper, class),
        is_field(CharClass::Upper, type_),
        is_field(CharClass::Graphic, data),
        ends_field(CharClass::Graphic, rest),
    ensures
        grammar::add(add_line(name, digits, class, type_, data) + rest) == Ok::<
            (Seq<char>, CommandView),
            Seq<grammar::Frame>,
        >((rest, added(name, digits, class, type_, data))),
{
    let s5 = space() + (data + rest);
    let s4 = space() + (type_ + s5);
    let s3 = space() + (class + s4);
    let s2 = space() + (digits + s3);
    let s1 = space() + (name + s2);
    let s0 = word_add() + s1;
    assert(add_line(name, digits, class, type_, data) + rest =~= s0);
    lemma_tag_reads(word_add(), s1);
    lemma_space_ends_field(CharClass::Name, digits + s3);
    lemma_spaced_reads(CharClass::Name, name, s2);
    lemma_space_ends_field(CharClass::Digit, class + s4);
    lemma_spaced_ttl_reads(digits, s3);
    lemma_space_ends_field(CharClass::Upper, type_ + s5);
    lemma_spaced_reads(CharClass::Upper, class, s4);
    lemma_space_ends_field(CharClass::Upper, data + rest);
    lemma_spaced_reads(CharClass::Upper, type_, s5);
    lemma_spaced_reads(CharClass::Graphic, data, rest);
}

/// The keyword of a `delete`, in either spelling, is read off the front of
/// text that starts with a space.
pub proof fn lemma_delete_word_reads(long: bool, rest: Seq<char>)
    ensures
        grammar::delete_word(
            (if long {
                word_delete()
            } else {
                word_del()
            }) + (space() + rest),
        ) == Ok::<(Seq<char>, ()), Seq<grammar::Frame>>((space() + rest, ())),
{
    let tail = space() + rest;
    if long {
        lemma_tag_reads(word_delete(), tail);
    } else {
        let input = word_del() + tail;
        assert(input[3] == ' ');
        lemma_tag_fails(input, word_delete(), 3);
        lemma_tag_reads(word_del(), tail);
    }
}

/// A `delete` written out is read back, whatever follows it that does not
/// go on its type.
pub proof fn lemma_delete_reads(
    long: bool,
    name: Seq<char>,
    class: Seq<char>,
    type_: Seq<char>,
    rest: Seq<char>,
)
    requires
        is_field(CharClass::Name, name),
        is_field(CharClass::Upper, class),
        is_field(CharClass::Upper, type_),
        ends_field(CharClass::Upper, rest),
    ensures
        grammar::delete(delete_line(long, name, class, type_) + rest) == Ok::<
            (Seq<char>, CommandView),
            Seq<grammar::Frame>,
        >((rest, deleted(name, class, type_))),
{
    let s3 = space() + (type_ + rest);
    let s2 = space() + (class + s3);
    let s1 = space() + (name + s2);
    let word = if long {
        word_delete()
    } else {
        word_del()
    };
    let s0 = word + s1;
    assert(delete_line(long, name, class, type_) + rest =~= s0);
    lemma_delete_word_reads(long, name + s2);
    lemma_space_ends_field(CharClass::Name, class + s3);
    lemma_spaced_reads(CharClass::Name, name, s2);
    lemma_space_ends_field(CharClass::Upper, type_ + rest);
    lemma_spaced_reads(CharClass::Upper, class, s3);
    lemma_spaced_reads(CharClass::Upper, type_, rest);
}

/// No keyword that is a whole command, nor `update`, is read from text
/// that starts with `a`.
proof fn lemma_only_add_starts_with_a(input: Seq<char>)
    requires
        input.len() > 0,
        input[0] == 'a',
    ensures
        grammar::help(input) is Err,
        grammar::send(input) is Err,
        grammar::quit(input) is Err,
        grammar::drop(input) is Err,
        grammar::update(input) is Err,
{
    lemma_tag_fails(input, word_help(), 0);
    lemma_tag_fails(input, word_send(), 0);
    lemma_tag_fails(input, word_quit(), 0);
    lemma_tag_fails(input, word_drop(), 0);
    lemma_tag_fails(input, word_update(), 0);
}

/// Of the rules of a command, only `delete` can read text that starts
/// with `de`.
proof fn lemma_only_delete_starts_with_de(input: Seq<char>)
    requires
        input.len() > 1,
        input[0] == 'd',
        input[1] == 'e',
    ensures
        grammar::help(input) is Err,
        grammar::send(input) is Err,
        grammar::quit(input) is Err,
        grammar::drop(input) is Err,
        grammar::update(input) is Err,
        grammar::add(input) is Err,
{
    lemma_tag_fails(input, word_help(), 0);
    lemma_tag_fails(input, word_send(), 0);
    lemma_tag_fails(input, word_quit(), 0);
    lemma_tag_fails(input, word_drop(), 1);
    lemma_tag_fails(input, word_update(), 0);
    lemma_tag_fails(input, word_add(), 0);
}

/// What an `add` or a `delete` reads, the rule `command` reads after
/// `update` and one space.
pub proof fn lemma_update_reads(line: Seq<char>, rest: Seq<char>, value: CommandView)
    requires
        grammar::add_or_delete(line) == Ok::<(Seq<char>, CommandView), Seq<grammar::Frame>>(
            (rest, value),
        ),
    ensures
        grammar::command(update_line(line)) == Ok::<(Seq<char>, CommandView), Seq<grammar::Frame>>(
            (rest, value),
        ),
{
    let whole = update_line(line);
    assert(whole =~= word_update() + (space() + line));
    assert(whole[0] == 'u');
    lemma_tag_fails(whole, word_help(), 0);
    lemma_tag_fails(whole, word_send(), 0);
    lemma_tag_fails(whole, word_quit(), 0);
    lemma_tag_fails(whole, word_drop(), 0);
    lemma_tag_reads(word_update(), space() + line);
    lemma_tag_reads(space(), line);
}

/// What the rule `add` reads, `command` and `add or delete` read too.
pub proof fn lemma_add_is_command(line: Seq<char>, rest: Seq<char>, value: CommandView)
    requires
        grammar::add(line) == Ok::<(Seq<char>, CommandView), Seq<grammar::Frame>>((rest, value)),
    ensures
        grammar::command(line) == grammar::add(line),
        grammar::add_or_delete(line) == grammar::add(line),
{
    if line.len() == 0 || line[0] != 'a' {
        lemma_tag_fails(line, word_add(), 0);
    }
    lemma_only_add_starts_with_a(line);
}

/// What the rule `delete` reads, `command` and `add or delete` read too.
pub proof fn lemma_delete_is_command(line: Seq<char>, rest: Seq<char>, value: CommandView)
    requires
        grammar::delete(line) == Ok::<(Seq<char>, CommandView), Seq<grammar::Frame>>(
            (rest, value),
        ),
    ensures
        grammar::command(line) == grammar::delete(line),
        grammar::add_or_delete(line) == grammar::delete(line),
{
    if line.len() < 2 || line[0] != 'd' || line[1] != 'e' {
        let i = if line.len() == 0 || line[0] != 'd' {
            0int
        } else {
            1int
        };
        lemma_tag_fails(line, word_delete(), i);
        lemma_tag_fails(line, word_del(), i);
    }
    lemma_only_delete_starts_with_de(line);
}

/// Every line that adds a record is read as that `add`, with or without
/// the keyword `update` before it.
pub proof fn lemma_parse_add(
    update: bool,
    name: Seq<char>,
    digits: Seq<char>,
    class: Seq<char>,
    type_: Seq<char>,
    data: Seq<char>,
)
    requires
        is_field(CharClass::Name, name),
        is_field(CharClass::Digit, digits),
        grammar::decimal(digits) <= u32::MAX,
        is_field(CharClass::Upper, class),
        is_field(CharClass::Upper, type_),
        is_field(CharClass::Graphic, data),
    ensures
        grammar::parse(
            if update {
                update_line(add_line(name, digits, class, type_, data))
            } else {
                add_line(name, digits, class, type_, data)
            },
        ) == Ok::<CommandView, Seq<grammar::Frame>>(added(name, digits, class, type_, data)),
{
    let line = add_line(name, digits, class, type_, data);
    let nothing = Seq::<char>::empty();
    let value = added(name, digits, class, type_, data);
    lemma_add_reads(name, digits, class, type_, data, nothing);
    assert(line + nothing =~= line);
    lemma_add_is_command(line, nothing, value);
    if update {
        lemma_update_reads(line, nothing, value);
    }
}

/// Every line that deletes a record is read as that `delete`, in either
/// spelling, with or without the keyword `update` before it.
pub proof fn lemma_parse_delete(
    update: bool,
    long: bool,
    name: Seq<char>,
    class: Seq<char>,
    type_: Seq<char>,
)
    requires
        is_field(CharClass::Name, name),
        is_field(CharClass::Upper, class),
        is_field(CharClass::Upper, type_),
    ensures
        grammar::parse(
            if update {
                update_line(delete_line(long, name, class, type_))
            } else {
                delete_line(long, name, class, type_)
            },
        ) == Ok::<CommandView, Seq<grammar::Frame>>(deleted(name, class, type_)),
{
    let line = delete_line(long, name, class, type_);
    let nothing = Seq::<char>::empty();
    let value = deleted(name, class, type_);
    lemma_delete_reads(long, name, class, type_, nothing);
    assert(line + nothing =~= line);
    lemma_delete_is_command(line, nothing, value);
    if update {
        lemma_update_reads(line, nothing, value);
    }
}

/// Each of the four keywords, alone on a line, is read as its command.
pub proof fn lemma_parse_keywords()
    ensures
        grammar::parse(word_help()) == Ok::<CommandView, Seq<grammar::Frame>>(CommandView::Help),
        grammar::parse(word_send()) == Ok::<CommandView, Seq<grammar::Frame>>(CommandView::Send),
        grammar::parse(word_quit()) == Ok::<CommandView, Seq<grammar::Frame>>(CommandView::Quit),
        grammar::parse(word_drop()) == Ok::<CommandView, Seq<grammar::Frame>>(CommandView::Drop),
{
    let nothing = Seq::<char>::empty();
    lemma_tag_reads(word_help(), nothing);
    assert(word_help() + nothing =~= word_help());
    lemma_tag_reads(word_send(), nothing);
    assert(word_send() + nothing =~= word_send());
    lemma_tag_fails(word_send(), word_help(), 0);
    lemma_tag_reads(word_quit(), nothing);
    assert(word_quit() + nothing =~= word_quit());
    lemma_tag_fails(word_quit(), word_help(), 0);
    lemma_tag_fails(word_quit(), word_send(), 0);
    lemma_tag_reads(word_drop(), nothing);
    assert(word_drop() + nothing =~= word_drop());
    lemma_tag_fails(word_drop(), word_help(), 0);
    lemma_tag_fails(word_drop(), word_send(), 0);
    lemma_tag_fails(word_drop(), word_quit(), 0);
}

/// The longest run of a class is made of the class and cannot be
/// extended.
pub proof fn lemma_run_is_longest(input: Seq<char>, class: CharClass)
    ensures
        grammar::run_len(input, class) <= input.len(),
        class.covers(input.take(grammar::run_len(input, class) as int)),
        ends_field(class, input.skip(grammar::run_len(input, class) as int)),
    decreases input.len(),
{
    let n = grammar::run_len(input, class) as int;
    if input.len() > 0 && class.contains(input[0]) {
        let tail = input.skip(1);
        lemma_run_is_longest(tail, class);
        assert forall|i: int| 0 <= i < n implies class.contains(#[trigger] input.take(n)[i]) by {
            if i > 0 {
                assert(input.take(n)[i] == tail.take(n - 1)[i - 1]);
            }
        }
        assert(input.skip(n) =~= tail.skip(n - 1));
    } else {
        assert(input.skip(0) =~= input);
    }
}

/// Where a word was read, the text started with it.
pub proof fn lemma_tag_read(input: Seq<char>, word: Seq<char>, rest: Seq<char>)
    requires
        grammar::tag(input, word) == Ok::<(Seq<char>, ()), Seq<grammar::Frame>>((rest, ())),
    ensures
        input == word + rest,
{
    assert(input =~= input.subrange(0, word.len() as int) + input.skip(word.len() as int));
}

/// Where a field was read, the text started with it, and what follows
/// does not go on it.
pub proof fn lemma_field_read(
    input: Seq<char>,
    class: CharClass,
    rest: Seq<char>,
    field: Seq<char>,
)
    requires
        grammar::take_while1(input, class) == Ok::<(Seq<char>, Seq<char>), Seq<grammar::Frame>>(
            (rest, field),
        ),
    ensures
        input == field + rest,
        is_field(class, field),
        ends_field(class, rest),
{
    lemma_run_is_longest(input, class);
    let n = grammar::run_len(input, class) as int;
    assert(input =~= input.take(n) + input.skip(n));
}

/// Where a space and a field were read, the text started with them, and
/// what follows does not go on the field.
pub proof fn lemma_spaced_read(
    input: Seq<char>,
    class: CharClass,
    rest: Seq<char>,
    field: Seq<char>,
)
    requires
        grammar::spaced(input, class) == Ok::<(Seq<char>, Seq<char>), Seq<grammar::Frame>>(
            (rest, field),
        ),
    ensures
        input == space() + (field + rest),
        is_field(class, field),
        ends_field(class, rest),
{
    let after = grammar::tag(input, space())->Ok_0.0;
    lemma_tag_read(input, space(), after);
    lemma_field_read(after, class, rest, field);
}

/// Where a space and a time to live were read, the text started with a
/// space and the digits that the proof hands back.
pub proof fn lemma_spaced_ttl_read(input: Seq<char>, rest: Seq<char>, ttl: u32) -> (digits: Seq<
    char,
>)
    requires
        grammar::spaced_ttl(input) == Ok::<(Seq<char>, u32), Seq<grammar::Frame>>((rest, ttl)),
    ensures
        input == space() + (digits + rest),
        is_field(CharClass::Digit, digits),
        grammar::decimal(digits) == ttl,
        ends_field(CharClass::Digit, rest),
{
    let after = grammar::tag(input, space())->Ok_0.0;
    lemma_tag_read(input, space(), after);
    let run = grammar::take_while1(after, CharClass::Digit);
    let digits = run->Ok_0.1;
    lemma_field_read(after, CharClass::Digit, rest, digits);
    digits
}

/// Where the rule `add` read a command, the text started with that `add`
/// written out, with the digits that the proof hands back.
pub proof fn lemma_add_read(input: Seq<char>, rest: Seq<char>, value: CommandView) -> (digits:
    Seq<char>)
    requires
        grammar::add(input) == Ok::<(Seq<char>, CommandView), Seq<grammar::Frame>>((rest, value)),
    ensures
        value matches CommandView::Update(UpdateView::Add(a)) && {
            &&& input == add_line(a.name, digits, a.class, a.type_, a.data) + rest
            &&& is_field(CharClass::Name, a.name)
            &&& is_field(CharClass::Digit, digits)
            &&& grammar::decimal(digits) == a.ttl
            &&& is_field(CharClass::Upper, a.class)
            &&& is_field(CharClass::Upper, a.type_)
            &&& is_field(CharClass::Graphic, a.data)
        },
        ends_field(CharClass::Graphic, rest),
{
    let r0 = grammar::tag(input, word_add())->Ok_0.0;
    lemma_tag_read(input, word_add(), r0);
    let (r1, name) = grammar::spaced(r0, CharClass::Name)->Ok_0;
    lemma_spaced_read(r0, CharClass::Name, r1, name);
    let (r2, ttl) = grammar::spaced_ttl(r1)->Ok_0;
    let digits = lemma_spaced_ttl_read(r1, r2, ttl);
    let (r3, class) = grammar::spaced(r2, CharClass::Upper)->Ok_0;
    lemma_spaced_read(r2, CharClass::Upper, r3, class);
    let (r4, type_) = grammar::spaced(r3, CharClass::Upper)->Ok_0;
    lemma_spaced_read(r3, CharClass::Upper, r4, type_);
    let (r5, data) = grammar::spaced(r4, CharClass::Graphic)->Ok_0;
    lemma_spaced_read(r4, CharClass::Graphic, r5, data);
    assert(input =~= add_line(name, digits, class, type_, data) + rest);
    digits
}

/// Where the rule `delete` read a command, the text started with that
/// `delete` written out, in the spelling that the proof hands back.
pub proof fn lemma_delete_read(input: Seq<char>, rest: Seq<char>, value: CommandView) -> (long:
    bool)
    requires
        grammar::delete(input) == Ok::<(Seq<char>, CommandView), Seq<grammar::Frame>>(
            (rest, value),
        ),
    ensures
        value matches CommandView::Update(UpdateView::Delete(d)) && {
            &&& input == delete_line(long, d.name, d.class, d.type_) + rest
            &&& is_field(CharClass::Name, d.name)
            &&& is_field(CharClass::Upper, d.class)
            &&& is_field(CharClass::Upper, d.type_)
        },
        ends_field(CharClass::Upper, rest),
{
    let long = grammar::tag(input, word_delete()) is Ok;
    let r0 = grammar::delete_word(input)->Ok_0.0;
    if long {
        lemma_tag_read(input, word_delete(), r0);
    } else {
        lemma_tag_read(input, word_del(), r0);
    }
    let (r1, name) = grammar::spaced(r0, CharClass::Name)->Ok_0;
    lemma_spaced_read(r0, CharClass::Name, r1, name);
    let (r2, class) = grammar::spaced(r1, CharClass::Upper)->Ok_0;
    lemma_spaced_read(r1, CharClass::Upper, r2, class);
    let (r3, type_) = grammar::spaced(r2, CharClass::Upper)->Ok_0;
    lemma_spaced_read(r2, CharClass::Upper, r3, type_);
    assert(input =~= delete_line(long, name, class, type_) + rest);
    long
}

/// `line` is the `add` for `a`, written with `digits` for its time to
/// live.
pub open spec fn writes_add(line: Seq<char>, a: AddView, digits: Seq<char>) -> bool {
    &&& line == add_line(a.name, digits, a.class, a.type_, a.data)
    &&& is_field(CharClass::Name, a.name)
    &&& is_field(CharClass::Digit, digits)
    &&& grammar::decimal(digits) == a.ttl
    &&& is_field(CharClass::Upper, a.class)
    &&& is_field(CharClass::Upper, a.type_)
    &&& is_field(CharClass::Graphic, a.data)
}

/// `line` is the `delete` for `d`, in the long or the short spelling.
pub open spec fn writes_delete(line: Seq<char>, d: DeleteView, long: bool) -> bool {
    &&& line == delete_line(long, d.name, d.class, d.type_)
    &&& is_field(CharClass::Name, d.name)
    &&& is_field(CharClass::Upper, d.class)
    &&& is_field(CharClass::Upper, d.type_)
}

/// `line` is an `add` or a `delete` and says `value`.
pub open spec fn is_change(line: Seq<char>, value: CommandView) -> bool {
    match value {
        CommandView::Update(UpdateView::Add(a)) => exists|digits: Seq<char>| #[trigger]
            writes_add(line, a, digits),
        CommandView::Update(UpdateView::Delete(d)) => writes_delete(line, d, true)
            || writes_delete(line, d, false),
        _ => false,
    }
}

/// `line` is a sentence of the grammar and says `value`: a keyword alone,
/// or an `add` or a `delete`, which may follow `update` and one space.
pub open spec fn is_sentence(line: Seq<char>, value: CommandView) -> bool {
    ||| line == word_help() && value == CommandView::Help
    ||| line == word_send() && value == CommandView::Send
    ||| line == word_quit() && value == CommandView::Quit
    ||| line == word_drop() && value == CommandView::Drop
    ||| is_change(line, value)
    ||| (word_update() + space()).is_prefix_of(line) && is_change(line.skip(7), value)
}

/// An `add` or a `delete` written out is read as what it says, with or
/// without the keyword `update` before it.
proof fn lemma_change_parses(update: bool, change: Seq<char>, value: CommandView)
    requires
        is_change(change, value),
    ensures
        grammar::parse(
            if update {
                update_line(change)
            } else {
                change
            },
        ) == Ok::<CommandView, Seq<grammar::Frame>>(value),
{
    match value {
        CommandView::Update(UpdateView::Add(a)) => {
            let digits = choose|digits: Seq<char>| #[trigger] writes_add(change, a, digits);
            lemma_parse_add(update, a.name, digits, a.class, a.type_, a.data);
        },
        CommandView::Update(UpdateView::Delete(d)) => {
            let long = writes_delete(change, d, true);
            lemma_parse_delete(update, long, d.name, d.class, d.type_);
        },
        _ => {},
    }
}

/// Every sentence of the grammar is read as the command that it says.
pub proof fn lemma_sentences_parse(line: Seq<char>, value: CommandView)
    requires
        is_sentence(line, value),
    ensures
        grammar::parse(line) == Ok::<CommandView, Seq<grammar::Frame>>(value),
{
    if is_change(line, value) {
        lemma_change_parses(false, line, value);
    } else if (word_update() + space()).is_prefix_of(line) && is_change(line.skip(7), value) {
        let change = line.skip(7);
        assert(line == update_line(change)) by {
            assert(line.subrange(0, 7) == word_update() + space());
            assert(line =~= line.subrange(0, 7) + line.skip(7));
        }
        lemma_change_parses(true, change, value);
    } else {
        lemma_parse_keywords();
    }
}

/// What the rule `add or delete` reads with nothing left over is an `add`
/// or a `delete` written out.
proof fn lemma_change_read(line: Seq<char>, value: CommandView)
    requires
        grammar::add(line) == Ok::<(Seq<char>, CommandView), Seq<grammar::Frame>>(
            (Seq::empty(), value),
        ) || (grammar::add(line) is Err && grammar::delete(line) == Ok::<
            (Seq<char>, CommandView),
            Seq<grammar::Frame>,
        >((Seq::empty(), value))),
    ensures
        is_change(line, value),
{
    let nothing = Seq::<char>::empty();
    if grammar::add(line) is Ok {
        let digits = lemma_add_read(line, nothing, value);
        let a = value->Update_0->Add_0;
        assert(add_line(a.name, digits, a.class, a.type_, a.data) + nothing =~= add_line(
            a.name,
            digits,
            a.class,
            a.type_,
            a.data,
        ));
        assert(writes_add(line, a, digits));
    } else {
        let long = lemma_delete_read(line, nothing, value);
        let d = value->Update_0->Delete_0;
        assert(delete_line(long, d.name, d.class, d.type_) + nothing =~= delete_line(
            long,
            d.name,
            d.class,
            d.type_,
        ));
        assert(writes_delete(line, d, long));
    }
}

/// A keyword that was read with nothing left over is the whole text.
proof fn lemma_keyword_read(
    line: Seq<char>,
    rule: Rule,
    word: Seq<char>,
    said: CommandView,
    value: CommandView,
)
    requires
        grammar::keyword(line, rule, word, said) == Ok::<
            (Seq<char>, CommandView),
            Seq<grammar::Frame>,
        >((Seq::empty(), value)),
    ensures
        line == word,
        value == said,
{
    let nothing = Seq::<char>::empty();
    lemma_tag_read(line, word, nothing);
    assert(word + nothing =~= word);
}

/// What the rule `update` reads with nothing left over is `update`, a
/// space, and an `add` or a `delete` written out.
proof fn lemma_update_read(line: Seq<char>, value: CommandView)
    requires
        grammar::update(line) == Ok::<(Seq<char>, CommandView), Seq<grammar::Frame>>(
            (Seq::empty(), value),
        ),
    ensures
        (word_update() + space()).is_prefix_of(line),
        is_change(line.skip(7), value),
{
    let r0 = grammar::tag(line, word_update())->Ok_0.0;
    lemma_tag_read(line, word_update(), r0);
    let r1 = grammar::tag(r0, space())->Ok_0.0;
    lemma_tag_read(r0, space(), r1);
    assert(line =~= (word_update() + space()) + r1);
    assert(line.subrange(0, 7) =~= word_update() + space());
    assert(line.skip(7) =~= r1);
    lemma_change_read(r1, value);
}

/// What the rule `command` reads, one of its alternatives reads, and
/// where that is `delete`, `add` has failed.
proof fn lemma_command_read(line: Seq<char>, read: (Seq<char>, CommandView))
    requires
        grammar::command(line) == Ok::<(Seq<char>, CommandView), Seq<grammar::Frame>>(read),
    ensures
        ({
            let done = Ok::<(Seq<char>, CommandView), Seq<grammar::Frame>>(read);
            ||| grammar::help(line) == done
            ||| grammar::send(line) == done
            ||| grammar::quit(line) == done
            ||| grammar::drop(line) == done
            ||| grammar::update(line) == done
            ||| grammar::add(line) == done
            ||| grammar::add(line) is Err && grammar::delete(line) == done
        }),
{
}

/// Every line that is read as a command is a sentence of the grammar that
/// says that command.
pub proof fn lemma_parsed_is_sentence(line: Seq<char>, value: CommandView)
    requires
        grammar::parse(line) == Ok::<CommandView, Seq<grammar::Frame>>(value),
    ensures
        is_sentence(line, value),
{
    let nothing = Seq::<char>::empty();
    let read = grammar::command(line)->Ok_0;
    assert(read.0 =~= nothing);
    let done = Ok::<(Seq<char>, CommandView), Seq<grammar::Frame>>((nothing, value));
    lemma_command_read(line, (nothing, value));
    if grammar::help(line) == done {
        lemma_keyword_read(line, Rule::Help, word_help(), CommandView::Help, value);
    } else if grammar::send(line) == done {
        lemma_keyword_read(line, Rule::Send, word_send(), CommandView::Send, value);
    } else if grammar::quit(line) == done {
        lemma_keyword_read(line, Rule::Quit, word_quit(), CommandView::Quit, value);
    } else if grammar::drop(line) == done {
        lemma_keyword_read(line, Rule::Drop, word_drop(), CommandView::Drop, value);
    } else if grammar::update(line) == done {
        lemma_update_read(line, value);
    } else {
        lemma_change_read(line, value);
    }
}

/// Whether `c`, put after a line that says `value`, goes on its last
/// field: the data of an `add`, the type of a `delete`. Nothing goes on a
/// keyword.
pub open spec fn goes_on(value: CommandView, c: char) -> bool {
    match value {
        CommandView::Update(UpdateView::Add(_)) => CharClass::Graphic.contains(c),
        CommandView::Update(UpdateView::Delete(_)) => CharClass::Upper.contains(c),
        _ => false,
    }
}

/// Some character of `extra` does not go on the last field of `value`.
pub open spec fn breaks_off(value: CommandView, extra: Seq<char>) -> bool {
    exists|i: int| 0 <= i < extra.len() && !goes_on(value, #[trigger] extra[i])
}

/// Each of the four keywords is read as its command off the front of any
/// text.
proof fn lemma_keywords_read(rest: Seq<char>)
    ensures
        grammar::command(word_help() + rest) == Ok::<(Seq<char>, CommandView), Seq<grammar::Frame>>(
            (rest, CommandView::Help),
        ),
        grammar::command(word_send() + rest) == Ok::<(Seq<char>, CommandView), Seq<grammar::Frame>>(
            (rest, CommandView::Send),
        ),
        grammar::command(word_quit() + rest) == Ok::<(Seq<char>, CommandView), Seq<grammar::Frame>>(
            (rest, CommandView::Quit),
        ),
        grammar::command(word_drop() + rest) == Ok::<(Seq<char>, CommandView), Seq<grammar::Frame>>(
            (rest, CommandView::Drop),
        ),
{
    lemma_tag_reads(word_help(), rest);
    lemma_tag_reads(word_send(), rest);
    lemma_tag_fails(word_send() + rest, word_help(), 0);
    lemma_tag_reads(word_quit(), rest);
    lemma_tag_fails(word_quit() + rest, word_help(), 0);
    lemma_tag_fails(word_quit() + rest, word_send(), 0);
    lemma_tag_reads(word_drop(), rest);
    lemma_tag_fails(word_drop() + rest, word_help(), 0);
    lemma_tag_fails(word_drop() + rest, word_send(), 0);
    lemma_tag_fails(word_drop() + rest, word_quit(), 0);
}

/// The part of `extra` that goes on a field of `class` is not all of it
/// where some character of `extra` is outside the class.
proof fn lemma_run_stops(extra: Seq<char>, class: CharClass, i: int)
    requires
        0 <= i < extra.len(),
        !class.contains(extra[i]),
    ensures
        grammar::run_len(extra, class) < extra.len(),
        class.covers(extra.take(grammar::run_len(extra, class) as int)),
        ends_field(class, extra.skip(grammar::run_len(extra, class) as int)),
{
    lemma_run_is_longest(extra, class);
    let k = grammar::run_len(extra, class) as int;
    if k == extra.len() {
        assert(extra.take(k)[i] == extra[i]);
    }
}

/// A field with more of its class put after it is a field.
proof fn lemma_field_goes_on(class: CharClass, field: Seq<char>, more: Seq<char>)
    requires
        is_field(class, field),
        class.covers(more),
    ensures
        is_field(class, field + more),
{
    assert forall|i: int| 0 <= i < (field + more).len() implies class.contains(
        #[trigger] (field + more)[i],
    ) by {
        if i < field.len() {
            assert((field + more)[i] == field[i]);
        } else {
            assert((field + more)[i] == more[i - field.len()]);
        }
    }
}

/// More data after an `add` is the `add` with longer data.
proof fn lemma_add_line_goes_on(
    name: Seq<char>,
    digits: Seq<char>,
    class: Seq<char>,
    type_: Seq<char>,
    data: Seq<char>,
    extra: Seq<char>,
    k: int,
)
    requires
        0 <= k <= extra.len(),
    ensures
        add_line(name, digits, class, type_, data) + extra == add_line(
            name,
            digits,
            class,
            type_,
            data + extra.take(k),
        ) + extra.skip(k),
{
    assert(extra =~= extra.take(k) + extra.skip(k));
    assert(add_line(name, digits, class, type_, data) + (extra.take(k) + extra.skip(k))
        =~= add_line(name, digits, class, type_, data + extra.take(k)) + extra.skip(k));
}

/// More of a type after a `delete` is the `delete` with a longer type.
proof fn lemma_delete_line_goes_on(
    long: bool,
    name: Seq<char>,
    class: Seq<char>,
    type_: Seq<char>,
    extra: Seq<char>,
    k: int,
)
    requires
        0 <= k <= extra.len(),
    ensures
        delete_line(long, name, class, type_) + extra == delete_line(
            long,
            name,
            class,
            type_ + extra.take(k),
        ) + extra.skip(k),
{
    assert(extra =~= extra.take(k) + extra.skip(k));
    assert(delete_line(long, name, class, type_) + (extra.take(k) + extra.skip(k))
        =~= delete_line(long, name, class, type_ + extra.take(k)) + extra.skip(k));
}

/// An `add` with text after it that breaks off its data is still read,
/// and something is left over.
proof fn lemma_add_then(change: Seq<char>, a: AddView, digits: Seq<char>, extra: Seq<char>) -> (read:
    (Seq<char>, CommandView))
    requires
        writes_add(change, a, digits),
        breaks_off(CommandView::Update(UpdateView::Add(a)), extra),
    ensures
        read.0.len() > 0,
        grammar::add(change + extra) == Ok::<(Seq<char>, CommandView), Seq<grammar::Frame>>(read),
{
    let value = CommandView::Update(UpdateView::Add(a));
    let i = choose|i: int| 0 <= i < extra.len() && !goes_on(value, #[trigger] extra[i]);
    lemma_run_stops(extra, CharClass::Graphic, i);
    let k = grammar::run_len(extra, CharClass::Graphic) as int;
    let data = a.data + extra.take(k);
    let rest = extra.skip(k);
    lemma_field_goes_on(CharClass::Graphic, a.data, extra.take(k));
    lemma_add_line_goes_on(a.name, digits, a.class, a.type_, a.data, extra, k);
    lemma_add_reads(a.name, digits, a.class, a.type_, data, rest);
    (rest, added(a.name, digits, a.class, a.type_, data))
}

/// A `delete` with text after it that breaks off its type is still read,
/// and something is left over.
proof fn lemma_delete_then(change: Seq<char>, d: DeleteView, long: bool, extra: Seq<char>) -> (read:
    (Seq<char>, CommandView))
    requires
        writes_delete(change, d, long),
        breaks_off(CommandView::Update(UpdateView::Delete(d)), extra),
    ensures
        read.0.len() > 0,
        grammar::delete(change + extra) == Ok::<(Seq<char>, CommandView), Seq<grammar::Frame>>(
            read,
        ),
{
    let value = CommandView::Update(UpdateView::Delete(d));
    let i = choose|i: int| 0 <= i < extra.len() && !goes_on(value, #[trigger] extra[i]);
    lemma_run_stops(extra, CharClass::Upper, i);
    let k = grammar::run_len(extra, CharClass::Upper) as int;
    let type_ = d.type_ + extra.take(k);
    let rest = extra.skip(k);
    lemma_field_goes_on(CharClass::Upper, d.type_, extra.take(k));
    lemma_delete_line_goes_on(long, d.name, d.class, d.type_, extra, k);
    lemma_delete_reads(long, d.name, d.class, type_, rest);
    (rest, deleted(d.name, d.class, type_))
}

/// An `add` or a `delete` with text after it that breaks off its last
/// field is still read as a command, and something is left over.
proof fn lemma_change_then(change: Seq<char>, value: CommandView, extra: Seq<char>) -> (read: (
    Seq<char>,
    CommandView,
))
    requires
        is_change(change, value),
        breaks_off(value, extra),
    ensures
        read.0.len() > 0,
        grammar::command(change + extra) == Ok::<(Seq<char>, CommandView), Seq<grammar::Frame>>(
            read,
        ),
        grammar::add_or_delete(change + extra) == Ok::<
            (Seq<char>, CommandView),
            Seq<grammar::Frame>,
        >(read),
{
    match value {
        CommandView::Update(UpdateView::Add(a)) => {
            let digits = choose|digits: Seq<char>| #[trigger] writes_add(change, a, digits);
            let read = lemma_add_then(change, a, digits, extra);
            lemma_add_is_command(change + extra, read.0, read.1);
            read
        },
        CommandView::Update(UpdateView::Delete(d)) => {
            let long = writes_delete(change, d, true);
            let read = lemma_delete_then(change, d, long, extra);
            lemma_delete_is_command(change + extra, read.0, read.1);
            read
        },
        _ => (Seq::empty(), value),
    }
}

/// Text after a line that starts with `update` and a space goes after the
/// change that the line makes.
proof fn lemma_update_line_goes_on(line: Seq<char>, extra: Seq<char>)
    requires
        (word_update() + space()).is_prefix_of(line),
    ensures
        line + extra == update_line(line.skip(7) + extra),
{
    assert(line.subrange(0, 7) == word_update() + space());
    assert(line =~= line.subrange(0, 7) + line.skip(7));
    assert(line + extra =~= update_line(line.skip(7) + extra));
}

/// Text after a command is rejected: a line that is read as a command is
/// no command with `extra` put after it, and the failure is the one for
/// trailing text, wherever some character of `extra` does not go on the
/// last field of the command. (Where every character does, the longer
/// line is the same command with a longer last field.)
pub proof fn lemma_trailing_text_rejected(line: Seq<char>, value: CommandView, extra: Seq<char>)
    requires
        grammar::parse(line) == Ok::<CommandView, Seq<grammar::Frame>>(value),
        breaks_off(value, extra),
    ensures
        grammar::parse(line + extra) == Err::<CommandView, Seq<grammar::Frame>>(
            grammar::failure(line + extra, ErrorKind::Context(Rule::TrailingGarbage)),
        ),
{
    lemma_parsed_is_sentence(line, value);
    if is_change(line, value) {
        let read = lemma_change_then(line, value, extra);
    } else if (word_update() + space()).is_prefix_of(line) && is_change(line.skip(7), value) {
        let change = line.skip(7);
        lemma_update_line_goes_on(line, extra);
        let read = lemma_change_then(change, value, extra);
        lemma_update_reads(change + extra, read.0, read.1);
    } else {
        lemma_keywords_read(extra);
    }
}

/// The failure of a rule that encloses another stands where the failure
/// of the other stands.
proof fn lemma_enclosed_stands<T>(input: Seq<char>, rule: Rule, inner: Parsed<T>)
    requires
        inner matches Err(trace) && trace.len() > 0,
    ensures
        grammar::context(input, rule, inner) matches Err(trace) && trace.len() > 0 && left_over(
            trace,
        ) == left_over(inner->Err_0),
        grammar::alt(input, inner) matches Err(trace) && trace.len() > 0 && left_over(trace)
            == left_over(inner->Err_0),
{
}

/// Where both alternatives fail, the failure of the choice read as far as
/// either of them, and is the failure of one of them.
proof fn lemma_or_else_reads_furthest<T>(first: Parsed<T>, second: Parsed<T>)
    requires
        first is Err,
        second is Err,
    ensures
        grammar::or_else(first, second) matches Err(trace) && {
            &&& left_over(trace) <= left_over(first->Err_0)
            &&& left_over(trace) <= left_over(second->Err_0)
            &&& trace == first->Err_0 || trace == second->Err_0
        },
{
}

/// A line that is no command is reported where the alternative that read
/// furthest into it failed: the trace of the failure leaves no more of
/// the line unread than the failure of any of the seven alternatives.
pub proof fn lemma_command_reads_furthest(input: Seq<char>)
    requires
        grammar::command(input) is Err,
    ensures
        ({
            let left = left_over(grammar::command(input)->Err_0);
            &&& grammar::help(input) matches Err(trace) && left <= left_over(trace)
            &&& grammar::send(input) matches Err(trace) && left <= left_over(trace)
            &&& grammar::quit(input) matches Err(trace) && left <= left_over(trace)
            &&& grammar::drop(input) matches Err(trace) && left <= left_over(trace)
            &&& grammar::update(input) matches Err(trace) && left <= left_over(trace)
            &&& grammar::add(input) matches Err(trace) && left <= left_over(trace)
            &&& grammar::delete(input) matches Err(trace) && left <= left_over(trace)
        }),
{
    let help = grammar::help(input);
    let send = grammar::send(input);
    let quit = grammar::quit(input);
    let drop = grammar::drop(input);
    let update = grammar::update(input);
    let add = grammar::add(input);
    let delete = grammar::delete(input);
    let two = grammar::or_else(help, send);
    let three = grammar::or_else(two, quit);
    let four = grammar::or_else(three, drop);
    let five = grammar::or_else(four, update);
    let six = grammar::or_else(five, add);
    let seven = grammar::or_else(six, delete);
    lemma_or_else_reads_furthest(help, send);
    lemma_or_else_reads_furthest(two, quit);
    lemma_or_else_reads_furthest(three, drop);
    lemma_or_else_reads_furthest(four, update);
    lemma_or_else_reads_furthest(five, add);
    lemma_or_else_reads_furthest(six, delete);
    assert(seven->Err_0.len() > 0);
    lemma_enclosed_stands(input, Rule::Command, grammar::alt(input, seven));
    lemma_enclosed_stands(input, Rule::Command, seven);
}

} // verus!
