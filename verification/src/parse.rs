//! Reading one line of the command protocol.
//!
//! Every function here reads the same rule as the function of that name in
//! [`crate::grammar`], and its contract says so: the value and the text
//! left over, or the trace of the failure, are those that the grammar
//! gives for the input.

use crate::grammar;
use crate::grammar::{CharClass, ErrorKind, Frame, Parsed, Rule};
use crate::grammar::{AddView, CommandView, DeleteView, UpdateView};
use vstd::prelude::*;
use vstd::std_specs::iter::IteratorSpec;
use vstd::string::StrSliceExecFns;

verus! {

/// One line of input, read: what it asks for.
#[derive(Debug, PartialEq, Eq)]
pub enum Command<'a> {
    Help,
    Send,
    Quit,
    Drop,
    Update(Update<'a>),
}

/// A change to the records.
#[derive(Debug, PartialEq, Eq)]
pub enum Update<'a> {
    Add(Add<'a>),
    Delete(Delete<'a>),
}

/// The record to add, under its fully qualified name.
#[derive(Debug, PartialEq, Eq)]
pub struct Add<'a> {
    pub name: &'a str,
    pub ttl: u32,
    pub class: &'a str,
    pub type_: &'a str,
    pub data: &'a str,
}

/// The record to delete: its fully qualified name, class and type.
#[derive(Debug, PartialEq, Eq)]
pub struct Delete<'a> {
    pub name: &'a str,
    pub class: &'a str,
    pub type_: &'a str,
}

/// Why a line is not a command: one frame for the token that did not
/// match, then one for each rule and choice that encloses it, each with
/// what was left of the line where it started.
#[derive(Debug, PartialEq, Eq)]
pub struct ParseError<'a> {
    pub errors: Vec<(&'a str, ErrorKind)>,
}

impl<'a> View for Add<'a> {
    type V = AddView;

    open spec fn view(&self) -> AddView {
        AddView {
            name: self.name@,
            ttl: self.ttl,
            class: self.class@,
            type_: self.type_@,
            data: self.data@,
        }
    }
}

impl<'a> View for Delete<'a> {
    type V = DeleteView;

    open spec fn view(&self) -> DeleteView {
        DeleteView { name: self.name@, class: self.class@, type_: self.type_@ }
    }
}

impl<'a> View for Update<'a> {
    type V = UpdateView;

    open spec fn view(&self) -> UpdateView {
        match self {
            Update::Add(r) => UpdateView::Add(r@),
            Update::Delete(r) => UpdateView::Delete(r@),
        }
    }
}

impl<'a> View for Command<'a> {
    type V = CommandView;

    open spec fn view(&self) -> CommandView {
        match self {
            Command::Help => CommandView::Help,
            Command::Send => CommandView::Send,
            Command::Quit => CommandView::Quit,
            Command::Drop => CommandView::Drop,
            Command::Update(u) => CommandView::Update(u@),
        }
    }
}

impl<'a> View for ParseError<'a> {
    type V = Seq<Frame>;

    open spec fn view(&self) -> Seq<Frame> {
        Seq::new(
            self.errors@.len(),
            |i: int| Frame { rest: self.errors@[i].0@, kind: self.errors@[i].1 },
        )
    }
}

impl Rule {
    /// The name of the rule, as text.
    pub open spec fn spec_name(self) -> Seq<char> {
        match self {
            Rule::Command => "command"@,
            Rule::Help => "help"@,
            Rule::Send => "send"@,
            Rule::Quit => "quit"@,
            Rule::Drop => "drop"@,
            Rule::Update => "update"@,
            Rule::AddOrDelete => "add or delete"@,
            Rule::Add => "add"@,
            Rule::Delete => "delete"@,
            Rule::Ttl => "ttl"@,
            Rule::TrailingGarbage => "Trailing garbage after command"@,
        }
    }

    /// The name under which the rule is reported.
    pub fn name(self) -> (s: &'static str)
        ensures
            s@ == self.spec_name(),
    {
        match self {
            Rule::Command => "command",
            Rule::Help => "help",
            Rule::Send => "send",
            Rule::Quit => "quit",
            Rule::Drop => "drop",
            Rule::Update => "update",
            Rule::AddOrDelete => "add or delete",
            Rule::Add => "add",
            Rule::Delete => "delete",
            Rule::Ttl => "ttl",
            Rule::TrailingGarbage => "Trailing garbage after command",
        }
    }
}

/// What a public reader returns, as the grammar states it.
pub open spec fn outcome<'a, T: View>(r: Result<(&'a str, T), ParseError<'a>>) -> Parsed<T::V> {
    match r {
        Ok((rest, value)) => Ok((rest@, value@)),
        Err(e) => Err(e@),
    }
}

/// A line with its characters laid out, so that a position is an index.
struct Line<'a> {
    text: &'a str,
    chars: Vec<char>,
}

impl<'a> Line<'a> {
    spec fn wf(&self) -> bool {
        self.chars@ == self.text@
    }

    /// What is left of the line from `pos` on.
    spec fn from(&self, pos: usize) -> Seq<char> {
        self.chars@.skip(pos as int)
    }

    fn new(text: &'a str) -> (line: Line<'a>)
        ensures
            line.wf(),
            line.text == text,
            line.chars@ == text@,
    {
        let mut chars: Vec<char> = Vec::new();
        let it = text.chars();
        for c in iter: it
            invariant
                chars@ == iter.seq().take(iter.index()),
                iter.seq() == text@,
        {
            chars.push(c);
        }
        assert(chars@ =~= text@);
        Line { text, chars }
    }

    fn len(&self) -> (n: usize)
        ensures
            n == self.chars@.len(),
    {
        self.chars.len()
    }

    /// The text from `pos` on.
    fn rest(&self, pos: usize) -> (s: &'a str)
        requires
            self.wf(),
            pos <= self.chars@.len(),
        ensures
            s@ == self.from(pos),
    {
        self.text.substring_char(pos, self.chars.len())
    }

    /// The text from `start` up to `end`.
    fn slice(&self, start: usize, end: usize) -> (s: &'a str)
        requires
            self.wf(),
            start <= end <= self.chars@.len(),
        ensures
            s@ == self.chars@.subrange(start as int, end as int),
    {
        self.text.substring_char(start, end)
    }
}

/// The frames that a trace of positions in `line` stands for.
spec fn frames(line: Seq<char>, trace: Seq<(usize, ErrorKind)>) -> Seq<Frame> {
    Seq::new(trace.len(), |i: int| Frame { rest: line.skip(trace[i].0 as int), kind: trace[i].1 })
}

spec fn in_line(line: Seq<char>, trace: Seq<(usize, ErrorKind)>) -> bool {
    forall|i: int| 0 <= i < trace.len() ==> (#[trigger] trace[i]).0 <= line.len()
}

/// Whether what was read from `pos` on is what the grammar expects there.
spec fn agree<T: View>(
    line: Seq<char>,
    pos: usize,
    r: Result<(usize, T), Vec<(usize, ErrorKind)>>,
    expected: Parsed<T::V>,
) -> bool {
    match r {
        Ok((end, value)) => {
            &&& pos <= end <= line.len()
            &&& expected == Ok::<(Seq<char>, T::V), Seq<Frame>>((line.skip(end as int), value@))
        },
        Err(trace) => {
            &&& in_line(line, trace@)
            &&& expected == Err::<(Seq<char>, T::V), Seq<Frame>>(frames(line, trace@))
        },
    }
}

proof fn lemma_frames_one(line: Seq<char>, pos: usize, kind: ErrorKind)
    ensures
        frames(line, seq![(pos, kind)]) == grammar::failure(line.skip(pos as int), kind),
{
    assert(frames(line, seq![(pos, kind)]) =~= grammar::failure(line.skip(pos as int), kind));
}

proof fn lemma_frames_push(
    line: Seq<char>,
    trace: Seq<(usize, ErrorKind)>,
    pos: usize,
    kind: ErrorKind,
)
    ensures
        frames(line, trace.push((pos, kind))) == frames(line, trace).push(
            Frame { rest: line.skip(pos as int), kind },
        ),
{
    assert(frames(line, trace.push((pos, kind))) =~= frames(line, trace).push(
        Frame { rest: line.skip(pos as int), kind },
    ));
}

/// The trace of a failure at `pos` that no rule encloses yet.
fn failure(Ghost(line): Ghost<Seq<char>>, pos: usize, kind: ErrorKind) -> (trace: Vec<
    (usize, ErrorKind),
>)
    requires
        pos <= line.len(),
    ensures
        in_line(line, trace@),
        frames(line, trace@) == grammar::failure(line.skip(pos as int), kind),
{
    let mut trace: Vec<(usize, ErrorKind)> = Vec::new();
    trace.push((pos, kind));
    proof {
        assert(trace@ =~= seq![(pos, kind)]);
        lemma_frames_one(line, pos, kind);
    }
    trace
}

/// Adds the frame of an enclosing rule or choice, which started at `pos`.
fn enclose(Ghost(line): Ghost<Seq<char>>, trace: Vec<(usize, ErrorKind)>, pos: usize, kind: ErrorKind) -> (out:
    Vec<(usize, ErrorKind)>)
    requires
        pos <= line.len(),
        in_line(line, trace@),
    ensures
        in_line(line, out@),
        frames(line, out@) == frames(line, trace@).push(
            Frame { rest: line.skip(pos as int), kind },
        ),
{
    let mut out = trace;
    out.push((pos, kind));
    proof {
        lemma_frames_push(line, trace@, pos, kind);
    }
    out
}

/// Of two failures the one that read further into the line; the second
/// where both read as far.
fn further(line: &Line, first: Vec<(usize, ErrorKind)>, second: Vec<(usize, ErrorKind)>) -> (out:
    Vec<(usize, ErrorKind)>)
    requires
        in_line(line.chars@, first@),
        in_line(line.chars@, second@),
    ensures
        in_line(line.chars@, out@),
        frames(line.chars@, out@) == grammar::further(
            frames(line.chars@, first@),
            frames(line.chars@, second@),
        ),
{
    let len = line.len();
    let left_first = if first.len() > 0 {
        len - first[0].0
    } else {
        0
    };
    let left_second = if second.len() > 0 {
        len - second[0].0
    } else {
        0
    };
    if left_first < left_second {
        first
    } else {
        second
    }
}

/// Reads the fixed word `word` at `pos`.
fn tag(line: &Line, pos: usize, word: &str) -> (r: Result<(usize, ()), Vec<(usize, ErrorKind)>>)
    requires
        line.wf(),
        pos <= line.chars@.len(),
    ensures
        agree(line.chars@, pos, r, grammar::tag(line.from(pos), word@)),
{
    let n = word.unicode_len();
    let ghost rest = line.from(pos);
    let mut matches = n <= line.len() - pos;
    let mut i: usize = 0;
    while matches && i < n
        invariant
            pos <= line.chars@.len() <= usize::MAX,
            rest == line.chars@.skip(pos as int),
            n == word@.len(),
            i <= n,
            matches ==> n <= line.chars@.len() - pos,
            matches ==> forall|j: int| 0 <= j < i ==> rest[j] == word@[j],
            !matches ==> !word@.is_prefix_of(rest),
        decreases n - i + (if matches { 1int } else { 0int }),
    {
        if line.chars[pos + i] != word.get_char(i) {
            matches = false;
            proof {
                assert(rest[i as int] == line.chars@[pos + i]);
                if word@.is_prefix_of(rest) {
                    assert(rest.subrange(0, n as int)[i as int] == word@[i as int]);
                }
            }
        } else {
            proof {
                assert(rest[i as int] == line.chars@[pos + i]);
            }
            i = i + 1;
        }
    }
    if matches {
        proof {
            assert(word@ =~= rest.subrange(0, n as int));
            assert(line.chars@.skip((pos + n) as int) =~= rest.skip(n as int));
        }
        Ok((pos + n, ()))
    } else {
        Err(failure(Ghost(line.chars@), pos, ErrorKind::Tag))
    }
}

/// Reads a field of `class` at `pos`: the longest run of its characters.
fn take_while1<'a>(line: &Line<'a>, pos: usize, class: CharClass) -> (r: Result<
    (usize, &'a str),
    Vec<(usize, ErrorKind)>,
>)
    requires
        line.wf(),
        pos <= line.chars@.len(),
    ensures
        agree(line.chars@, pos, r, grammar::take_while1(line.from(pos), class)),
        r matches Ok((end, field)) ==> pos < end && field@ == line.chars@.subrange(
            pos as int,
            end as int,
        ) && class.covers(field@),
{
    let ghost rest = line.from(pos);
    let n = line.len();
    let mut end: usize = pos;
    while end < n && class.has(line.chars[end])
        invariant
            pos <= end <= n,
            n == line.chars@.len(),
            rest == line.chars@.skip(pos as int),
            forall|i: int| 0 <= i < end - pos ==> class.contains(#[trigger] rest[i]),
        decreases n - end,
    {
        end = end + 1;
    }
    proof {
        grammar::lemma_run_len(rest, class, (end - pos) as nat);
    }
    if end == pos {
        Err(failure(Ghost(line.chars@), pos, ErrorKind::TakeWhile1))
    } else {
        let field = line.slice(pos, end);
        proof {
            assert(line.chars@.skip(end as int) =~= rest.skip(end - pos));
            assert(field@ =~= rest.take(end - pos));
        }
        Ok((end, field))
    }
}

/// Reads one space and then a field of `class`.
fn spaced<'a>(line: &Line<'a>, pos: usize, class: CharClass) -> (r: Result<
    (usize, &'a str),
    Vec<(usize, ErrorKind)>,
>)
    requires
        line.wf(),
        pos <= line.chars@.len(),
    ensures
        agree(line.chars@, pos, r, grammar::spaced(line.from(pos), class)),
{
    proof {
        reveal_strlit(" ");
        assert(" "@ =~= grammar::space());
    }
    match tag(line, pos, " ") {
        Err(trace) => Err(trace),
        Ok((after, _)) => match take_while1(line, after, class) {
            Err(trace) => Err(trace),
            Ok((end, field)) => Ok((end, field)),
        },
    }
}

/// The number that the digits from `start` up to `end` write, where it
/// fits 32 bits.
fn decimal_value(line: &Line, start: usize, end: usize) -> (value: Option<u32>)
    requires
        start <= end <= line.chars@.len(),
        CharClass::Digit.covers(line.chars@.subrange(start as int, end as int)),
    ensures
        match value {
            Some(n) => n == grammar::decimal(line.chars@.subrange(start as int, end as int)),
            None => grammar::decimal(line.chars@.subrange(start as int, end as int)) > u32::MAX,
        },
{
    let ghost digits = line.chars@.subrange(start as int, end as int);
    let mut value: u32 = 0;
    let mut i: usize = start;
    while i < end
        invariant
            start <= i <= end <= line.chars@.len(),
            digits == line.chars@.subrange(start as int, end as int),
            CharClass::Digit.covers(digits),
            value == grammar::decimal(digits.take(i - start)),
        decreases end - i,
    {
        let c = line.chars[i];
        proof {
            assert(digits[i - start] == c);
            assert(digits.take(i - start + 1).drop_last() =~= digits.take(i - start));
            assert(digits.take(i - start + 1).last() == c);
        }
        let digit: u64 = (c as u32 - '0' as u32) as u64;
        let next: u64 = value as u64 * 10 + digit;
        if next > u32::MAX as u64 {
            proof {
                grammar::lemma_decimal_prefix(digits, i - start + 1);
            }
            return None;
        }
        value = next as u32;
        i = i + 1;
    }
    proof {
        assert(digits.take(end - start) =~= digits);
    }
    Some(value)
}

/// Reads a time to live at `pos`.
fn ttl_at(line: &Line, pos: usize) -> (r: Result<(usize, u32), Vec<(usize, ErrorKind)>>)
    requires
        line.wf(),
        pos <= line.chars@.len(),
    ensures
        agree(line.chars@, pos, r, grammar::ttl(line.from(pos))),
{
    match take_while1(line, pos, CharClass::Digit) {
        Err(trace) => Err(
            enclose(Ghost(line.chars@), trace, pos, ErrorKind::Context(Rule::Ttl)),
        ),
        Ok((end, _)) => match decimal_value(line, pos, end) {
            Some(value) => Ok((end, value)),
            None => Err(failure(Ghost(line.chars@), pos, ErrorKind::Context(Rule::Ttl))),
        },
    }
}

/// Reads one space and then a time to live.
fn spaced_ttl(line: &Line, pos: usize) -> (r: Result<(usize, u32), Vec<(usize, ErrorKind)>>)
    requires
        line.wf(),
        pos <= line.chars@.len(),
    ensures
        agree(line.chars@, pos, r, grammar::spaced_ttl(line.from(pos))),
{
    proof {
        reveal_strlit(" ");
        assert(" "@ =~= grammar::space());
    }
    match tag(line, pos, " ") {
        Err(trace) => Err(trace),
        Ok((after, _)) => ttl_at(line, after),
    }
}

/// Reads the fields of an `add` at `pos`, from its keyword on.
fn add_fields<'a>(line: &Line<'a>, pos: usize) -> (r: Result<
    (usize, Command<'a>),
    Vec<(usize, ErrorKind)>,
>)
    requires
        line.wf(),
        pos <= line.chars@.len(),
    ensures
        agree(line.chars@, pos, r, grammar::add_fields(line.from(pos))),
{
    proof {
        reveal_strlit("add");
        assert("add"@ =~= grammar::word_add());
    }
    let after_word = match tag(line, pos, "add") {
        Err(trace) => { return Err(trace); },
        Ok((after_word, _)) => after_word,
    };
    let (after_name, name) = match spaced(line, after_word, CharClass::Name) {
        Err(trace) => { return Err(trace); },
        Ok(done) => done,
    };
    let (after_ttl, ttl) = match spaced_ttl(line, after_name) {
        Err(trace) => { return Err(trace); },
        Ok(done) => done,
    };
    let (after_class, class) = match spaced(line, after_ttl, CharClass::Upper) {
        Err(trace) => { return Err(trace); },
        Ok(done) => done,
    };
    let (after_type, type_) = match spaced(line, after_class, CharClass::Upper) {
        Err(trace) => { return Err(trace); },
        Ok(done) => done,
    };
    let (end, data) = match spaced(line, after_type, CharClass::Graphic) {
        Err(trace) => { return Err(trace); },
        Ok(done) => done,
    };
    Ok((end, Command::Update(Update::Add(Add { name, ttl, class, type_, data }))))
}

/// Reads the rule `add` at `pos`.
fn add_at<'a>(line: &Line<'a>, pos: usize) -> (r: Result<
    (usize, Command<'a>),
    Vec<(usize, ErrorKind)>,
>)
    requires
        line.wf(),
        pos <= line.chars@.len(),
    ensures
        agree(line.chars@, pos, r, grammar::add(line.from(pos))),
{
    match add_fields(line, pos) {
        Err(trace) => Err(
            enclose(Ghost(line.chars@), trace, pos, ErrorKind::Context(Rule::Add)),
        ),
        Ok(done) => Ok(done),
    }
}

/// Reads the keyword of a `delete` at `pos`, in either spelling.
fn delete_word(line: &Line, pos: usize) -> (r: Result<(usize, ()), Vec<(usize, ErrorKind)>>)
    requires
        line.wf(),
        pos <= line.chars@.len(),
    ensures
        agree(line.chars@, pos, r, grammar::delete_word(line.from(pos))),
{
    proof {
        reveal_strlit("delete");
        reveal_strlit("del");
        assert("delete"@ =~= grammar::word_delete());
        assert("del"@ =~= grammar::word_del());
    }
    match tag(line, pos, "delete") {
        Ok(done) => Ok(done),
        Err(long) => match tag(line, pos, "del") {
            Ok(done) => Ok(done),
            Err(short) => {
                let trace = further(line, long, short);
                Err(enclose(Ghost(line.chars@), trace, pos, ErrorKind::Alt))
            },
        },
    }
}

/// Reads the fields of a `delete` at `pos`, from its keyword on.
fn delete_fields<'a>(line: &Line<'a>, pos: usize) -> (r: Result<
    (usize, Command<'a>),
    Vec<(usize, ErrorKind)>,
>)
    requires
        line.wf(),
        pos <= line.chars@.len(),
    ensures
        agree(line.chars@, pos, r, grammar::delete_fields(line.from(pos))),
{
    let after_word = match delete_word(line, pos) {
        Err(trace) => { return Err(trace); },
        Ok((after_word, _)) => after_word,
    };
    let (after_name, name) = match spaced(line, after_word, CharClass::Name) {
        Err(trace) => { return Err(trace); },
        Ok(done) => done,
    };
    let (after_class, class) = match spaced(line, after_name, CharClass::Upper) {
        Err(trace) => { return Err(trace); },
        Ok(done) => done,
    };
    let (end, type_) = match spaced(line, after_class, CharClass::Upper) {
        Err(trace) => { return Err(trace); },
        Ok(done) => done,
    };
    Ok((end, Command::Update(Update::Delete(Delete { name, class, type_ }))))
}

/// Reads the rule `delete` at `pos`.
fn delete_at<'a>(line: &Line<'a>, pos: usize) -> (r: Result<
    (usize, Command<'a>),
    Vec<(usize, ErrorKind)>,
>)
    requires
        line.wf(),
        pos <= line.chars@.len(),
    ensures
        agree(line.chars@, pos, r, grammar::delete(line.from(pos))),
{
    match delete_fields(line, pos) {
        Err(trace) => Err(
            enclose(Ghost(line.chars@), trace, pos, ErrorKind::Context(Rule::Delete)),
        ),
        Ok(done) => Ok(done),
    }
}

/// Reads the rule `add or delete` at `pos`.
fn add_or_delete_at<'a>(line: &Line<'a>, pos: usize) -> (r: Result<
    (usize, Command<'a>),
    Vec<(usize, ErrorKind)>,
>)
    requires
        line.wf(),
        pos <= line.chars@.len(),
    ensures
        agree(line.chars@, pos, r, grammar::add_or_delete(line.from(pos))),
{
    match add_at(line, pos) {
        Ok(done) => Ok(done),
        Err(added) => match delete_at(line, pos) {
            Ok(done) => Ok(done),
            Err(deleted) => {
                let trace = further(line, added, deleted);
                let trace = enclose(Ghost(line.chars@), trace, pos, ErrorKind::Alt);
                Err(
                    enclose(
                        Ghost(line.chars@),
                        trace,
                        pos,
                        ErrorKind::Context(Rule::AddOrDelete),
                    ),
                )
            },
        },
    }
}

/// Reads the rule `update` at `pos`.
fn update_at<'a>(line: &Line<'a>, pos: usize) -> (r: Result<
    (usize, Command<'a>),
    Vec<(usize, ErrorKind)>,
>)
    requires
        line.wf(),
        pos <= line.chars@.len(),
    ensures
        agree(line.chars@, pos, r, grammar::update(line.from(pos))),
{
    proof {
        reveal_strlit("update");
        reveal_strlit(" ");
        assert("update"@ =~= grammar::word_update());
        assert(" "@ =~= grammar::space());
    }
    let inner = match tag(line, pos, "update") {
        Err(trace) => Err(trace),
        Ok((after_word, _)) => match tag(line, after_word, " ") {
            Err(trace) => Err(trace),
            Ok((after_space, _)) => add_or_delete_at(line, after_space),
        },
    };
    match inner {
        Err(trace) => Err(
            enclose(Ghost(line.chars@), trace, pos, ErrorKind::Context(Rule::Update)),
        ),
        Ok(done) => Ok(done),
    }
}

/// Reads at `pos` a keyword that is a whole command.
fn keyword_at<'a>(line: &Line<'a>, pos: usize, rule: Rule, word: &str, value: Command<'a>) -> (r:
    Result<(usize, Command<'a>), Vec<(usize, ErrorKind)>>)
    requires
        line.wf(),
        pos <= line.chars@.len(),
    ensures
        agree(line.chars@, pos, r, grammar::keyword(line.from(pos), rule, word@, value@)),
{
    match tag(line, pos, word) {
        Err(trace) => Err(enclose(Ghost(line.chars@), trace, pos, ErrorKind::Context(rule))),
        Ok((end, _)) => Ok((end, value)),
    }
}

fn help_at<'a>(line: &Line<'a>, pos: usize) -> (r: Result<
    (usize, Command<'a>),
    Vec<(usize, ErrorKind)>,
>)
    requires
        line.wf(),
        pos <= line.chars@.len(),
    ensures
        agree(line.chars@, pos, r, grammar::help(line.from(pos))),
{
    proof {
        reveal_strlit("help");
        assert("help"@ =~= grammar::word_help());
    }
    keyword_at(line, pos, Rule::Help, "help", Command::Help)
}

fn send_at<'a>(line: &Line<'a>, pos: usize) -> (r: Result<
    (usize, Command<'a>),
    Vec<(usize, ErrorKind)>,
>)
    requires
        line.wf(),
        pos <= line.chars@.len(),
    ensures
        agree(line.chars@, pos, r, grammar::send(line.from(pos))),
{
    proof {
        reveal_strlit("send");
        assert("send"@ =~= grammar::word_send());
    }
    keyword_at(line, pos, Rule::Send, "send", Command::Send)
}

fn quit_at<'a>(line: &Line<'a>, pos: usize) -> (r: Result<
    (usize, Command<'a>),
    Vec<(usize, ErrorKind)>,
>)
    requires
        line.wf(),
        pos <= line.chars@.len(),
    ensures
        agree(line.chars@, pos, r, grammar::quit(line.from(pos))),
{
    proof {
        reveal_strlit("quit");
        assert("quit"@ =~= grammar::word_quit());
    }
    keyword_at(line, pos, Rule::Quit, "quit", Command::Quit)
}

fn drop_at<'a>(line: &Line<'a>, pos: usize) -> (r: Result<
    (usize, Command<'a>),
    Vec<(usize, ErrorKind)>,
>)
    requires
        line.wf(),
        pos <= line.chars@.len(),
    ensures
        agree(line.chars@, pos, r, grammar::drop(line.from(pos))),
{
    proof {
        reveal_strlit("drop");
        assert("drop"@ =~= grammar::word_drop());
    }
    keyword_at(line, pos, Rule::Drop, "drop", Command::Drop)
}

/// Reads the rule `command` at `pos`.
fn command_at<'a>(line: &Line<'a>, pos: usize) -> (r: Result<
    (usize, Command<'a>),
    Vec<(usize, ErrorKind)>,
>)
    requires
        line.wf(),
        pos <= line.chars@.len(),
    ensures
        agree(line.chars@, pos, r, grammar::command(line.from(pos))),
{
    let trace = match help_at(line, pos) {
        Ok(done) => {
            return Ok(done);
        },
        Err(trace) => trace,
    };
    let trace = match send_at(line, pos) {
        Ok(done) => {
            return Ok(done);
        },
        Err(next) => further(line, trace, next),
    };
    let trace = match quit_at(line, pos) {
        Ok(done) => {
            return Ok(done);
        },
        Err(next) => further(line, trace, next),
    };
    let trace = match drop_at(line, pos) {
        Ok(done) => {
            return Ok(done);
        },
        Err(next) => further(line, trace, next),
    };
    let trace = match update_at(line, pos) {
        Ok(done) => {
            return Ok(done);
        },
        Err(next) => further(line, trace, next),
    };
    let trace = match add_at(line, pos) {
        Ok(done) => {
            return Ok(done);
        },
        Err(next) => further(line, trace, next),
    };
    let trace = match delete_at(line, pos) {
        Ok(done) => {
            return Ok(done);
        },
        Err(next) => further(line, trace, next),
    };
    let trace = enclose(Ghost(line.chars@), trace, pos, ErrorKind::Alt);
    Err(enclose(Ghost(line.chars@), trace, pos, ErrorKind::Context(Rule::Command)))
}

/// The trace of a failure, with the text in place of each position.
fn error_of<'a>(line: &Line<'a>, trace: Vec<(usize, ErrorKind)>) -> (e: ParseError<'a>)
    requires
        line.wf(),
        in_line(line.chars@, trace@),
    ensures
        e@ == frames(line.chars@, trace@),
{
    let mut errors: Vec<(&'a str, ErrorKind)> = Vec::new();
    let mut i: usize = 0;
    while i < trace.len()
        invariant
            line.wf(),
            in_line(line.chars@, trace@),
            i <= trace@.len(),
            errors@.len() == i,
            forall|j: int|
                0 <= j < i ==> (#[trigger] errors@[j]).0@ == line.chars@.skip(trace@[j].0 as int)
                    && errors@[j].1 == trace@[j].1,
        decreases trace@.len() - i,
    {
        let pos = trace[i].0;
        let kind = trace[i].1;
        errors.push((line.rest(pos), kind));
        i = i + 1;
    }
    let e = ParseError { errors };
    assert(e@ =~= frames(line.chars@, trace@));
    e
}

/// What was read from the start of the line, with the text left over in
/// place of its position.
fn finish<'a, T: View>(
    line: &Line<'a>,
    r: Result<(usize, T), Vec<(usize, ErrorKind)>>,
    Ghost(expected): Ghost<Parsed<T::V>>,
) -> (out: Result<(&'a str, T), ParseError<'a>>)
    requires
        line.wf(),
        agree(line.chars@, 0, r, expected),
    ensures
        outcome(out) == expected,
{
    match r {
        Ok((end, value)) => Ok((line.rest(end), value)),
        Err(trace) => Err(error_of(line, trace)),
    }
}

/// Reads the keyword `help`.
pub fn help<'a>(input: &'a str) -> (r: Result<(&'a str, Command<'a>), ParseError<'a>>)
    ensures
        outcome(r) == grammar::help(input@),
{
    let line = Line::new(input);
    assert(line.from(0) =~= input@);
    let r = help_at(&line, 0);
    finish(&line, r, Ghost(grammar::help(input@)))
}

/// Reads the keyword `send`.
pub fn send<'a>(input: &'a str) -> (r: Result<(&'a str, Command<'a>), ParseError<'a>>)
    ensures
        outcome(r) == grammar::send(input@),
{
    let line = Line::new(input);
    assert(line.from(0) =~= input@);
    let r = send_at(&line, 0);
    finish(&line, r, Ghost(grammar::send(input@)))
}

/// Reads the keyword `quit`.
pub fn quit<'a>(input: &'a str) -> (r: Result<(&'a str, Command<'a>), ParseError<'a>>)
    ensures
        outcome(r) == grammar::quit(input@),
{
    let line = Line::new(input);
    assert(line.from(0) =~= input@);
    let r = quit_at(&line, 0);
    finish(&line, r, Ghost(grammar::quit(input@)))
}

/// Reads the keyword `drop`.
pub fn drop<'a>(input: &'a str) -> (r: Result<(&'a str, Command<'a>), ParseError<'a>>)
    ensures
        outcome(r) == grammar::drop(input@),
{
    let line = Line::new(input);
    assert(line.from(0) =~= input@);
    let r = drop_at(&line, 0);
    finish(&line, r, Ghost(grammar::drop(input@)))
}

/// Reads a time to live: decimal digits whose number fits 32 bits.
pub fn ttl<'a>(input: &'a str) -> (r: Result<(&'a str, u32), ParseError<'a>>)
    ensures
        outcome(r) == grammar::ttl(input@),
{
    let line = Line::new(input);
    assert(line.from(0) =~= input@);
    let r = ttl_at(&line, 0);
    finish(&line, r, Ghost(grammar::ttl(input@)))
}

/// Reads an `add` with its five fields.
pub fn add<'a>(input: &'a str) -> (r: Result<(&'a str, Command<'a>), ParseError<'a>>)
    ensures
        outcome(r) == grammar::add(input@),
{
    let line = Line::new(input);
    assert(line.from(0) =~= input@);
    let r = add_at(&line, 0);
    finish(&line, r, Ghost(grammar::add(input@)))
}

/// Reads a `delete`, spelled `delete` or `del`, with its three fields.
pub fn delete<'a>(input: &'a str) -> (r: Result<(&'a str, Command<'a>), ParseError<'a>>)
    ensures
        outcome(r) == grammar::delete(input@),
{
    let line = Line::new(input);
    assert(line.from(0) =~= input@);
    let r = delete_at(&line, 0);
    finish(&line, r, Ghost(grammar::delete(input@)))
}

/// Reads an `add` or, where the input is none, a `delete`.
pub fn add_or_delete<'a>(input: &'a str) -> (r: Result<(&'a str, Command<'a>), ParseError<'a>>)
    ensures
        outcome(r) == grammar::add_or_delete(input@),
{
    let line = Line::new(input);
    assert(line.from(0) =~= input@);
    let r = add_or_delete_at(&line, 0);
    finish(&line, r, Ghost(grammar::add_or_delete(input@)))
}

/// Reads `update`, one space, and an `add` or a `delete`.
pub fn update<'a>(input: &'a str) -> (r: Result<(&'a str, Command<'a>), ParseError<'a>>)
    ensures
        outcome(r) == grammar::update(input@),
{
    let line = Line::new(input);
    assert(line.from(0) =~= input@);
    let r = update_at(&line, 0);
    finish(&line, r, Ghost(grammar::update(input@)))
}

/// Reads one command from the start of `input` and hands back what follows it.
pub fn command<'a>(input: &'a str) -> (r: Result<(&'a str, Command<'a>), ParseError<'a>>)
    ensures
        outcome(r) == grammar::command(input@),
{
    let line = Line::new(input);
    assert(line.from(0) =~= input@);
    let r = command_at(&line, 0);
    finish(&line, r, Ghost(grammar::command(input@)))
}

/// What [`parse`] returns, as the grammar states it.
pub open spec fn parsed<'a>(r: Result<Command<'a>, ParseError<'a>>) -> Result<
    CommandView,
    Seq<Frame>,
> {
    match r {
        Ok(value) => Ok(value@),
        Err(e) => Err(e@),
    }
}

/// Reads a whole line: one command and nothing after it. Anything left
/// over, be it one space, is an error of its own kind.
pub fn parse<'a>(input: &'a str) -> (r: Result<Command<'a>, ParseError<'a>>)
    ensures
        parsed(r) == grammar::parse(input@),
{
    let line = Line::new(input);
    assert(line.from(0) =~= input@);
    match command_at(&line, 0) {
        Ok((end, value)) => {
            if end == line.len() {
                Ok(value)
            } else {
                let trace = failure(
                    Ghost(line.chars@),
                    0,
                    ErrorKind::Context(Rule::TrailingGarbage),
                );
                Err(error_of(&line, trace))
            }
        },
        Err(trace) => Err(error_of(&line, trace)),
    }
}

} // verus!
