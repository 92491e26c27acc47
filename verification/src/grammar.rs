//! The command grammar, stated as mathematical functions on character
//! sequences.
//!
//! ```text
//! command := help | send | quit | drop | update | add | delete
//! update  := "update" " " (add | delete)
//! add     := "add" " " name " " ttl " " token " " token " " data
//! delete  := ("delete" | "del") " " name " " token " " token
//! name    := (lower | digit | "-" | ".")+
//! ttl     := digit+            ; must fit 32 bits
//! token   := upper+
//! data    := graphic+
//! ```
//!
//! Every rule maps the text still to be read either to the text left over
//! and the value recognised, or to the trace of the failure: the innermost
//! frame first, which stands at the token that is wrong, then one frame
//! for each enclosing rule or choice. Where no alternative of a choice
//! matches, the trace is that of the alternative that read furthest.

use vstd::prelude::*;

verus! {

/// The character classes that the fields of a command are drawn from.
/// Classification is strict ASCII.
#[derive(Clone, Copy, Debug, PartialEq, Eq)]
pub enum CharClass {
    /// Lower-case letters, digits, `-` and `.`.
    Name,
    /// Decimal digits.
    Digit,
    /// Upper-case letters.
    Upper,
    /// Printable characters other than the space.
    Graphic,
}

impl CharClass {
    /// Whether `c` belongs to the class.
    pub open spec fn contains(self, c: char) -> bool {
        match self {
            CharClass::Name => ('a' <= c && c <= 'z') || ('0' <= c && c <= '9') || c == '-' || c
                == '.',
            CharClass::Digit => '0' <= c && c <= '9',
            CharClass::Upper => 'A' <= c && c <= 'Z',
            CharClass::Graphic => '!' <= c && c <= '~',
        }
    }

    /// Tells whether `c` belongs to the class.
    pub fn has(self, c: char) -> (b: bool)
        ensures
            b == self.contains(c),
    {
        match self {
            CharClass::Name => ('a' <= c && c <= 'z') || ('0' <= c && c <= '9') || c == '-' || c
                == '.',
            CharClass::Digit => '0' <= c && c <= '9',
            CharClass::Upper => 'A' <= c && c <= 'Z',
            CharClass::Graphic => '!' <= c && c <= '~',
        }
    }

    /// Every character of `s` belongs to the class.
    pub open spec fn covers(self, s: Seq<char>) -> bool {
        forall|i: int| 0 <= i < s.len() ==> self.contains(#[trigger] s[i])
    }
}

/// The rules of the grammar that leave a frame in the trace of a failure.
#[derive(Clone, Copy, Debug, PartialEq, Eq)]
pub enum Rule {
    Command,
    Help,
    Send,
    Quit,
    Drop,
    Update,
    AddOrDelete,
    Add,
    Delete,
    Ttl,
    TrailingGarbage,
}

/// What went wrong at one frame of a failure.
#[derive(Clone, Copy, Debug, PartialEq, Eq)]
pub enum ErrorKind {
    /// A keyword or a separator was expected and something else was found.
    Tag,
    /// A field was expected and its first character is not of its class.
    TakeWhile1,
    /// None of the alternatives of a choice matched.
    Alt,
    /// The failure lies inside this rule.
    Context(Rule),
}

/// What an `add` asks for.
pub struct AddView {
    pub name: Seq<char>,
    pub ttl: u32,
    pub class: Seq<char>,
    pub type_: Seq<char>,
    pub data: Seq<char>,
}

/// What a `delete` asks for.
pub struct DeleteView {
    pub name: Seq<char>,
    pub class: Seq<char>,
    pub type_: Seq<char>,
}

/// A change to the record set.
pub enum UpdateView {
    Add(AddView),
    Delete(DeleteView),
}

impl UpdateView {
    /// The fully qualified name that the change is about.
    pub open spec fn name(self) -> Seq<char> {
        match self {
            UpdateView::Add(r) => r.name,
            UpdateView::Delete(r) => r.name,
        }
    }
}

/// A command, as the grammar recognises it.
pub enum CommandView {
    Help,
    Send,
    Quit,
    Drop,
    Update(UpdateView),
}

/// One frame of a failure: what was left of the line where the rule or
/// token started, and what went wrong there.
pub struct Frame {
    pub rest: Seq<char>,
    pub kind: ErrorKind,
}

/// What reading one rule gives: the text left over with the value, or the
/// trace of the failure.
pub type Parsed<T> = Result<(Seq<char>, T), Seq<Frame>>;

/// The keywords and the separator, letter by letter.
pub open spec fn word_help() -> Seq<char> {
    seq!['h', 'e', 'l', 'p']
}

pub open spec fn word_send() -> Seq<char> {
    seq!['s', 'e', 'n', 'd']
}

pub open spec fn word_quit() -> Seq<char> {
    seq!['q', 'u', 'i', 't']
}

pub open spec fn word_drop() -> Seq<char> {
    seq!['d', 'r', 'o', 'p']
}

pub open spec fn word_update() -> Seq<char> {
    seq!['u', 'p', 'd', 'a', 't', 'e']
}

pub open spec fn word_add() -> Seq<char> {
    seq!['a', 'd', 'd']
}

pub open spec fn word_delete() -> Seq<char> {
    seq!['d', 'e', 'l', 'e', 't', 'e']
}

pub open spec fn word_del() -> Seq<char> {
    seq!['d', 'e', 'l']
}

pub open spec fn space() -> Seq<char> {
    seq![' ']
}

/// The value of one decimal digit.
pub open spec fn digit_value(c: char) -> nat {
    (c as u32 - '0' as u32) as nat
}

/// The number that a sequence of decimal digits writes. Leading zeros do
/// not count.
pub open spec fn decimal(digits: Seq<char>) -> nat
    decreases digits.len(),
{
    if digits.len() == 0 {
        0
    } else {
        decimal(digits.drop_last()) * 10 + digit_value(digits.last())
    }
}

/// The length of the longest prefix of `input` made of characters of
/// `class`.
pub open spec fn run_len(input: Seq<char>, class: CharClass) -> nat
    decreases input.len(),
{
    if input.len() > 0 && class.contains(input[0]) {
        1 + run_len(input.skip(1), class)
    } else {
        0
    }
}

/// The trace of a failure that no rule encloses yet.
pub open spec fn failure(rest: Seq<char>, kind: ErrorKind) -> Seq<Frame> {
    seq![Frame { rest, kind }]
}

/// A fixed word: it is read when the input starts with it.
pub open spec fn tag(input: Seq<char>, word: Seq<char>) -> Parsed<()> {
    if word.is_prefix_of(input) {
        Ok((input.skip(word.len() as int), ()))
    } else {
        Err(failure(input, ErrorKind::Tag))
    }
}

/// A field: the longest run of characters of `class`, which must not be
/// empty.
pub open spec fn take_while1(input: Seq<char>, class: CharClass) -> Parsed<Seq<char>> {
    let n = run_len(input, class) as int;
    if n == 0 {
        Err(failure(input, ErrorKind::TakeWhile1))
    } else {
        Ok((input.skip(n), input.take(n)))
    }
}

/// A failure inside `rule`, which started at `input`, gets a frame for it.
pub open spec fn context<T>(input: Seq<char>, rule: Rule, inner: Parsed<T>) -> Parsed<T> {
    match inner {
        Ok(done) => Ok(done),
        Err(trace) => Err(trace.push(Frame { rest: input, kind: ErrorKind::Context(rule) })),
    }
}

/// How much of the line a failure left unread: what was left where its
/// innermost frame stands, the first of the trace.
pub open spec fn left_over(trace: Seq<Frame>) -> nat {
    if trace.len() > 0 {
        trace[0].rest.len()
    } else {
        0
    }
}

/// Of two failures the one that read further into the line; the second
/// where both read as far.
pub open spec fn further(first: Seq<Frame>, second: Seq<Frame>) -> Seq<Frame> {
    if left_over(first) < left_over(second) {
        first
    } else {
        second
    }
}

/// The first of two alternatives that succeeds. Where both fail, the
/// failure is that of the one that read further into the line, so that it
/// stands at the token that is wrong.
pub open spec fn or_else<T>(first: Parsed<T>, second: Parsed<T>) -> Parsed<T> {
    match first {
        Ok(done) => Ok(done),
        Err(a) => match second {
            Ok(done) => Ok(done),
            Err(b) => Err(further(a, b)),
        },
    }
}

/// A choice that started at `input`: the failure of the alternative that
/// read furthest gets a frame for the choice.
pub open spec fn alt<T>(input: Seq<char>, alternatives: Parsed<T>) -> Parsed<T> {
    match alternatives {
        Ok(done) => Ok(done),
        Err(trace) => Err(trace.push(Frame { rest: input, kind: ErrorKind::Alt })),
    }
}

/// A keyword that is a whole command.
pub open spec fn keyword<T>(input: Seq<char>, rule: Rule, word: Seq<char>, value: T) -> Parsed<T> {
    context(
        input,
        rule,
        match tag(input, word) {
            Ok((rest, _)) => Ok((rest, value)),
            Err(trace) => Err(trace),
        },
    )
}

/// One space and then a field of `class`.
pub open spec fn spaced(input: Seq<char>, class: CharClass) -> Parsed<Seq<char>> {
    match tag(input, space()) {
        Ok((rest, _)) => take_while1(rest, class),
        Err(trace) => Err(trace),
    }
}

/// A time to live: a run of digits whose number fits 32 bits. A run that
/// is missing leaves its frames; a number that is too large leaves the
/// frame of the rule, where the digits start.
pub open spec fn ttl(input: Seq<char>) -> Parsed<u32> {
    match context(input, Rule::Ttl, take_while1(input, CharClass::Digit)) {
        Ok((rest, digits)) => if decimal(digits) <= u32::MAX {
            Ok((rest, decimal(digits) as u32))
        } else {
            Err(failure(input, ErrorKind::Context(Rule::Ttl)))
        },
        Err(trace) => Err(trace),
    }
}

/// One space and then a time to live.
pub open spec fn spaced_ttl(input: Seq<char>) -> Parsed<u32> {
    match tag(input, space()) {
        Ok((rest, _)) => ttl(rest),
        Err(trace) => Err(trace),
    }
}

/// The fields of an `add`, from its keyword on.
pub open spec fn add_fields(input: Seq<char>) -> Parsed<CommandView> {
    match tag(input, word_add()) {
        Err(trace) => Err(trace),
        Ok((r0, _)) => match spaced(r0, CharClass::Name) {
            Err(trace) => Err(trace),
            Ok((r1, name)) => match spaced_ttl(r1) {
                Err(trace) => Err(trace),
                Ok((r2, ttl)) => match spaced(r2, CharClass::Upper) {
                    Err(trace) => Err(trace),
                    Ok((r3, class)) => match spaced(r3, CharClass::Upper) {
                        Err(trace) => Err(trace),
                        Ok((r4, type_)) => match spaced(r4, CharClass::Graphic) {
                            Err(trace) => Err(trace),
                            Ok((r5, data)) => Ok(
                                (
                                    r5,
                                    CommandView::Update(
                                        UpdateView::Add(AddView { name, ttl, class, type_, data }),
                                    ),
                                ),
                            ),
                        },
                    },
                },
            },
        },
    }
}

/// The rule `add`.
pub open spec fn add(input: Seq<char>) -> Parsed<CommandView> {
    context(input, Rule::Add, add_fields(input))
}

/// The keyword of a `delete`, in either spelling; the long one is tried
/// first.
pub open spec fn delete_word(input: Seq<char>) -> Parsed<()> {
    alt(input, or_else(tag(input, word_delete()), tag(input, word_del())))
}

/// The fields of a `delete`, from its keyword on.
pub open spec fn delete_fields(input: Seq<char>) -> Parsed<CommandView> {
    match delete_word(input) {
        Err(trace) => Err(trace),
        Ok((r0, _)) => match spaced(r0, CharClass::Name) {
            Err(trace) => Err(trace),
            Ok((r1, name)) => match spaced(r1, CharClass::Upper) {
                Err(trace) => Err(trace),
                Ok((r2, class)) => match spaced(r2, CharClass::Upper) {
                    Err(trace) => Err(trace),
                    Ok((r3, type_)) => Ok(
                        (
                            r3,
                            CommandView::Update(
                                UpdateView::Delete(DeleteView { name, class, type_ }),
                            ),
                        ),
                    ),
                },
            },
        },
    }
}

/// The rule `delete`.
pub open spec fn delete(input: Seq<char>) -> Parsed<CommandView> {
    context(input, Rule::Delete, delete_fields(input))
}

/// The rule `add or delete`: an `add` is tried first. Where the input is
/// neither, the failure is that of the one that read further.
pub open spec fn add_or_delete(input: Seq<char>) -> Parsed<CommandView> {
    context(input, Rule::AddOrDelete, alt(input, or_else(self::add(input), delete(input))))
}

/// The rule `update`: the keyword, one space, then an `add` or a `delete`.
pub open spec fn update(input: Seq<char>) -> Parsed<CommandView> {
    context(
        input,
        Rule::Update,
        match tag(input, word_update()) {
            Err(trace) => Err(trace),
            Ok((r0, _)) => match tag(r0, space()) {
                Err(trace) => Err(trace),
                Ok((r1, _)) => add_or_delete(r1),
            },
        },
    )
}

/// The rules of the four keywords that are whole commands.
pub open spec fn help(input: Seq<char>) -> Parsed<CommandView> {
    keyword(input, Rule::Help, word_help(), CommandView::Help)
}

pub open spec fn send(input: Seq<char>) -> Parsed<CommandView> {
    keyword(input, Rule::Send, word_send(), CommandView::Send)
}

pub open spec fn quit(input: Seq<char>) -> Parsed<CommandView> {
    keyword(input, Rule::Quit, word_quit(), CommandView::Quit)
}

pub open spec fn drop(input: Seq<char>) -> Parsed<CommandView> {
    keyword(input, Rule::Drop, word_drop(), CommandView::Drop)
}

/// The rule `command`: the first alternative that matches, in this order.
/// Where none matches, the failure is that of the alternative that read
/// furthest into the line, the last of those that read as far.
pub open spec fn command(input: Seq<char>) -> Parsed<CommandView> {
    context(
        input,
        Rule::Command,
        alt(
            input,
            or_else(
                or_else(
                    or_else(
                        or_else(
                            or_else(or_else(help(input), send(input)), quit(input)),
                            drop(input),
                        ),
                        update(input),
                    ),
                    self::add(input),
                ),
                delete(input),
            ),
        ),
    )
}

/// A whole line: one command and nothing after it.
pub open spec fn parse(input: Seq<char>) -> Result<CommandView, Seq<Frame>> {
    match command(input) {
        Ok((rest, value)) => if rest.len() == 0 {
            Ok(value)
        } else {
            Err(failure(input, ErrorKind::Context(Rule::TrailingGarbage)))
        },
        Err(trace) => Err(trace),
    }
}

/// A prefix of `n` characters of the class that cannot be extended is the
/// longest one.
pub proof fn lemma_run_len(input: Seq<char>, class: CharClass, n: nat)
    requires
        n <= input.len(),
        forall|i: int| 0 <= i < n ==> class.contains(#[trigger] input[i]),
        n == input.len() || !class.contains(input[n as int]),
    ensures
        run_len(input, class) == n,
    decreases n,
{
    if n > 0 {
        let tail = input.skip(1);
        assert forall|i: int| 0 <= i < n - 1 implies class.contains(#[trigger] tail[i]) by {
            assert(tail[i] == input[i + 1]);
        }
        lemma_run_len(tail, class, (n - 1) as nat);
    }
}

/// The number of a prefix of digits is at most the number of the whole.
pub proof fn lemma_decimal_prefix(digits: Seq<char>, k: int)
    requires
        0 <= k <= digits.len(),
    ensures
        decimal(digits.take(k)) <= decimal(digits),
    decreases digits.len() - k,
{
    if k == digits.len() {
        assert(digits.take(k) =~= digits);
    } else {
        lemma_decimal_prefix(digits.drop_last(), k);
        assert(digits.drop_last().take(k) =~= digits.take(k));
    }
}

} // verus!
