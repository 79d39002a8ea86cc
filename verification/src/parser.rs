use vstd::prelude::*;

use crate::position::Pos;
use crate::semantics::{spec_one_of, spec_parse};
use crate::value::{val_view, Failure, SpecFail, SpecVal, Val};

verus! {

/// The outcome of attempting one parse: exactly one of the three shapes
/// holds. `Recoverable` means "this alternative does not apply here; a
/// sibling may"; `Fatal` means "this alternative applied, and the input is
/// invalid": no sibling is tried after it.
#[derive(Debug, PartialEq, Eq)]
pub enum ParseResult {
    /// The parse succeeded; the cursor now stands at the position.
    Success(Val, Pos),
    /// The parser could not match; the position is where the mismatch was
    /// detected. Alternation may try a sibling (this is what backtracking means).
    Recoverable(Failure, Pos),
    /// The parser matched far enough to commit, but the input is invalid.
    Fatal(Val, Pos),
}

/// The mathematical model of a `ParseResult`.
pub enum SpecResult {
    Success(SpecVal, Pos),
    Recoverable(SpecFail, Pos),
    Fatal(SpecVal, Pos),
}

impl View for ParseResult {
    type V = SpecResult;

    open spec fn view(&self) -> SpecResult {
        match *self {
            ParseResult::Success(ref v, p) => SpecResult::Success(val_view(*v), p),
            ParseResult::Recoverable(ref f, p) => SpecResult::Recoverable(crate::value::fail_view(*f), p),
            ParseResult::Fatal(ref e, p) => SpecResult::Fatal(val_view(*e), p),
        }
    }
}

/// A transformation of a success (or fatal-error) value, applied by `map`
/// and `map_err`. Failed parses never see it.
#[derive(Debug)]
pub enum MapFn {
    /// Replace the value with a fixed one.
    Const(Val),
    /// Join the characters collected in a list value into a text value;
    /// any other value joins to the empty text.
    JoinChars,
}

/// A transformation of a recoverable-failure value, applied by `map_fail`.
#[derive(Debug)]
pub enum FailFn {
    /// Replace the failure with a fixed one.
    Const(Failure),
}

/// A test on a value, used by `filter` and by `Cont::ErrIf`.
#[derive(Debug)]
pub enum Pred {
    /// The value is a Unicode white-space character.
    IsWhitespace,
    /// The value is an ASCII letter.
    IsLetter,
    /// The value is an ASCII digit.
    IsDigit,
    /// The value is exactly this character.
    CharIs(char),
    /// The value is a text equal to one of these.
    TextIn(Vec<Vec<char>>),
}

/// What `and_then` does with the value of a successful first parse.
#[derive(Debug)]
pub enum Cont {
    /// Run the second parser from where the first stopped, then yield the
    /// first parser's value.
    SeqKeepFirst(Box<Parser>),
    /// Run the second parser from where the first stopped and yield its value.
    SeqKeepSecond(Box<Parser>),
    /// Turn the success into a fatal error when the value satisfies the
    /// test, else keep it.
    ErrIf(Pred, Val),
}

/// The policy by which alternation merges the payloads of two recoverable
/// failures. It is chosen per call site: `or` is generic over it.
#[derive(Debug, Clone, Copy, PartialEq, Eq, Structural)]
pub enum Strategy {
    /// Discard all detail.
    Discard,
    /// Keep only the first failure.
    KeepFirst,
    /// Keep only the last failure.
    KeepLast,
    /// Keep every failure with the position where it was detected, in
    /// order, as a `Failure::Group`.
    Collect,
}

/// A parsing value: a named, reusable unit of behavior. Its meaning is the
/// function `spec_parse` of the syntax under `node`; the name is metadata
/// for diagnostics and never consulted for semantics.
#[derive(Debug)]
pub struct Parser {
    /// A human-readable name, useful when debugging a grammar.
    pub name: String,
    /// The syntax of this parser; `spec_parse` gives it its meaning.
    pub node: Node,
}

/// The syntax of a parsing value.
#[derive(Debug)]
pub enum Node {
    /// Succeed with this value, consuming nothing.
    Ret(Val),
    /// Recoverably fail with this value, consuming nothing.
    FailWith(Failure),
    /// Fatally error with this value, consuming nothing.
    ErrWith(Val),
    /// Succeed with the current cursor as the value, consuming nothing.
    Mark,
    /// Consume one character, recoverably failing only at end of input.
    Next,
    /// Succeed exactly at end of input, consuming nothing.
    AtEnd,
    /// Consume exactly this text where it stands at the cursor.
    Expect(Vec<char>),
    /// Transform the success value.
    MapVal(Box<Parser>, MapFn),
    /// Transform the recoverable-failure value.
    MapFail(Box<Parser>, FailFn),
    /// Transform the fatal-error value.
    MapErr(Box<Parser>, MapFn),
    /// On success, continue as the continuation says, from the stop position.
    AndThen(Box<Parser>, Cont),
    /// On recoverable failure, run the second parser from the original
    /// position, so a recovery attempt re-reads what the first consumed.
    AndThenFail(Box<Parser>, Box<Parser>),
    /// On fatal error, run the second parser from the original position.
    AndThenErr(Box<Parser>, Box<Parser>),
    /// Try the first parser; on recoverable failure try the second from the
    /// same start, merging the payloads by the strategy when both fail.
    Or(Box<Parser>, Box<Parser>, Strategy),
    /// Try each parser in order from the same start; the first success or
    /// fatal error wins, and when every alternative recoverably fails the
    /// failures are collected in order.
    OneOf(Vec<Parser>),
    /// Keep a success only when its value passes the test; else recoverably
    /// fail with the given value at the original position, undoing any
    /// cursor advance.
    Filter(Box<Parser>, Pred, Failure),
    /// Success wraps in an optional value; recoverable failure becomes a
    /// success with the absent optional, consuming nothing. Fatal errors
    /// are never swallowed.
    Maybe(Box<Parser>),
    /// Apply the parser greedily, collecting the values in order; the first
    /// recoverable failure ends the repetition, which never fails itself.
    Repeat0(Box<Parser>),
    /// Like `Repeat0`, but the first application must succeed, else its
    /// failure propagates unchanged.
    Repeat1(Box<Parser>),
    /// Succeed with no value exactly when the parser recoverably fails,
    /// and recoverably fail when it succeeds; consumes nothing either way.
    /// A fatal error propagates.
    Not(Box<Parser>),
}

/// Whether `c` counts as whitespace for the whitespace primitives: the
/// Unicode White_Space characters.
pub open spec fn is_whitespace_char(c: char) -> bool {
    c == '\t' || c == '\n' || c == '\u{b}' || c == '\u{c}' || c == '\r' || c == ' '
        || c == '\u{85}' || c == '\u{a0}' || c == '\u{1680}' || ('\u{2000}' <= c && c
        <= '\u{200a}') || c == '\u{2028}' || c == '\u{2029}' || c == '\u{202f}' || c == '\u{205f}'
        || c == '\u{3000}'
}

/// Whether `c` is an ASCII letter.
pub open spec fn is_letter_char(c: char) -> bool {
    ('a' <= c && c <= 'z') || ('A' <= c && c <= 'Z')
}

/// Whether `c` is an ASCII digit.
pub open spec fn is_digit_char(c: char) -> bool {
    '0' <= c && c <= '9'
}

/// The characters among the elements of `items`, in order.
pub open spec fn chars_of(items: Seq<SpecVal>) -> Seq<char>
    decreases items.len(),
{
    if items.len() == 0 {
        Seq::empty()
    } else {
        chars_of(items.drop_last()) + (match items.last() {
            SpecVal::Ch(c) => seq![c],
            _ => Seq::empty(),
        })
    }
}

/// What a `MapFn` does to a value.
pub open spec fn apply_map(f: MapFn, v: SpecVal) -> SpecVal {
    match f {
        MapFn::Const(c) => val_view(c),
        MapFn::JoinChars => match v {
            SpecVal::List(items) => SpecVal::Text(chars_of(items)),
            _ => SpecVal::Text(Seq::empty()),
        },
    }
}

/// What a `FailFn` does to a failure.
pub open spec fn apply_fail_map(f: FailFn, x: SpecFail) -> SpecFail {
    match f {
        FailFn::Const(c) => crate::value::fail_view(c),
    }
}

/// Whether a value passes a test.
pub open spec fn pred_holds(p: Pred, v: SpecVal) -> bool {
    match p {
        Pred::IsWhitespace => v matches SpecVal::Ch(c) && is_whitespace_char(c),
        Pred::IsLetter => v matches SpecVal::Ch(c) && is_letter_char(c),
        Pred::IsDigit => v matches SpecVal::Ch(c) && is_digit_char(c),
        Pred::CharIs(w) => v matches SpecVal::Ch(c) && c == w,
        Pred::TextIn(list) => v matches SpecVal::Text(cs) && (exists|i: int|
            0 <= i < list@.len() && #[trigger] list@[i]@ == cs),
    }
}

/// The failure that a strategy reports for two recoverably failed
/// alternatives, each taken with the position where its mismatch was detected.
pub open spec fn combine(st: Strategy, f1: SpecFail, p1: Pos, f2: SpecFail, p2: Pos) -> SpecFail {
    match st {
        Strategy::Discard => SpecFail::Unit,
        Strategy::KeepFirst => f1,
        Strategy::KeepLast => f2,
        Strategy::Collect => match f1 {
            SpecFail::Group(g) => SpecFail::Group(g.push((f2, p2))),
            _ => SpecFail::Group(seq![(f1, p1), (f2, p2)]),
        },
    }
}

impl Parser {
    /// A parser that always succeeds with `value`, consuming nothing.
    pub fn ret(value: Val) -> (r: Parser)
        ensures
            r.node == Node::Ret(value),
            forall|text: Seq<char>, at: Pos| #[trigger] spec_parse(r, text, at)
                == SpecResult::Success(value@, at),
    {
        Parser { name: String::new(), node: Node::Ret(value) }
    }

    /// A parser that always recoverably fails with `value`, consuming nothing.
    pub fn fail(value: Failure) -> (r: Parser)
        ensures
            r.node == Node::FailWith(value),
            forall|text: Seq<char>, at: Pos| #[trigger] spec_parse(r, text, at)
                == SpecResult::Recoverable(value@, at),
    {
        Parser { name: String::new(), node: Node::FailWith(value) }
    }

    /// A parser that always fatally errors with `value`, consuming nothing.
    pub fn err(value: Val) -> (r: Parser)
        ensures
            r.node == Node::ErrWith(value),
            forall|text: Seq<char>, at: Pos| #[trigger] spec_parse(r, text, at)
                == SpecResult::Fatal(value@, at),
    {
        Parser { name: String::new(), node: Node::ErrWith(value) }
    }

    /// A parser that succeeds with the current cursor, consuming nothing:
    /// the varying part of the state (the text is shared by the whole parse).
    pub fn state() -> (r: Parser)
        ensures
            r.node == Node::Mark,
            forall|text: Seq<char>, at: Pos| #[trigger] spec_parse(r, text, at)
                == SpecResult::Success(SpecVal::Mark(at), at),
    {
        Parser { name: String::new(), node: Node::Mark }
    }

    /// This parser under another name. The name is metadata for debugging a
    /// grammar; it never changes what the parser does.
    pub fn with_name(self, name: &str) -> (r: Parser)
        ensures
            r.node == self.node,
            r.name@ == name@,
    {
        Parser { name: name.to_owned(), node: self.node }
    }

    /// Transforms the value of a success; both failure channels pass
    /// through untouched, and a failed parse never applies the transformation.
    pub fn map(self, f: MapFn) -> (r: Parser)
        ensures
            r.node == Node::MapVal(Box::new(self), f),
            forall|text: Seq<char>, at: Pos| #[trigger] spec_parse(r, text, at) == (match
                spec_parse(self, text, at) {
                SpecResult::Success(v, q) => SpecResult::Success(apply_map(f, v), q),
                SpecResult::Recoverable(x, q) => SpecResult::Recoverable(x, q),
                SpecResult::Fatal(e, q) => SpecResult::Fatal(e, q),
            }),
    {
        Parser { name: String::new(), node: Node::MapVal(Box::new(self), f) }
    }

    /// Transforms the payload of a recoverable failure; successes and fatal
    /// errors pass through untouched.
    pub fn map_fail(self, f: FailFn) -> (r: Parser)
        ensures
            r.node == Node::MapFail(Box::new(self), f),
            forall|text: Seq<char>, at: Pos| #[trigger] spec_parse(r, text, at) == (match
                spec_parse(self, text, at) {
                SpecResult::Success(v, q) => SpecResult::Success(v, q),
                SpecResult::Recoverable(x, q) => SpecResult::Recoverable(apply_fail_map(f, x), q),
                SpecResult::Fatal(e, q) => SpecResult::Fatal(e, q),
            }),
    {
        Parser { name: String::new(), node: Node::MapFail(Box::new(self), f) }
    }

    /// Transforms the payload of a fatal error; successes and recoverable
    /// failures pass through untouched.
    pub fn map_err(self, f: MapFn) -> (r: Parser)
        ensures
            r.node == Node::MapErr(Box::new(self), f),
            forall|text: Seq<char>, at: Pos| #[trigger] spec_parse(r, text, at) == (match
                spec_parse(self, text, at) {
                SpecResult::Success(v, q) => SpecResult::Success(v, q),
                SpecResult::Recoverable(x, q) => SpecResult::Recoverable(x, q),
                SpecResult::Fatal(e, q) => SpecResult::Fatal(apply_map(f, e), q),
            }),
    {
        Parser { name: String::new(), node: Node::MapErr(Box::new(self), f) }
    }

    /// Sequencing, the sole sequencing primitive: on success the
    /// continuation decides how to go on from the position where this
    /// parser stopped; both failure channels short-circuit and the
    /// continuation is never consulted for them.
    pub fn and_then(self, k: Cont) -> (r: Parser)
        ensures
            r.node == Node::AndThen(Box::new(self), k),
            forall|text: Seq<char>, at: Pos|
                (at.wf() && at.offset <= text.len() && text.len() < usize::MAX) ==> #[trigger]
                    spec_parse(r, text, at) == (match spec_parse(self, text, at) {
                    SpecResult::Success(v, q) => match k {
                        Cont::ErrIf(pr, e) => if pred_holds(pr, v) {
                            SpecResult::Fatal(e@, q)
                        } else {
                            SpecResult::Success(v, q)
                        },
                        Cont::SeqKeepFirst(second) => match spec_parse(*second, text, q) {
                            SpecResult::Success(_, q2) => SpecResult::Success(v, q2),
                            SpecResult::Recoverable(x, q2) => SpecResult::Recoverable(x, q2),
                            SpecResult::Fatal(e, q2) => SpecResult::Fatal(e, q2),
                        },
                        Cont::SeqKeepSecond(second) => spec_parse(*second, text, q),
                    },
                    SpecResult::Recoverable(x, q) => SpecResult::Recoverable(x, q),
                    SpecResult::Fatal(e, q) => SpecResult::Fatal(e, q),
                }),
    {
        let r = Parser { name: String::new(), node: Node::AndThen(Box::new(self), k) };
        proof {
            assert forall|text: Seq<char>, at: Pos|
                at.wf() && at.offset <= text.len() && text.len() < usize::MAX implies #[trigger]
                spec_parse(r, text, at) == (match spec_parse(self, text, at) {
                SpecResult::Success(v, q) => match k {
                    Cont::ErrIf(pr, e) => if pred_holds(pr, v) {
                        SpecResult::Fatal(e@, q)
                    } else {
                        SpecResult::Success(v, q)
                    },
                    Cont::SeqKeepFirst(second) => match spec_parse(*second, text, q) {
                        SpecResult::Success(_, q2) => SpecResult::Success(v, q2),
                        SpecResult::Recoverable(x, q2) => SpecResult::Recoverable(x, q2),
                        SpecResult::Fatal(e, q2) => SpecResult::Fatal(e, q2),
                    },
                    Cont::SeqKeepSecond(second) => spec_parse(*second, text, q),
                },
                SpecResult::Recoverable(x, q) => SpecResult::Recoverable(x, q),
                SpecResult::Fatal(e, q) => SpecResult::Fatal(e, q),
            }) by {
                crate::semantics::lemma_parse_in_bounds(self, text, at);
            }
        }
        r
    }

    /// Runs `second` from the original position when this parser recoverably
    /// fails, so the recovery attempt re-reads input the first attempt had
    /// consumed; successes and fatal errors pass through.
    pub fn and_then_fail(self, second: Parser) -> (r: Parser)
        ensures
            r.node == Node::AndThenFail(Box::new(self), Box::new(second)),
            forall|text: Seq<char>, at: Pos| #[trigger] spec_parse(r, text, at) == (match
                spec_parse(self, text, at) {
                SpecResult::Recoverable(_, _) => spec_parse(second, text, at),
                SpecResult::Success(v, q) => SpecResult::Success(v, q),
                SpecResult::Fatal(e, q) => SpecResult::Fatal(e, q),
            }),
    {
        Parser { name: String::new(), node: Node::AndThenFail(Box::new(self), Box::new(second)) }
    }

    /// Runs `second` from the original position when this parser fatally
    /// errors; successes and recoverable failures pass through.
    pub fn and_then_err(self, second: Parser) -> (r: Parser)
        ensures
            r.node == Node::AndThenErr(Box::new(self), Box::new(second)),
            forall|text: Seq<char>, at: Pos| #[trigger] spec_parse(r, text, at) == (match
                spec_parse(self, text, at) {
                SpecResult::Fatal(_, _) => spec_parse(second, text, at),
                SpecResult::Success(v, q) => SpecResult::Success(v, q),
                SpecResult::Recoverable(x, q) => SpecResult::Recoverable(x, q),
            }),
    {
        Parser { name: String::new(), node: Node::AndThenErr(Box::new(self), Box::new(second)) }
    }

    /// Alternation, left-biased: a success or fatal error of this parser is
    /// returned unchanged and `other` is never consulted. Only on a
    /// recoverable failure is `other` run, from the same start; when both
    /// recoverably fail the strategy merges the two payloads and the
    /// reported position is the original start of the attempt.
    pub fn or(self, other: Parser, strategy: Strategy) -> (r: Parser)
        ensures
            r.node == Node::Or(Box::new(self), Box::new(other), strategy),
            forall|text: Seq<char>, at: Pos| #[trigger] spec_parse(r, text, at) == (match
                spec_parse(self, text, at) {
                SpecResult::Success(v, q) => SpecResult::Success(v, q),
                SpecResult::Fatal(e, q) => SpecResult::Fatal(e, q),
                SpecResult::Recoverable(f1, fp1) => match spec_parse(other, text, at) {
                    SpecResult::Success(v, q) => SpecResult::Success(v, q),
                    SpecResult::Fatal(e, q) => SpecResult::Fatal(e, q),
                    SpecResult::Recoverable(f2, fp2) => SpecResult::Recoverable(
                        combine(strategy, f1, fp1, f2, fp2),
                        at,
                    ),
                },
            }),
    {
        Parser { name: String::new(), node: Node::Or(Box::new(self), Box::new(other), strategy) }
    }

    /// This parser, with a recoverable failure turned into the fatal error
    /// `e` at the original position: a commit point.
    pub fn or_err(self, e: Val) -> (r: Parser)
        ensures
            forall|text: Seq<char>, at: Pos| #[trigger] spec_parse(r, text, at) == (match
                spec_parse(self, text, at) {
                SpecResult::Recoverable(_, _) => SpecResult::Fatal(e@, at),
                SpecResult::Success(v, q) => SpecResult::Success(v, q),
                SpecResult::Fatal(x, q) => SpecResult::Fatal(x, q),
            }),
    {
        self.or(Parser::err(e), Strategy::KeepFirst)
    }

    /// Ordered alternation over a list: the alternatives are tried in order
    /// from the same start; the first success or fatal error wins, and when
    /// every alternative recoverably fails, the failures are reported as a
    /// group in order, each with its detection position, at the start
    /// position. The empty list recoverably fails with the empty group.
    pub fn one_of(parsers: Vec<Parser>) -> (r: Parser)
        ensures
            r.node == Node::OneOf(parsers),
            forall|text: Seq<char>, at: Pos| #[trigger] spec_parse(r, text, at) == spec_one_of(
                parsers@,
                text,
                at,
            ),
    {
        Parser { name: String::new(), node: Node::OneOf(parsers) }
    }

    /// Keeps a success only when its value passes the test; else the parse
    /// recoverably fails with `fail` at the original position, undoing any
    /// cursor advance the parser made. Failures pass through untouched.
    pub fn filter(self, pred: Pred, fail: Failure) -> (r: Parser)
        ensures
            r.node == Node::Filter(Box::new(self), pred, fail),
            forall|text: Seq<char>, at: Pos| #[trigger] spec_parse(r, text, at) == (match
                spec_parse(self, text, at) {
                SpecResult::Success(v, q) => if pred_holds(pred, v) {
                    SpecResult::Success(v, q)
                } else {
                    SpecResult::Recoverable(fail@, at)
                },
                SpecResult::Recoverable(x, q) => SpecResult::Recoverable(x, q),
                SpecResult::Fatal(e, q) => SpecResult::Fatal(e, q),
            }),
    {
        Parser { name: String::new(), node: Node::Filter(Box::new(self), pred, fail) }
    }
}

} // verus!
