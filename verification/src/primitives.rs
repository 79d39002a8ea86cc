use vstd::prelude::*;
use vstd::string::StrSliceExecFns;

use crate::parser::{is_digit_char, is_letter_char, is_whitespace_char};
use crate::parser::{Cont, FailFn, MapFn, Node, Parser, Pred, SpecResult};
use crate::position::Pos;
use crate::semantics::{cons_onto, spec_parse, spec_repeat};
use crate::value::{Failure, SpecFail, SpecVal, Val};

verus! {

impl Parser {
    /// Succeeds with no value when `value` is true, else recoverably fails
    /// with no detail; consumes nothing either way.
    pub fn of_bool(value: bool) -> (r: Parser)
        ensures
            r.node == (if value {
                Node::Ret(Val::Unit)
            } else {
                Node::FailWith(Failure::Unit)
            }),
            forall|text: Seq<char>, at: Pos| #[trigger] spec_parse(r, text, at) == (if value {
                SpecResult::Success(SpecVal::Unit, at)
            } else {
                SpecResult::Recoverable(SpecFail::Unit, at)
            }),
    {
        if value {
            Parser::ret(Val::Unit)
        } else {
            Parser::fail(Failure::Unit)
        }
    }

    /// Consumes one character: the single-character primitive. It fails
    /// recoverably only at end of input.
    pub fn char() -> (r: Parser)
        ensures
            r.node == Node::Next,
            forall|text: Seq<char>, at: Pos| #[trigger] spec_parse(r, text, at) == (if at.offset
                < text.len() {
                SpecResult::Success(
                    SpecVal::Ch(text[at.offset as int]),
                    at.spec_advance(text[at.offset as int]),
                )
            } else {
                SpecResult::Recoverable(SpecFail::Eof, at)
            }),
    {
        Parser { name: String::new(), node: Node::Next }
    }

    /// Consumes exactly the character `ch`; any other character, and the
    /// end of input, recoverably fail with no detail at the original position.
    pub fn char_eq(ch: char) -> (r: Parser)
        ensures
            forall|text: Seq<char>, at: Pos| #[trigger] spec_parse(r, text, at) == (if at.offset
                < text.len() && text[at.offset as int] == ch {
                SpecResult::Success(SpecVal::Ch(ch), at.spec_advance(ch))
            } else {
                SpecResult::Recoverable(SpecFail::Unit, at)
            }),
    {
        Parser::char().map_fail(FailFn::Const(Failure::Unit)).filter(
            Pred::CharIs(ch),
            Failure::Unit,
        )
    }

    /// Consumes one Unicode white-space character; anything else
    /// recoverably fails at the original position.
    pub fn whitespace() -> (r: Parser)
        ensures
            forall|text: Seq<char>, at: Pos| #[trigger] spec_parse(r, text, at) == (if at.offset
                < text.len() && is_whitespace_char(text[at.offset as int]) {
                SpecResult::Success(
                    SpecVal::Ch(text[at.offset as int]),
                    at.spec_advance(text[at.offset as int]),
                )
            } else {
                SpecResult::Recoverable(SpecFail::NotWhitespace, at)
            }),
    {
        Parser::char().map_fail(FailFn::Const(Failure::NotWhitespace)).filter(
            Pred::IsWhitespace,
            Failure::NotWhitespace,
        )
    }

    /// Consumes one ASCII letter; anything else recoverably fails at the
    /// original position.
    pub fn letter() -> (r: Parser)
        ensures
            forall|text: Seq<char>, at: Pos| #[trigger] spec_parse(r, text, at) == (if at.offset
                < text.len() && is_letter_char(text[at.offset as int]) {
                SpecResult::Success(
                    SpecVal::Ch(text[at.offset as int]),
                    at.spec_advance(text[at.offset as int]),
                )
            } else {
                SpecResult::Recoverable(SpecFail::NotALetter, at)
            }),
    {
        Parser::char().map_fail(FailFn::Const(Failure::NotALetter)).filter(
            Pred::IsLetter,
            Failure::NotALetter,
        )
    }

    /// Consumes one ASCII digit; anything else recoverably fails at the
    /// original position.
    pub fn digit() -> (r: Parser)
        ensures
            forall|text: Seq<char>, at: Pos| #[trigger] spec_parse(r, text, at) == (if at.offset
                < text.len() && is_digit_char(text[at.offset as int]) {
                SpecResult::Success(
                    SpecVal::Ch(text[at.offset as int]),
                    at.spec_advance(text[at.offset as int]),
                )
            } else {
                SpecResult::Recoverable(SpecFail::NotADigit, at)
            }),
    {
        Parser::char().map_fail(FailFn::Const(Failure::NotADigit)).filter(
            Pred::IsDigit,
            Failure::NotADigit,
        )
    }

    /// Consumes whitespace greedily and succeeds with no value: never
    /// fails, and leaves the cursor on the first non-whitespace character.
    pub fn skip_whitespace() -> (r: Parser)
        ensures
            ({
                &&& r.node matches Node::MapVal(inner, f)
                &&& f == MapFn::Const(Val::Unit)
                &&& (*inner).node matches Node::Repeat0(ws)
                &&& forall|text: Seq<char>, at: Pos| #[trigger] spec_parse(*ws, text, at) == (
                if at.offset < text.len() && is_whitespace_char(text[at.offset as int]) {
                    SpecResult::Success(
                        SpecVal::Ch(text[at.offset as int]),
                        at.spec_advance(text[at.offset as int]),
                    )
                } else {
                    SpecResult::Recoverable(SpecFail::NotWhitespace, at)
                })
            }),
            forall|text: Seq<char>, at: Pos|
                (#[trigger] spec_parse(r, text, at)) matches SpecResult::Success(v, _) && v
                    == SpecVal::Unit,
            forall|text: Seq<char>, at: Pos|
                (at.wf() && at.offset <= text.len() && text.len() < usize::MAX) ==> #[trigger]
                    spec_parse(r, text, at) == SpecResult::Success(
                    SpecVal::Unit,
                    crate::semantics::whitespace_end(text, at),
                ),
    {
        let ws = Parser::whitespace();
        let ghost wsv = ws;
        let r = ws.repeat_0().map(MapFn::Const(Val::Unit));
        proof {
            assert forall|text: Seq<char>, at: Pos|
                (#[trigger] spec_parse(r, text, at)) matches SpecResult::Success(v, _) && v
                    == SpecVal::Unit by {
                crate::semantics::lemma_repeat_never_fatal(wsv, text, at);
            }
            assert forall|text: Seq<char>, at: Pos|
                at.wf() && at.offset <= text.len() && text.len() < usize::MAX implies #[trigger]
                spec_parse(r, text, at) == SpecResult::Success(
                SpecVal::Unit,
                crate::semantics::whitespace_end(text, at),
            ) by {
                crate::laws::lemma_whitespace_run(wsv, text, at);
            }
        }
        r
    }

    /// Succeeds with no value exactly at the end of the input, consuming
    /// nothing; recoverably fails anywhere else.
    pub fn eof() -> (r: Parser)
        ensures
            r.node == Node::AtEnd,
            forall|text: Seq<char>, at: Pos| #[trigger] spec_parse(r, text, at) == (if at.offset
                >= text.len() {
                SpecResult::Success(SpecVal::Unit, at)
            } else {
                SpecResult::Recoverable(SpecFail::NotFound, at)
            }),
    {
        Parser { name: String::new(), node: Node::AtEnd }
    }

    /// Consumes exactly the text `expected` where it stands at the cursor;
    /// recoverably fails at the original position when the input there is
    /// anything else. The rest of the input may be anything: matching does
    /// not look past the literal.
    pub fn expect_string(expected: &str) -> (r: Parser)
        ensures
            r.node matches Node::Expect(cs) && cs@ == expected@,
    {
        let mut cs: Vec<char> = Vec::new();
        let n: usize = expected.unicode_len();
        let mut i: usize = 0;
        while i < n
            invariant
                i <= n,
                n == expected@.len(),
                cs@ == expected@.take(i as int),
            decreases n - i,
        {
            cs.push(expected.get_char(i));
            i = i + 1;
            proof {
                assert(cs@ =~= expected@.take(i as int));
            }
        }
        proof {
            assert(cs@ =~= expected@);
        }
        Parser { name: String::new(), node: Node::Expect(cs) }
    }

    /// Repeats this parser zero or one times: a success wraps in a present
    /// optional; a recoverable failure becomes a success with the absent
    /// optional at the original position (zero consumption). A fatal error
    /// is never swallowed.
    pub fn maybe(self) -> (r: Parser)
        ensures
            r.node == Node::Maybe(Box::new(self)),
            forall|text: Seq<char>, at: Pos| #[trigger] spec_parse(r, text, at) == (match
                spec_parse(self, text, at) {
                SpecResult::Success(v, q) => SpecResult::Success(
                    SpecVal::OptSome(Box::new(v)),
                    q,
                ),
                SpecResult::Recoverable(_, _) => SpecResult::Success(SpecVal::OptNone, at),
                SpecResult::Fatal(e, q) => SpecResult::Fatal(e, q),
            }),
    {
        Parser { name: String::new(), node: Node::Maybe(Box::new(self)) }
    }

    /// Repeats this parser zero or more times, greedily, collecting the
    /// values in encounter order; the repetition itself never fails: the
    /// first recoverable failure of the underlying parser simply ends it.
    /// A fatal error of any application aborts the whole repetition.
    pub fn repeat_0(self) -> (r: Parser)
        ensures
            r.node == Node::Repeat0(Box::new(self)),
            forall|text: Seq<char>, at: Pos| #[trigger] spec_parse(r, text, at) == spec_repeat(
                self,
                text,
                at,
            ),
    {
        Parser { name: String::new(), node: Node::Repeat0(Box::new(self)) }
    }

    /// Repeats this parser one or more times: like `repeat_0`, but at
    /// least one application must succeed, else the first application's
    /// failure propagates unchanged.
    pub fn repeat_1(self) -> (r: Parser)
        ensures
            r.node == Node::Repeat1(Box::new(self)),
            forall|text: Seq<char>, at: Pos|
                spec_parse(self, text, at) matches SpecResult::Recoverable(x, q) ==> #[trigger]
                    spec_parse(r, text, at) == SpecResult::Recoverable(x, q),
            forall|text: Seq<char>, at: Pos|
                spec_parse(self, text, at) matches SpecResult::Fatal(e, q) ==> #[trigger]
                    spec_parse(r, text, at) == SpecResult::Fatal(e, q),
            forall|text: Seq<char>, at: Pos|
                #![trigger spec_parse(r, text, at)]
                (at.wf() && at.offset <= text.len() && text.len() < usize::MAX) ==> ({
                    let first = spec_parse(self, text, at);
                    &&& (first is Success && at.offset < first->Success_1.offset)
                        ==> spec_parse(r, text, at) == cons_onto(
                        first->Success_0,
                        spec_repeat(self, text, first->Success_1),
                    )
                    &&& (first is Success && at.offset >= first->Success_1.offset)
                        ==> spec_parse(r, text, at) == SpecResult::Success(
                        SpecVal::List(seq![first->Success_0]),
                        first->Success_1,
                    )
                }),
    {
        let r = Parser { name: String::new(), node: Node::Repeat1(Box::new(self)) };
        proof {
            assert forall|text: Seq<char>, at: Pos|
                at.wf() && at.offset <= text.len() && text.len() < usize::MAX implies ({
                let first = spec_parse(self, text, at);
                &&& (first is Success && at.offset < first->Success_1.offset) ==> spec_parse(
                    r,
                    text,
                    at,
                ) == cons_onto(first->Success_0, spec_repeat(self, text, first->Success_1))
                &&& (first is Success && at.offset >= first->Success_1.offset) ==> spec_parse(
                    r,
                    text,
                    at,
                ) == SpecResult::Success(SpecVal::List(seq![first->Success_0]), first->Success_1)
            }) by {
                crate::semantics::lemma_parse_in_bounds(self, text, at);
                match spec_parse(self, text, at) {
                    SpecResult::Success(_, q) => {
                        if at.offset < q.offset {
                            crate::semantics::lemma_repeat_in_bounds(self, text, q);
                        }
                    },
                    SpecResult::Recoverable(_, _) => {},
                    SpecResult::Fatal(_, _) => {},
                }
            }
        }
        r
    }

    /// Negative lookahead: succeeds with no value exactly when this parser
    /// recoverably fails, and recoverably fails when it succeeds; either
    /// way nothing is consumed and the original position is reported. A
    /// fatal error propagates: negation does not suppress it.
    pub fn not(self) -> (r: Parser)
        ensures
            r.node == Node::Not(Box::new(self)),
            forall|text: Seq<char>, at: Pos| #[trigger] spec_parse(r, text, at) == (match
                spec_parse(self, text, at) {
                SpecResult::Success(_, _) => SpecResult::Recoverable(SpecFail::Unit, at),
                SpecResult::Recoverable(_, _) => SpecResult::Success(SpecVal::Unit, at),
                SpecResult::Fatal(e, q) => SpecResult::Fatal(e, q),
            }),
    {
        Parser { name: String::new(), node: Node::Not(Box::new(self)) }
    }
}

} // verus!
