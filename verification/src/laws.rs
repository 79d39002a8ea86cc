use vstd::prelude::*;

use crate::parser::{is_whitespace_char, Node, Parser, SpecResult};
use crate::position::{lemma_advance_wf, Pos};
use crate::semantics::{rem, spec_one_of, spec_parse, spec_repeat, whitespace_end};
use crate::value::{SpecFail, SpecVal};

verus! {

/// Greedy repetition of a whitespace recognizer stops exactly at the first
/// non-whitespace character (or the end of the text), whatever stood before.
pub proof fn lemma_whitespace_run(ws: Parser, text: Seq<char>, at: Pos)
    requires
        at.wf(),
        at.offset <= text.len(),
        text.len() < usize::MAX,
        forall|p2: Pos| #[trigger] spec_parse(ws, text, p2) == (if p2.offset < text.len()
            && is_whitespace_char(text[p2.offset as int]) {
            SpecResult::Success(
                SpecVal::Ch(text[p2.offset as int]),
                p2.spec_advance(text[p2.offset as int]),
            )
        } else {
            SpecResult::Recoverable(SpecFail::NotWhitespace, p2)
        }),
    ensures
        spec_repeat(ws, text, at) matches SpecResult::Success(_, q) && q == whitespace_end(
            text,
            at,
        ),
    decreases rem(text, at),
{
    if at.offset < text.len() && is_whitespace_char(text[at.offset as int]) {
        let c = text[at.offset as int];
        let q = at.spec_advance(c);
        assert(spec_parse(ws, text, at) == SpecResult::Success(SpecVal::Ch(c), q));
        lemma_advance_wf(at, c);
        assert(q.offset == at.offset + 1);
        crate::semantics::lemma_repeat_in_bounds(ws, text, q);
        lemma_whitespace_run(ws, text, q);
        assert(whitespace_end(text, at) == whitespace_end(text, q));
    } else {
        assert(spec_parse(ws, text, at) == SpecResult::Recoverable(SpecFail::NotWhitespace, at));
        assert(whitespace_end(text, at) == at);
    }
}

/// Alternation over no alternatives always fails recoverably, with the
/// empty aggregate, at the attempted position, whatever the input.
pub proof fn lemma_one_of_empty(text: Seq<char>, at: Pos)
    ensures
        spec_one_of(Seq::empty(), text, at) == SpecResult::Recoverable(
            SpecFail::Group(Seq::empty()),
            at,
        ),
{
}

/// Greedy repetition of a parser whose first application recoverably fails
/// does not fail itself: it succeeds with the empty list at the unchanged
/// start position.
pub proof fn lemma_repeat_0_on_failure(p: Parser, text: Seq<char>, at: Pos)
    requires
        spec_parse(p, text, at) is Recoverable,
    ensures
        spec_repeat(p, text, at) == SpecResult::Success(SpecVal::List(Seq::empty()), at),
{
}

/// Double negation is a detector, not an identity: `not(not(p))` and `p`
/// agree on the classification of every outcome (success and failure
/// invert, then invert back), though not on the values.
pub proof fn lemma_not_not(p: Parser, q1: Parser, q2: Parser, text: Seq<char>, at: Pos)
    requires
        q1.node == Node::Not(Box::new(p)),
        q2.node == Node::Not(Box::new(q1)),
    ensures
        (spec_parse(q2, text, at) is Success) == (spec_parse(p, text, at) is Success),
        (spec_parse(q2, text, at) is Recoverable) == (spec_parse(p, text, at) is Recoverable),
        (spec_parse(q2, text, at) is Fatal) == (spec_parse(p, text, at) is Fatal),
{
    assert(spec_parse(q1, text, at) == (match spec_parse(p, text, at) {
        SpecResult::Success(_, _) => SpecResult::Recoverable(SpecFail::Unit, at),
        SpecResult::Recoverable(_, _) => SpecResult::Success(SpecVal::Unit, at),
        SpecResult::Fatal(e, q) => SpecResult::Fatal(e, q),
    }));
}

} // verus!
