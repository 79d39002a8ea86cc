use vstd::prelude::*;

use crate::parser::{apply_map, chars_of, combine, pred_holds, MapFn, Pred, Strategy};
use crate::parser::{apply_fail_map, Cont, FailFn, Node, ParseResult, Parser, SpecResult};
use crate::position::{lemma_advance_seq_push, lemma_advance_seq_wf, lemma_advance_wf, Pos};
use crate::value::{lemma_fails_view_push, lemma_vals_view_index, lemma_vals_view_push};
use crate::value::{fails_view, val_view, vals_view, Failure, SpecFail, SpecVal, Val};
use crate::state::State;

verus! {

/// How much input is left in front of the cursor. The repetition and
/// sequencing combinators recurse on it: consuming input shrinks it.
pub open spec fn rem(text: Seq<char>, pos: Pos) -> nat {
    if pos.offset <= text.len() {
        (text.len() - pos.offset) as nat
    } else {
        0
    }
}

/// The meaning of a parsing value: the outcome of invoking it on `text`
/// with the cursor at `pos`. This is the single reference every combinator
/// contract speaks of.
///
/// The branches guarded on the cursor moving backwards are unreachable:
/// no parser moves the cursor back (`lemma_parse_in_bounds`). The
/// repetition combinators stop when an application succeeds without
/// consuming, which keeps greedy repetition of a non-consuming parser from
/// running forever.
pub open spec fn spec_parse(p: Parser, text: Seq<char>, pos: Pos) -> SpecResult
    decreases rem(text, pos), p, 0nat,
{
    match p.node {
        Node::Ret(v) => SpecResult::Success(v@, pos),
        Node::FailWith(f) => SpecResult::Recoverable(f@, pos),
        Node::ErrWith(e) => SpecResult::Fatal(e@, pos),
        Node::Mark => SpecResult::Success(SpecVal::Mark(pos), pos),
        Node::Next => if pos.offset < text.len() {
            SpecResult::Success(
                SpecVal::Ch(text[pos.offset as int]),
                pos.spec_advance(text[pos.offset as int]),
            )
        } else {
            SpecResult::Recoverable(SpecFail::Eof, pos)
        },
        Node::AtEnd => if pos.offset >= text.len() {
            SpecResult::Success(SpecVal::Unit, pos)
        } else {
            SpecResult::Recoverable(SpecFail::NotFound, pos)
        },
        Node::Expect(cs) => if pos.offset + cs@.len() <= text.len() && text.subrange(
            pos.offset as int,
            pos.offset + cs@.len(),
        ) == cs@ {
            SpecResult::Success(SpecVal::Unit, pos.spec_advance_seq(cs@))
        } else {
            SpecResult::Recoverable(SpecFail::NotFound, pos)
        },
        Node::MapVal(inner, f) => match spec_parse(*inner, text, pos) {
            SpecResult::Success(v, q) => SpecResult::Success(apply_map(f, v), q),
            SpecResult::Recoverable(x, q) => SpecResult::Recoverable(x, q),
            SpecResult::Fatal(e, q) => SpecResult::Fatal(e, q),
        },
        Node::MapFail(inner, f) => match spec_parse(*inner, text, pos) {
            SpecResult::Success(v, q) => SpecResult::Success(v, q),
            SpecResult::Recoverable(x, q) => SpecResult::Recoverable(apply_fail_map(f, x), q),
            SpecResult::Fatal(e, q) => SpecResult::Fatal(e, q),
        },
        Node::MapErr(inner, f) => match spec_parse(*inner, text, pos) {
            SpecResult::Success(v, q) => SpecResult::Success(v, q),
            SpecResult::Recoverable(x, q) => SpecResult::Recoverable(x, q),
            SpecResult::Fatal(e, q) => SpecResult::Fatal(apply_map(f, e), q),
        },
        Node::AndThen(inner, k) => match spec_parse(*inner, text, pos) {
            SpecResult::Success(v, q) => match k {
                Cont::ErrIf(pr, e) => if pred_holds(pr, v) {
                    SpecResult::Fatal(e@, q)
                } else {
                    SpecResult::Success(v, q)
                },
                Cont::SeqKeepFirst(second) => if pos.offset <= q.offset {
                    match spec_parse(*second, text, q) {
                        SpecResult::Success(_, q2) => SpecResult::Success(v, q2),
                        SpecResult::Recoverable(x, q2) => SpecResult::Recoverable(x, q2),
                        SpecResult::Fatal(e, q2) => SpecResult::Fatal(e, q2),
                    }
                } else {
                    arbitrary()
                },
                Cont::SeqKeepSecond(second) => if pos.offset <= q.offset {
                    spec_parse(*second, text, q)
                } else {
                    arbitrary()
                },
            },
            SpecResult::Recoverable(x, q) => SpecResult::Recoverable(x, q),
            SpecResult::Fatal(e, q) => SpecResult::Fatal(e, q),
        },
        Node::AndThenFail(inner, second) => match spec_parse(*inner, text, pos) {
            SpecResult::Success(v, q) => SpecResult::Success(v, q),
            SpecResult::Recoverable(_, _) => spec_parse(*second, text, pos),
            SpecResult::Fatal(e, q) => SpecResult::Fatal(e, q),
        },
        Node::AndThenErr(inner, second) => match spec_parse(*inner, text, pos) {
            SpecResult::Success(v, q) => SpecResult::Success(v, q),
            SpecResult::Recoverable(x, q) => SpecResult::Recoverable(x, q),
            SpecResult::Fatal(_, _) => spec_parse(*second, text, pos),
        },
        Node::Or(first, second, st) => match spec_parse(*first, text, pos) {
            SpecResult::Success(v, q) => SpecResult::Success(v, q),
            SpecResult::Fatal(e, q) => SpecResult::Fatal(e, q),
            SpecResult::Recoverable(f1, fp1) => match spec_parse(*second, text, pos) {
                SpecResult::Success(v, q) => SpecResult::Success(v, q),
                SpecResult::Fatal(e, q) => SpecResult::Fatal(e, q),
                SpecResult::Recoverable(f2, fp2) => SpecResult::Recoverable(
                    combine(st, f1, fp1, f2, fp2),
                    pos,
                ),
            },
        },
        Node::OneOf(items) => spec_one_of(items@, text, pos),
        Node::Filter(inner, pr, fv) => match spec_parse(*inner, text, pos) {
            SpecResult::Success(v, q) => if pred_holds(pr, v) {
                SpecResult::Success(v, q)
            } else {
                SpecResult::Recoverable(fv@, pos)
            },
            SpecResult::Recoverable(x, q) => SpecResult::Recoverable(x, q),
            SpecResult::Fatal(e, q) => SpecResult::Fatal(e, q),
        },
        Node::Maybe(inner) => match spec_parse(*inner, text, pos) {
            SpecResult::Success(v, q) => SpecResult::Success(SpecVal::OptSome(Box::new(v)), q),
            SpecResult::Recoverable(_, _) => SpecResult::Success(SpecVal::OptNone, pos),
            SpecResult::Fatal(e, q) => SpecResult::Fatal(e, q),
        },
        Node::Repeat0(inner) => spec_repeat(*inner, text, pos),
        Node::Repeat1(inner) => match spec_parse(*inner, text, pos) {
            SpecResult::Recoverable(x, q) => SpecResult::Recoverable(x, q),
            SpecResult::Fatal(e, q) => SpecResult::Fatal(e, q),
            SpecResult::Success(v, q) => if pos.offset < q.offset && q.offset <= text.len() {
                match spec_repeat(*inner, text, q) {
                    SpecResult::Success(SpecVal::List(vs), q2) => SpecResult::Success(
                        SpecVal::List(seq![v] + vs),
                        q2,
                    ),
                    SpecResult::Fatal(e, q2) => SpecResult::Fatal(e, q2),
                    _ => arbitrary(),
                }
            } else {
                SpecResult::Success(SpecVal::List(seq![v]), q)
            },
        },
        Node::Not(inner) => match spec_parse(*inner, text, pos) {
            SpecResult::Success(_, _) => SpecResult::Recoverable(SpecFail::Unit, pos),
            SpecResult::Recoverable(_, _) => SpecResult::Success(SpecVal::Unit, pos),
            SpecResult::Fatal(e, q) => SpecResult::Fatal(e, q),
        },
    }
}

/// The meaning of ordered alternation over a list: the first success or
/// fatal error wins; when every alternative recoverably fails, the outcome
/// is a recoverable failure at the start position whose payload groups each
/// alternative's failure with its detection position, in order. The empty
/// list fails with the empty group.
pub open spec fn spec_one_of(items: Seq<Parser>, text: Seq<char>, pos: Pos) -> SpecResult
    decreases rem(text, pos), items, 1nat,
{
    if items.len() == 0 {
        SpecResult::Recoverable(SpecFail::Group(Seq::empty()), pos)
    } else {
        match spec_parse(items[0], text, pos) {
            SpecResult::Success(v, q) => SpecResult::Success(v, q),
            SpecResult::Fatal(e, q) => SpecResult::Fatal(e, q),
            SpecResult::Recoverable(f, fq) => match spec_one_of(items.skip(1), text, pos) {
                SpecResult::Success(v, q) => SpecResult::Success(v, q),
                SpecResult::Fatal(e, q) => SpecResult::Fatal(e, q),
                SpecResult::Recoverable(SpecFail::Group(g), _) => SpecResult::Recoverable(
                    SpecFail::Group(seq![(f, fq)] + g),
                    pos,
                ),
                _ => arbitrary(),
            },
        }
    }
}

/// The meaning of greedy repetition: apply the parser as long as it
/// succeeds and consumes, collecting the values in order. The first
/// recoverable failure ends the repetition, so repetition itself never
/// fails; a fatal error aborts and propagates. An application that succeeds
/// without consuming ends the repetition after its value.
pub open spec fn spec_repeat(inner: Parser, text: Seq<char>, pos: Pos) -> SpecResult
    decreases rem(text, pos), inner, 1nat,
{
    match spec_parse(inner, text, pos) {
        SpecResult::Recoverable(_, _) => SpecResult::Success(SpecVal::List(Seq::empty()), pos),
        SpecResult::Fatal(e, q) => SpecResult::Fatal(e, q),
        SpecResult::Success(v, q) => if pos.offset < q.offset && q.offset <= text.len() {
            match spec_repeat(inner, text, q) {
                SpecResult::Success(SpecVal::List(vs), q2) => SpecResult::Success(
                    SpecVal::List(seq![v] + vs),
                    q2,
                ),
                SpecResult::Fatal(e, q2) => SpecResult::Fatal(e, q2),
                _ => arbitrary(),
            }
        } else {
            SpecResult::Success(SpecVal::List(seq![v]), q)
        },
    }
}

/// The positions a parse can report stay inside the text: at or after the
/// start position, at or before the end, and well formed.
pub open spec fn result_in_bounds(r: SpecResult, pos: Pos, text: Seq<char>) -> bool {
    match r {
        SpecResult::Success(_, q) => q.wf() && pos.offset <= q.offset && q.offset <= text.len(),
        SpecResult::Recoverable(_, q) => q.wf() && pos.offset <= q.offset && q.offset
            <= text.len(),
        SpecResult::Fatal(_, q) => q.wf() && pos.offset <= q.offset && q.offset <= text.len(),
    }
}

/// No parser moves the cursor backwards or past the end of the text: every
/// outcome's position lies between the start position and the end of the
/// input. In particular the backwards-guarded branches of `spec_parse` are
/// never taken.
pub proof fn lemma_parse_in_bounds(p: Parser, text: Seq<char>, pos: Pos)
    requires
        pos.wf(),
        pos.offset <= text.len(),
        text.len() < usize::MAX,
    ensures
        result_in_bounds(spec_parse(p, text, pos), pos, text),
    decreases rem(text, pos), p, 0nat,
{
    match p.node {
        Node::Ret(_) => {},
        Node::FailWith(_) => {},
        Node::ErrWith(_) => {},
        Node::Mark => {},
        Node::Next => {
            if pos.offset < text.len() {
                lemma_advance_wf(pos, text[pos.offset as int]);
            }
        },
        Node::AtEnd => {},
        Node::Expect(cs) => {
            if pos.offset + cs@.len() <= text.len() && text.subrange(
                pos.offset as int,
                pos.offset + cs@.len(),
            ) == cs@ {
                lemma_advance_seq_wf(pos, cs@);
            }
        },
        Node::MapVal(inner, _) => {
            lemma_parse_in_bounds(*inner, text, pos);
        },
        Node::MapFail(inner, _) => {
            lemma_parse_in_bounds(*inner, text, pos);
        },
        Node::MapErr(inner, _) => {
            lemma_parse_in_bounds(*inner, text, pos);
        },
        Node::AndThen(inner, k) => {
            lemma_parse_in_bounds(*inner, text, pos);
            match spec_parse(*inner, text, pos) {
                SpecResult::Success(_, q) => match k {
                    Cont::ErrIf(_, _) => {},
                    Cont::SeqKeepFirst(second) => {
                        lemma_parse_in_bounds(*second, text, q);
                    },
                    Cont::SeqKeepSecond(second) => {
                        lemma_parse_in_bounds(*second, text, q);
                    },
                },
                SpecResult::Recoverable(_, _) => {},
                SpecResult::Fatal(_, _) => {},
            }
        },
        Node::AndThenFail(inner, second) => {
            lemma_parse_in_bounds(*inner, text, pos);
            lemma_parse_in_bounds(*second, text, pos);
        },
        Node::AndThenErr(inner, second) => {
            lemma_parse_in_bounds(*inner, text, pos);
            lemma_parse_in_bounds(*second, text, pos);
        },
        Node::Or(first, second, _) => {
            lemma_parse_in_bounds(*first, text, pos);
            lemma_parse_in_bounds(*second, text, pos);
        },
        Node::OneOf(items) => {
            lemma_one_of_in_bounds(items@, text, pos);
        },
        Node::Filter(inner, _, _) => {
            lemma_parse_in_bounds(*inner, text, pos);
        },
        Node::Maybe(inner) => {
            lemma_parse_in_bounds(*inner, text, pos);
        },
        Node::Repeat0(inner) => {
            lemma_repeat_in_bounds(*inner, text, pos);
        },
        Node::Repeat1(inner) => {
            lemma_parse_in_bounds(*inner, text, pos);
            match spec_parse(*inner, text, pos) {
                SpecResult::Success(_, q) => {
                    if pos.offset < q.offset && q.offset <= text.len() {
                        lemma_repeat_in_bounds(*inner, text, q);
                    }
                },
                SpecResult::Recoverable(_, _) => {},
                SpecResult::Fatal(_, _) => {},
            }
        },
        Node::Not(inner) => {
            lemma_parse_in_bounds(*inner, text, pos);
        },
    }
}

/// Ordered alternation keeps its positions inside the text, and when it
/// fails recoverably, the payload is a group and the position is the start.
pub proof fn lemma_one_of_in_bounds(items: Seq<Parser>, text: Seq<char>, pos: Pos)
    requires
        pos.wf(),
        pos.offset <= text.len(),
        text.len() < usize::MAX,
    ensures
        result_in_bounds(spec_one_of(items, text, pos), pos, text),
        spec_one_of(items, text, pos) matches SpecResult::Recoverable(f, q) ==> f is Group && q
            == pos,
    decreases rem(text, pos), items, 1nat,
{
    if items.len() > 0 {
        lemma_parse_in_bounds(items[0], text, pos);
        lemma_one_of_in_bounds(items.skip(1), text, pos);
    }
}

/// Greedy repetition keeps its positions inside the text, never fails
/// recoverably, and when it succeeds its value is a list.
pub proof fn lemma_repeat_in_bounds(inner: Parser, text: Seq<char>, pos: Pos)
    requires
        pos.wf(),
        pos.offset <= text.len(),
        text.len() < usize::MAX,
    ensures
        result_in_bounds(spec_repeat(inner, text, pos), pos, text),
        !(spec_repeat(inner, text, pos) is Recoverable),
        spec_repeat(inner, text, pos) matches SpecResult::Success(v, _) ==> v is List,
    decreases rem(text, pos), inner, 1nat,
{
    lemma_parse_in_bounds(inner, text, pos);
    match spec_parse(inner, text, pos) {
        SpecResult::Success(_, q) => {
            if pos.offset < q.offset && q.offset <= text.len() {
                lemma_repeat_in_bounds(inner, text, q);
            }
        },
        SpecResult::Recoverable(_, _) => {},
        SpecResult::Fatal(_, _) => {},
    }
}

/// The position where a run of whitespace starting at `at` ends: the first
/// position at or after `at` whose character is not whitespace, or the end
/// of the text.
pub open spec fn whitespace_end(text: Seq<char>, at: Pos) -> Pos
    decreases rem(text, at),
{
    if at.offset < text.len() && text.len() < usize::MAX && crate::parser::is_whitespace_char(
        text[at.offset as int],
    ) {
        whitespace_end(text, at.spec_advance(text[at.offset as int]))
    } else {
        at
    }
}

/// A first collected value placed in front of a repetition's list; any
/// other outcome is left as it is.
pub open spec fn cons_onto(v: SpecVal, r: SpecResult) -> SpecResult {
    match r {
        SpecResult::Success(SpecVal::List(vs), q) => SpecResult::Success(
            SpecVal::List(seq![v] + vs),
            q,
        ),
        _ => r,
    }
}

/// A repetition of a parser that never fatally errors always succeeds.
pub proof fn lemma_repeat_never_fatal(inner: Parser, text: Seq<char>, pos: Pos)
    requires
        forall|at: Pos| !(#[trigger] spec_parse(inner, text, at) is Fatal),
    ensures
        spec_repeat(inner, text, pos) matches SpecResult::Success(v, _) && v is List,
    decreases rem(text, pos),
{
    match spec_parse(inner, text, pos) {
        SpecResult::Success(_, q) => {
            if pos.offset < q.offset && q.offset <= text.len() {
                lemma_repeat_never_fatal(inner, text, q);
            }
        },
        SpecResult::Recoverable(_, _) => {},
        SpecResult::Fatal(_, _) => {},
    }
}

/// Appending one element extends the joined characters by that element's
/// character, if it is one.
pub proof fn lemma_chars_of_push(items: Seq<SpecVal>, v: SpecVal)
    ensures
        chars_of(items.push(v)) == chars_of(items) + (match v {
            SpecVal::Ch(c) => seq![c],
            _ => Seq::<char>::empty(),
        }),
{
    assert(items.push(v).drop_last() =~= items);
    assert(items.push(v).last() == v);
}

/// Whether two texts hold the same characters.
fn text_eq(a: &Vec<char>, b: &Vec<char>) -> (r: bool)
    ensures
        r == (a@ == b@),
{
    if a.len() != b.len() {
        return false;
    }
    let mut i: usize = 0;
    while i < a.len()
        invariant
            i <= a.len(),
            a@.len() == b@.len(),
            forall|j: int| 0 <= j < i ==> a@[j] == b@[j],
        decreases a.len() - i,
    {
        if a[i] != b[i] {
            return false;
        }
        i = i + 1;
    }
    proof {
        assert(a@ =~= b@);
    }
    true
}

/// Decides `pred_holds` for a value.
#[verifier::loop_isolation(false)]
fn eval_pred(p: &Pred, v: &Val) -> (b: bool)
    ensures
        b == pred_holds(*p, v@),
{
    match p {
        Pred::IsWhitespace => match v {
            Val::Ch(c) => *c == '\t' || *c == '\n' || *c == '\u{b}' || *c == '\u{c}' || *c == '\r'
                || *c == ' ' || *c == '\u{85}' || *c == '\u{a0}' || *c == '\u{1680}' || ('\u{2000}'
                <= *c && *c <= '\u{200a}') || *c == '\u{2028}' || *c == '\u{2029}' || *c
                == '\u{202f}' || *c == '\u{205f}' || *c == '\u{3000}',
            _ => false,
        },
        Pred::IsLetter => match v {
            Val::Ch(c) => ('a' <= *c && *c <= 'z') || ('A' <= *c && *c <= 'Z'),
            _ => false,
        },
        Pred::IsDigit => match v {
            Val::Ch(c) => '0' <= *c && *c <= '9',
            _ => false,
        },
        Pred::CharIs(w) => match v {
            Val::Ch(c) => *c == *w,
            _ => false,
        },
        Pred::TextIn(list) => match v {
            Val::Text(cs) => {
                let mut i: usize = 0;
                let mut found = false;
                while i < list.len()
                    invariant
                        i <= list.len(),
                        found == (exists|j: int| 0 <= j < i && #[trigger] list@[j]@ == cs@),
                    decreases list.len() - i,
                {
                    if text_eq(&list[i], cs) {
                        found = true;
                    }
                    i = i + 1;
                }
                found
            },
            _ => false,
        },
    }
}

/// Applies a `MapFn` to a value.
#[verifier::loop_isolation(false)]
fn apply_map_exec(f: &MapFn, v: Val) -> (r: Val)
    ensures
        r@ == apply_map(*f, v@),
{
    match f {
        MapFn::Const(c) => c.dup(),
        MapFn::JoinChars => match v {
            Val::List(items) => {
                let mut out: Vec<char> = Vec::new();
                let mut i: usize = 0;
                while i < items.len()
                    invariant
                        i <= items.len(),
                        out@ == chars_of(vals_view(items@.take(i as int))),
                    decreases items.len() - i,
                {
                    proof {
                        lemma_vals_view_push(items@.take(i as int), items@[i as int]);
                        lemma_chars_of_push(
                            vals_view(items@.take(i as int)),
                            items@[i as int]@,
                        );
                        assert(items@.take(i as int).push(items@[i as int]) =~= items@.take(
                            i as int + 1,
                        ));
                    }
                    match &items[i] {
                        Val::Ch(c) => {
                            out.push(*c);
                        },
                        _ => {},
                    }
                    i = i + 1;
                }
                proof {
                    assert(items@.take(items@.len() as int) =~= items@);
                }
                Val::Text(out)
            },
            _ => Val::Text(Vec::new()),
        },
    }
}

/// A list value extended at the front by already collected values.
spec fn repeat_merge(prefix: Seq<SpecVal>, r: SpecResult) -> SpecResult {
    match r {
        SpecResult::Success(SpecVal::List(vs), q) => SpecResult::Success(
            SpecVal::List(prefix + vs),
            q,
        ),
        SpecResult::Fatal(e, q) => SpecResult::Fatal(e, q),
        _ => arbitrary(),
    }
}

/// A grouped failure extended at the front by already collected failures.
spec fn one_of_merge(prefix: Seq<(SpecFail, Pos)>, r: SpecResult, pos: Pos) -> SpecResult {
    match r {
        SpecResult::Success(v, q) => SpecResult::Success(v, q),
        SpecResult::Fatal(e, q) => SpecResult::Fatal(e, q),
        SpecResult::Recoverable(SpecFail::Group(g), _) => SpecResult::Recoverable(
            SpecFail::Group(prefix + g),
            pos,
        ),
        SpecResult::Recoverable(_, _) => arbitrary(),
    }
}

/// A vector whose contents are `v` followed by `items`.
fn cons_val(v: Val, items: Vec<Val>) -> (r: Vec<Val>)
    ensures
        vals_view(r@) == seq![v@] + vals_view(items@),
{
    let ghost vv = v@;
    let ghost items0 = items@;
    let mut out: Vec<Val> = Vec::new();
    out.push(v);
    proof {
        assert(out@.len() == 1);
        assert(val_view(out@[0]) == vv);
    }
    let mut rest = items;
    out.append(&mut rest);
    proof {
        lemma_vals_view_index(out@);
        lemma_vals_view_index(items0);
        assert(out@.len() == 1 + items0.len());
        assert forall|i: int| 0 <= i < out@.len() implies vals_view(out@)[i] == (seq![vv]
            + vals_view(items0))[i] by {
            if i == 0 {
                assert(val_view(out@[0]) == vv);
            } else {
                assert(out@[i] == items0[i - 1]);
            }
        }
        assert(vals_view(out@) =~= seq![vv] + vals_view(items0));
    }
    out
}

/// Merges two recoverable failures as the strategy says.
fn combine_exec(st: &Strategy, f1: Failure, p1: Pos, f2: Failure, p2: Pos) -> (r: Failure)
    ensures
        r@ == combine(*st, f1@, p1, f2@, p2),
{
    let ghost f1v = f1@;
    let ghost f2v = f2@;
    match st {
        Strategy::Discard => Failure::Unit,
        Strategy::KeepFirst => f1,
        Strategy::KeepLast => f2,
        Strategy::Collect => match f1 {
            Failure::Group(g) => {
                let ghost g0 = g@;
                let mut g = g;
                proof {
                    lemma_fails_view_push(g0, (f2, p2));
                }
                g.push((f2, p2));
                Failure::Group(g)
            },
            other => {
                proof {
                    assert(fails_view(Seq::<(Failure, Pos)>::empty()) =~= Seq::<(
                        SpecFail,
                        Pos,
                    )>::empty());
                    lemma_fails_view_push(Seq::<(Failure, Pos)>::empty(), (other, p1));
                    lemma_fails_view_push(
                        Seq::<(Failure, Pos)>::empty().push((other, p1)),
                        (f2, p2),
                    );
                }
                let mut out: Vec<(Failure, Pos)> = Vec::new();
                out.push((other, p1));
                out.push((f2, p2));
                proof {
                    assert(fails_view(out@) =~= seq![(f1v, p1), (f2v, p2)]);
                }
                Failure::Group(out)
            },
        },
    }
}

/// Applies `inner` greedily from the cursor of `s`, iteratively, so that
/// the call stack does not grow with the length of the repeated match.
#[verifier::loop_isolation(false)]
fn repeat_from(inner: &Parser, s: State<'_>) -> (r: ParseResult)
    requires
        s.wf(),
    ensures
        r@ == spec_repeat(*inner, s.text@, s.pos),
    decreases rem(s.text@, s.pos), *inner, 1nat,
{
    let ghost text = s.text@;
    let mut acc: Vec<Val> = Vec::new();
    let mut cur: Pos = s.pos;
    proof {
        assert(vals_view(acc@) =~= Seq::<SpecVal>::empty());
        lemma_repeat_in_bounds(*inner, text, s.pos);
        match spec_repeat(*inner, text, s.pos) {
            SpecResult::Success(SpecVal::List(vs), _) => {
                assert(Seq::<SpecVal>::empty() + vs =~= vs);
            },
            _ => {},
        }
    }
    loop
        invariant
            cur.wf(),
            s.pos.offset <= cur.offset,
            cur.offset <= text.len(),
            spec_repeat(*inner, text, s.pos) == repeat_merge(
                vals_view(acc@),
                spec_repeat(*inner, text, cur),
            ),
        decreases rem(text, cur),
    {
        let st = s.with_pos(cur);
        let r = inner.parse(st);
        proof {
            lemma_parse_in_bounds(*inner, text, cur);
        }
        match r {
            ParseResult::Recoverable(_, _) => {
                proof {
                    assert(vals_view(acc@) + Seq::<SpecVal>::empty() =~= vals_view(acc@));
                }
                return ParseResult::Success(Val::List(acc), cur);
            },
            ParseResult::Fatal(e, q) => {
                return ParseResult::Fatal(e, q);
            },
            ParseResult::Success(v, q) => {
                let ghost vv = v@;
                let ghost prefix0 = vals_view(acc@);
                proof {
                    lemma_vals_view_push(acc@, v);
                }
                if q.offset <= cur.offset {
                    acc.push(v);
                    proof {
                        assert(prefix0 + seq![vv] =~= prefix0.push(vv));
                    }
                    return ParseResult::Success(Val::List(acc), q);
                }
                proof {
                    lemma_repeat_in_bounds(*inner, text, q);
                    match spec_repeat(*inner, text, q) {
                        SpecResult::Success(SpecVal::List(vs), _) => {
                            assert(prefix0 + (seq![vv] + vs) =~= prefix0.push(vv) + vs);
                        },
                        _ => {},
                    }
                }
                acc.push(v);
                cur = q;
            },
        }
    }
}

impl Parser {
    /// Invokes this parsing value on a state: the single entry point of the
    /// engine. The outcome is exactly what the semantics `spec_parse` gives
    /// this parser's syntax on that input; invocation has no other effect,
    /// so re-running an alternative after a sibling failed is always safe.
    #[verifier::loop_isolation(false)]
    pub fn parse(&self, s: State<'_>) -> (r: ParseResult)
        requires
            s.wf(),
        ensures
            r@ == spec_parse(*self, s.text@, s.pos),
        decreases rem(s.text@, s.pos), *self, 0nat,
    {
        let ghost text = s.text@;
        let ghost pos = s.pos;
        match &self.node {
            Node::Ret(v) => ParseResult::Success(v.dup(), s.pos),
            Node::FailWith(f) => ParseResult::Recoverable(f.dup(), s.pos),
            Node::ErrWith(e) => ParseResult::Fatal(e.dup(), s.pos),
            Node::Mark => ParseResult::Success(Val::Mark(s.pos), s.pos),
            Node::Next => {
                if s.pos.offset < s.text.unicode_len() {
                    let c = s.text.get_char(s.pos.offset);
                    proof {
                        lemma_advance_wf(s.pos, c);
                    }
                    let q = if c == '\n' {
                        s.pos.down()
                    } else {
                        s.pos.right()
                    };
                    ParseResult::Success(Val::Ch(c), q)
                } else {
                    ParseResult::Recoverable(Failure::Eof, s.pos)
                }
            },
            Node::AtEnd => {
                if s.pos.offset >= s.text.unicode_len() {
                    ParseResult::Success(Val::Unit, s.pos)
                } else {
                    ParseResult::Recoverable(Failure::NotFound, s.pos)
                }
            },
            Node::Expect(cs) => {
                let len: usize = s.text.unicode_len();
                let n: usize = cs.len();
                if n > len - s.pos.offset {
                    return ParseResult::Recoverable(Failure::NotFound, s.pos);
                }
                let mut j: usize = 0;
                let mut q = s.pos;
                while j < n
                    invariant
                        j <= n,
                        forall|k: int| 0 <= k < j ==> text[pos.offset + k] == cs@[k],
                        q == pos.spec_advance_seq(cs@.take(j as int)),
                        q.wf(),
                        q.offset == pos.offset + j,
                    decreases n - j,
                {
                    let c = s.text.get_char(s.pos.offset + j);
                    if c != cs[j] {
                        proof {
                            let sub = text.subrange(pos.offset as int, pos.offset + cs@.len());
                            assert(sub[j as int] == text[pos.offset + j]);
                        }
                        return ParseResult::Recoverable(Failure::NotFound, s.pos);
                    }
                    proof {
                        lemma_advance_wf(q, c);
                        lemma_advance_seq_push(pos, cs@.take(j as int), c);
                        assert(cs@.take(j as int).push(cs@[j as int]) =~= cs@.take(j as int + 1));
                    }
                    q = if c == '\n' {
                        q.down()
                    } else {
                        q.right()
                    };
                    j = j + 1;
                }
                proof {
                    assert(cs@.take(n as int) =~= cs@);
                    assert(text.subrange(pos.offset as int, pos.offset + cs@.len()) =~= cs@);
                }
                ParseResult::Success(Val::Unit, q)
            },
            Node::MapVal(inner, f) => match inner.parse(s) {
                ParseResult::Success(v, q) => ParseResult::Success(apply_map_exec(f, v), q),
                ParseResult::Recoverable(x, q) => ParseResult::Recoverable(x, q),
                ParseResult::Fatal(e, q) => ParseResult::Fatal(e, q),
            },
            Node::MapFail(inner, f) => match inner.parse(s) {
                ParseResult::Success(v, q) => ParseResult::Success(v, q),
                ParseResult::Recoverable(_, q) => match f {
                    FailFn::Const(c) => ParseResult::Recoverable(c.dup(), q),
                },
                ParseResult::Fatal(e, q) => ParseResult::Fatal(e, q),
            },
            Node::MapErr(inner, f) => match inner.parse(s) {
                ParseResult::Success(v, q) => ParseResult::Success(v, q),
                ParseResult::Recoverable(x, q) => ParseResult::Recoverable(x, q),
                ParseResult::Fatal(e, q) => ParseResult::Fatal(apply_map_exec(f, e), q),
            },
            Node::AndThen(inner, k) => {
                let r0 = inner.parse(s);
                proof {
                    lemma_parse_in_bounds(**inner, text, pos);
                }
                match r0 {
                    ParseResult::Success(v, q) => match k {
                        Cont::ErrIf(pr, e) => {
                            if eval_pred(pr, &v) {
                                ParseResult::Fatal(e.dup(), q)
                            } else {
                                ParseResult::Success(v, q)
                            }
                        },
                        Cont::SeqKeepFirst(second) => match second.parse(s.with_pos(q)) {
                            ParseResult::Success(_, q2) => ParseResult::Success(v, q2),
                            ParseResult::Recoverable(x, q2) => ParseResult::Recoverable(x, q2),
                            ParseResult::Fatal(e, q2) => ParseResult::Fatal(e, q2),
                        },
                        Cont::SeqKeepSecond(second) => second.parse(s.with_pos(q)),
                    },
                    ParseResult::Recoverable(x, q) => ParseResult::Recoverable(x, q),
                    ParseResult::Fatal(e, q) => ParseResult::Fatal(e, q),
                }
            },
            Node::AndThenFail(inner, second) => match inner.parse(s) {
                ParseResult::Success(v, q) => ParseResult::Success(v, q),
                ParseResult::Recoverable(_, _) => second.parse(s),
                ParseResult::Fatal(e, q) => ParseResult::Fatal(e, q),
            },
            Node::AndThenErr(inner, second) => match inner.parse(s) {
                ParseResult::Success(v, q) => ParseResult::Success(v, q),
                ParseResult::Recoverable(x, q) => ParseResult::Recoverable(x, q),
                ParseResult::Fatal(_, _) => second.parse(s),
            },
            Node::Or(first, second, st) => match first.parse(s) {
                ParseResult::Success(v, q) => ParseResult::Success(v, q),
                ParseResult::Fatal(e, q) => ParseResult::Fatal(e, q),
                ParseResult::Recoverable(f1, fp1) => match second.parse(s) {
                    ParseResult::Success(v, q) => ParseResult::Success(v, q),
                    ParseResult::Fatal(e, q) => ParseResult::Fatal(e, q),
                    ParseResult::Recoverable(f2, fp2) => ParseResult::Recoverable(
                        combine_exec(st, f1, fp1, f2, fp2),
                        s.pos,
                    ),
                },
            },
            Node::OneOf(items) => {
                let mut fails: Vec<(Failure, Pos)> = Vec::new();
                let mut i: usize = 0;
                proof {
                    lemma_one_of_in_bounds(items@, text, pos);
                    assert(items@.skip(0) =~= items@);
                    assert(fails_view(fails@) =~= Seq::<(SpecFail, Pos)>::empty());
                    match spec_one_of(items@, text, pos) {
                        SpecResult::Recoverable(SpecFail::Group(g), _) => {
                            assert(Seq::<(SpecFail, Pos)>::empty() + g =~= g);
                        },
                        _ => {},
                    }
                }
                while i < items.len()
                    invariant
                        i <= items.len(),
                        spec_one_of(items@, text, pos) == one_of_merge(
                            fails_view(fails@),
                            spec_one_of(items@.skip(i as int), text, pos),
                            pos,
                        ),
                    decreases items.len() - i,
                {
                    proof {
                        assert(decreases_to!(*self => self.node));
                        assert(decreases_to!(self.node => (self.node)->OneOf_0));
                        assert(decreases_to!((self.node)->OneOf_0 => ((self.node)->OneOf_0)@));
                        assert(((self.node)->OneOf_0)@ == items@);
                        assert(decreases_to!(items@ => items@[i as int]));
                        assert(items@.skip(i as int)[0] == items@[i as int]);
                        assert(items@.skip(i as int).skip(1) =~= items@.skip(i as int + 1));
                    }
                    let r = items[i].parse(s);
                    match r {
                        ParseResult::Success(v, q) => {
                            return ParseResult::Success(v, q);
                        },
                        ParseResult::Fatal(e, q) => {
                            return ParseResult::Fatal(e, q);
                        },
                        ParseResult::Recoverable(f, fq) => {
                            let ghost fv = f@;
                            let ghost prefix0 = fails_view(fails@);
                            proof {
                                lemma_fails_view_push(fails@, (f, fq));
                                lemma_one_of_in_bounds(items@.skip(i as int + 1), text, pos);
                                match spec_one_of(items@.skip(i as int + 1), text, pos) {
                                    SpecResult::Recoverable(SpecFail::Group(g), _) => {
                                        assert(prefix0 + (seq![(fv, fq)] + g) =~= prefix0.push(
                                            (fv, fq),
                                        ) + g);
                                    },
                                    _ => {},
                                }
                            }
                            fails.push((f, fq));
                            i = i + 1;
                        },
                    }
                }
                proof {
                    assert(items@.skip(items@.len() as int) =~= Seq::<Parser>::empty());
                    assert(fails_view(fails@) + Seq::<(SpecFail, Pos)>::empty() =~= fails_view(
                        fails@,
                    ));
                }
                ParseResult::Recoverable(Failure::Group(fails), s.pos)
            },
            Node::Filter(inner, pr, fv) => match inner.parse(s) {
                ParseResult::Success(v, q) => {
                    if eval_pred(pr, &v) {
                        ParseResult::Success(v, q)
                    } else {
                        ParseResult::Recoverable(fv.dup(), s.pos)
                    }
                },
                ParseResult::Recoverable(x, q) => ParseResult::Recoverable(x, q),
                ParseResult::Fatal(e, q) => ParseResult::Fatal(e, q),
            },
            Node::Maybe(inner) => match inner.parse(s) {
                ParseResult::Success(v, q) => ParseResult::Success(
                    Val::OptSome(Box::new(v)),
                    q,
                ),
                ParseResult::Recoverable(_, _) => ParseResult::Success(Val::OptNone, s.pos),
                ParseResult::Fatal(e, q) => ParseResult::Fatal(e, q),
            },
            Node::Repeat0(inner) => repeat_from(inner, s),
            Node::Repeat1(inner) => {
                let r0 = inner.parse(s);
                proof {
                    lemma_parse_in_bounds(**inner, text, pos);
                }
                match r0 {
                    ParseResult::Recoverable(x, q) => ParseResult::Recoverable(x, q),
                    ParseResult::Fatal(e, q) => ParseResult::Fatal(e, q),
                    ParseResult::Success(v, q) => {
                        if s.pos.offset < q.offset {
                            let rr = repeat_from(inner, s.with_pos(q));
                            proof {
                                lemma_repeat_in_bounds(**inner, text, q);
                            }
                            match rr {
                                ParseResult::Success(Val::List(items), q2) => {
                                    ParseResult::Success(Val::List(cons_val(v, items)), q2)
                                },
                                ParseResult::Fatal(e, q2) => ParseResult::Fatal(e, q2),
                                _ => {
                                    proof {
                                        assert(false);
                                    }
                                    unreached()
                                },
                            }
                        } else {
                            let mut out: Vec<Val> = Vec::new();
                            proof {
                                lemma_vals_view_push(Seq::<Val>::empty(), v);
                                assert(vals_view(Seq::<Val>::empty()) =~= Seq::<
                                    SpecVal,
                                >::empty());
                                assert(Seq::<SpecVal>::empty().push(v@) =~= seq![v@]);
                            }
                            out.push(v);
                            ParseResult::Success(Val::List(out), q)
                        }
                    },
                }
            },
            Node::Not(inner) => match inner.parse(s) {
                ParseResult::Success(_, _) => ParseResult::Recoverable(Failure::Unit, s.pos),
                ParseResult::Recoverable(_, _) => ParseResult::Success(Val::Unit, s.pos),
                ParseResult::Fatal(e, q) => ParseResult::Fatal(e, q),
            },
        }
    }
}

} // verus!
