use vstd::prelude::*;

use crate::position::Pos;

verus! {

/// A value produced by a successful parse, and also the payload of the fatal
/// error channel. The engine is agnostic to what a parse produces, so one
/// dynamic value type covers every channel.
#[derive(Debug, PartialEq, Eq)]
pub enum Val {
    /// No information, as produced by recognizers such as `eof`.
    Unit,
    /// A truth value.
    Bool(bool),
    /// One character, as produced by the character primitives.
    Ch(char),
    /// A piece of text, as produced by joining collected characters.
    Text(Vec<char>),
    /// An ordered collection, as produced by the repetition combinators.
    List(Vec<Val>),
    /// An absent optional value, as produced by `maybe`.
    OptNone,
    /// A present optional value, as produced by `maybe`.
    OptSome(Box<Val>),
    /// A cursor position, as produced by `state`.
    Mark(Pos),
}

/// The mathematical model of a `Val`.
pub enum SpecVal {
    Unit,
    Bool(bool),
    Ch(char),
    Text(Seq<char>),
    List(Seq<SpecVal>),
    OptNone,
    OptSome(Box<SpecVal>),
    Mark(Pos),
}

/// The model of a value: lists become sequences of models.
pub open spec fn val_view(v: Val) -> SpecVal
    decreases v,
{
    match v {
        Val::Unit => SpecVal::Unit,
        Val::Bool(b) => SpecVal::Bool(b),
        Val::Ch(c) => SpecVal::Ch(c),
        Val::Text(cs) => SpecVal::Text(cs@),
        Val::List(items) => SpecVal::List(vals_view(items@)),
        Val::OptNone => SpecVal::OptNone,
        Val::OptSome(inner) => SpecVal::OptSome(Box::new(val_view(*inner))),
        Val::Mark(p) => SpecVal::Mark(p),
    }
}

/// The models of a sequence of values, element by element, in order.
pub open spec fn vals_view(items: Seq<Val>) -> Seq<SpecVal>
    decreases items,
{
    if items.len() == 0 {
        Seq::empty()
    } else {
        vals_view(items.drop_last()).push(val_view(items.last()))
    }
}

impl View for Val {
    type V = SpecVal;

    open spec fn view(&self) -> SpecVal {
        val_view(*self)
    }
}

/// The payload of the recoverable-failure channel. Alternation merges such
/// payloads; `Group` is the ordered aggregate that `one_of` builds.
#[derive(Debug, PartialEq, Eq)]
pub enum Failure {
    /// A failure whose detail was discarded.
    Unit,
    /// The character primitive met the end of the input.
    Eof,
    /// The consumed character was not whitespace.
    NotWhitespace,
    /// The consumed character was not a letter.
    NotALetter,
    /// The consumed character was not a digit.
    NotADigit,
    /// The expected text was not found at the cursor.
    NotFound,
    /// The failures of rejected alternatives, each with the position where
    /// its mismatch was detected, in the order the alternatives were tried.
    Group(Vec<(Failure, Pos)>),
}

/// The mathematical model of a `Failure`.
pub enum SpecFail {
    Unit,
    Eof,
    NotWhitespace,
    NotALetter,
    NotADigit,
    NotFound,
    Group(Seq<(SpecFail, Pos)>),
}

/// The model of a failure: aggregates become sequences of models.
pub open spec fn fail_view(f: Failure) -> SpecFail
    decreases f,
{
    match f {
        Failure::Unit => SpecFail::Unit,
        Failure::Eof => SpecFail::Eof,
        Failure::NotWhitespace => SpecFail::NotWhitespace,
        Failure::NotALetter => SpecFail::NotALetter,
        Failure::NotADigit => SpecFail::NotADigit,
        Failure::NotFound => SpecFail::NotFound,
        Failure::Group(items) => SpecFail::Group(fails_view(items@)),
    }
}

/// The models of a sequence of located failures, in order.
pub open spec fn fails_view(items: Seq<(Failure, Pos)>) -> Seq<(SpecFail, Pos)>
    decreases items,
{
    if items.len() == 0 {
        Seq::empty()
    } else {
        fails_view(items.drop_last()).push((fail_view(items.last().0), items.last().1))
    }
}

impl View for Failure {
    type V = SpecFail;

    open spec fn view(&self) -> SpecFail {
        fail_view(*self)
    }
}

impl Val {
    /// An exact copy of this value.
    #[verifier::loop_isolation(false)]
    pub fn dup(&self) -> (r: Val)
        ensures
            r@ == self@,
        decreases *self,
    {
        match self {
            Val::Unit => Val::Unit,
            Val::Bool(b) => Val::Bool(*b),
            Val::Ch(c) => Val::Ch(*c),
            Val::Text(cs) => {
                let mut out: Vec<char> = Vec::new();
                let mut i: usize = 0;
                while i < cs.len()
                    invariant
                        i <= cs.len(),
                        out@ == cs@.take(i as int),
                    decreases cs.len() - i,
                {
                    out.push(cs[i]);
                    i = i + 1;
                    proof {
                        assert(out@ =~= cs@.take(i as int));
                    }
                }
                proof {
                    assert(out@ =~= cs@);
                }
                Val::Text(out)
            },
            Val::List(items) => {
                let mut out: Vec<Val> = Vec::new();
                let mut i: usize = 0;
                while i < items.len()
                    invariant
                        i <= items.len(),
                        vals_view(out@) =~= vals_view(items@.take(i as int)),
                    decreases items.len() - i,
                {
                    proof {
                        assert(decreases_to!(*self => (*self)->List_0));
                        assert(decreases_to!((*self)->List_0 => ((*self)->List_0)@));
                        assert(((*self)->List_0)@ == items@);
                        assert(decreases_to!(items@ => items@[i as int]));
                        assert(decreases_to!(*self => items@[i as int]));
                    }
                    let copy = items[i].dup();
                    proof {
                        lemma_vals_view_push(out@, copy);
                        lemma_vals_view_push(items@.take(i as int), items@[i as int]);
                        assert(items@.take(i as int).push(items@[i as int]) =~= items@.take(
                            i as int + 1,
                        ));
                    }
                    out.push(copy);
                    i = i + 1;
                }
                proof {
                    assert(items@.take(items@.len() as int) =~= items@);
                }
                Val::List(out)
            },
            Val::OptNone => Val::OptNone,
            Val::OptSome(inner) => Val::OptSome(Box::new(inner.dup())),
            Val::Mark(p) => Val::Mark(*p),
        }
    }
}

impl Failure {
    /// An exact copy of this failure.
    #[verifier::loop_isolation(false)]
    pub fn dup(&self) -> (r: Failure)
        ensures
            r@ == self@,
        decreases *self,
    {
        match self {
            Failure::Unit => Failure::Unit,
            Failure::Eof => Failure::Eof,
            Failure::NotWhitespace => Failure::NotWhitespace,
            Failure::NotALetter => Failure::NotALetter,
            Failure::NotADigit => Failure::NotADigit,
            Failure::NotFound => Failure::NotFound,
            Failure::Group(items) => {
                let mut out: Vec<(Failure, Pos)> = Vec::new();
                let mut i: usize = 0;
                while i < items.len()
                    invariant
                        i <= items.len(),
                        fails_view(out@) =~= fails_view(items@.take(i as int)),
                    decreases items.len() - i,
                {
                    proof {
                        assert(decreases_to!(*self => items@));
                        assert(decreases_to!(items@ => items@[i as int]));
                        assert(decreases_to!(items@[i as int] => items@[i as int].0));
                        assert(decreases_to!(*self => items@[i as int].0));
                    }
                    let copy = items[i].0.dup();
                    let at = items[i].1;
                    proof {
                        lemma_fails_view_push(out@, (copy, at));
                        lemma_fails_view_push(items@.take(i as int), items@[i as int]);
                        assert(items@.take(i as int).push(items@[i as int]) =~= items@.take(
                            i as int + 1,
                        ));
                    }
                    out.push((copy, at));
                    i = i + 1;
                }
                proof {
                    assert(items@.take(items@.len() as int) =~= items@);
                }
                Failure::Group(out)
            },
        }
    }
}

/// Pushing a value onto a sequence pushes its model onto the model sequence.
pub proof fn lemma_vals_view_push(items: Seq<Val>, v: Val)
    ensures
        vals_view(items.push(v)) =~= vals_view(items).push(val_view(v)),
{
    assert(items.push(v).drop_last() =~= items);
    assert(items.push(v).last() == v);
}

/// The model sequence has the same length, and models each element in place.
pub proof fn lemma_vals_view_index(items: Seq<Val>)
    ensures
        vals_view(items).len() == items.len(),
        forall|i: int| 0 <= i < items.len() ==> vals_view(items)[i] == val_view(#[trigger] items[i]),
    decreases items.len(),
{
    if items.len() > 0 {
        lemma_vals_view_index(items.drop_last());
        assert forall|i: int| 0 <= i < items.len() implies vals_view(items)[i] == val_view(
            #[trigger] items[i],
        ) by {
            if i < items.len() - 1 {
                assert(items.drop_last()[i] == items[i]);
                assert(vals_view(items)[i] == vals_view(items.drop_last())[i]);
            } else {
                assert(items.last() == items[i]);
            }
        }
    }
}

/// Pushing a located failure pushes its model, in place.
pub proof fn lemma_fails_view_push(items: Seq<(Failure, Pos)>, f: (Failure, Pos))
    ensures
        fails_view(items.push(f)) =~= fails_view(items).push((fail_view(f.0), f.1)),
{
    assert(items.push(f).drop_last() =~= items);
    assert(items.push(f).last() == f);
}

} // verus!
