use vstd::prelude::*;
use vstd::string::StrSliceExecFns;

use crate::position::Pos;

verus! {

/// The input of a parse: a read-only view of the source text together with
/// the cursor. A state borrows the text, so it is cheap to copy.
#[derive(Debug, Clone, Copy)]
pub struct State<'input> {
    pub text: &'input str,
    pub pos: Pos,
}

impl<'input> State<'input> {
    /// A state is well formed when the cursor is a well-formed position that
    /// does not run past the end of the text. The bound on the text length is
    /// a machine limit: it keeps every position one character further
    /// representable.
    pub open spec fn wf(self) -> bool {
        self.pos.wf() && self.pos.offset <= self.text@.len() && self.text@.len() < usize::MAX
    }

    /// A fresh state at the start of `text`.
    pub fn new(text: &'input str) -> (s: State<'input>)
        requires
            text@.len() < usize::MAX,
        ensures
            s.text == text,
            s.pos == (Pos { offset: 0, row: 1, col: 1 }),
            s.wf(),
    {
        let pos = Pos::start();
        State { text, pos }
    }

    /// A state at an arbitrary position of `text`.
    pub fn at(text: &'input str, pos: Pos) -> (s: State<'input>)
        requires
            pos.wf(),
            pos.offset <= text@.len(),
            text@.len() < usize::MAX,
        ensures
            s.text == text,
            s.pos == pos,
            s.wf(),
    {
        State { text, pos }
    }

    /// This state with the cursor moved to `pos`.
    pub fn with_pos(self, pos: Pos) -> (s: State<'input>)
        requires
            pos.wf(),
            pos.offset <= self.text@.len(),
        ensures
            s.text == self.text,
            s.pos == pos,
            self.wf() ==> s.wf(),
    {
        State { pos, ..self }
    }

    /// The input that is still to be consumed: the text from the cursor on.
    pub fn rest(&self) -> (r: &'input str)
        requires
            self.wf(),
        ensures
            r@ == self.text@.skip(self.pos.offset as int),
    {
        let len: usize = self.text.unicode_len();
        let r = self.text.substring_char(self.pos.offset, len);
        proof {
            assert(r@ =~= self.text@.skip(self.pos.offset as int));
        }
        r
    }

    /// Whether the cursor stands at the end of the text.
    pub fn eof(&self) -> (r: bool)
        requires
            self.wf(),
        ensures
            r == (self.pos.offset >= self.text@.len()),
    {
        self.pos.offset >= self.text.unicode_len()
    }
}

impl<'input> From<&'input str> for State<'input> {
    /// A fresh state at the start of `text`.
    fn from(text: &'input str) -> (s: State<'input>) {
        State { text, pos: Pos { offset: 0, row: 1, col: 1 } }
    }
}

impl<'input> vstd::std_specs::convert::FromSpecImpl<&'input str> for State<'input> {
    open spec fn obeys_from_spec() -> bool {
        true
    }

    open spec fn from_spec(text: &'input str) -> State<'input> {
        State { text, pos: Pos { offset: 0, row: 1, col: 1 } }
    }
}

} // verus!
