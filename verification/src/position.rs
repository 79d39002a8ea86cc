use vstd::prelude::*;

verus! {

/// A position in some source text.
/// Positions carry the character offset together with the row and the column,
/// so a position is only meaningful for one particular source text.
#[derive(Debug, Clone, Copy, PartialEq, Eq, Hash, Structural)]
pub struct Pos {
    /// Starts at 0 and grows by exactly one per character consumed.
    pub offset: usize,
    /// Starts at 1; grows only when a line break is consumed.
    pub row: usize,
    /// Starts at 1; resets to 1 when a line break is consumed.
    pub col: usize,
}

impl Pos {
    /// A position is well formed when row and column both started at 1 and
    /// each consumed character moved exactly one of them.
    pub open spec fn wf(self) -> bool {
        1 <= self.row && 1 <= self.col && self.row + self.col <= self.offset + 2
    }

    /// The position one character further, when that character is `c`:
    /// a line break moves one row down, anything else one column right.
    pub open spec fn spec_advance(self, c: char) -> Pos {
        if c == '\n' {
            Pos { offset: (self.offset + 1) as usize, row: (self.row + 1) as usize, col: 1 }
        } else {
            Pos { offset: (self.offset + 1) as usize, row: self.row, col: (self.col + 1) as usize }
        }
    }

    /// The position after consuming every character of `cs` in order.
    pub open spec fn spec_advance_seq(self, cs: Seq<char>) -> Pos
        decreases cs.len(),
    {
        if cs.len() == 0 {
            self
        } else {
            self.spec_advance(cs[0]).spec_advance_seq(cs.skip(1))
        }
    }

    /// Creates the position at the start of a source text.
    pub fn start() -> (p: Pos)
        ensures
            p == (Pos { offset: 0, row: 1, col: 1 }),
            p.wf(),
    {
        Pos { offset: 0, row: 1, col: 1 }
    }

    /// Returns this position, one character to the right.
    pub fn right(self) -> (p: Pos)
        requires
            self.offset < usize::MAX,
            self.col < usize::MAX,
        ensures
            p == (Pos { offset: (self.offset + 1) as usize, row: self.row, col: (self.col + 1) as usize }),
    {
        Pos { offset: self.offset + 1, row: self.row, col: self.col + 1 }
    }

    /// Returns this position, one line down, *and with the column reset to 1*.
    pub fn down(self) -> (p: Pos)
        requires
            self.offset < usize::MAX,
            self.row < usize::MAX,
        ensures
            p == (Pos { offset: (self.offset + 1) as usize, row: (self.row + 1) as usize, col: 1 }),
    {
        Pos { offset: self.offset + 1, row: self.row + 1, col: 1 }
    }
}

impl Default for Pos {
    /// The default position is the start of a source text.
    fn default() -> (p: Pos)
        ensures
            p == (Pos { offset: 0, row: 1, col: 1 }),
            p.wf(),
    {
        Pos::start()
    }
}

/// Advancing one character preserves well-formedness and grows the offset by one.
pub proof fn lemma_advance_wf(p: Pos, c: char)
    requires
        p.wf(),
        p.offset < usize::MAX,
        p.col < usize::MAX,
        p.row < usize::MAX,
    ensures
        p.spec_advance(c).wf(),
        p.spec_advance(c).offset == p.offset + 1,
{
}

/// Advancing over a whole text preserves well-formedness and grows the
/// offset by its length.
pub proof fn lemma_advance_seq_wf(p: Pos, cs: Seq<char>)
    requires
        p.wf(),
        p.offset + cs.len() < usize::MAX,
    ensures
        p.spec_advance_seq(cs).wf(),
        p.spec_advance_seq(cs).offset == p.offset + cs.len(),
    decreases cs.len(),
{
    if cs.len() > 0 {
        lemma_advance_wf(p, cs[0]);
        lemma_advance_seq_wf(p.spec_advance(cs[0]), cs.skip(1));
    }
}

/// Advancing over a text and then one more character is advancing over the
/// text with that character appended.
pub proof fn lemma_advance_seq_push(p: Pos, cs: Seq<char>, c: char)
    ensures
        p.spec_advance_seq(cs.push(c)) == p.spec_advance_seq(cs).spec_advance(c),
    decreases cs.len(),
{
    if cs.len() == 0 {
        assert(cs.push(c)[0] == c);
        assert(cs.push(c).skip(1) =~= Seq::<char>::empty());
        assert(p.spec_advance(c).spec_advance_seq(Seq::<char>::empty()) == p.spec_advance(c));
        assert(p.spec_advance_seq(cs) == p);
    } else {
        assert(cs.push(c)[0] == cs[0]);
        assert(cs.push(c).skip(1) =~= cs.skip(1).push(c));
        lemma_advance_seq_push(p.spec_advance(cs[0]), cs.skip(1), c);
        assert(p.spec_advance_seq(cs.push(c)) == p.spec_advance(cs[0]).spec_advance_seq(
            cs.skip(1).push(c),
        ));
    }
}

} // verus!
