//! Source positions and the position-tracking codepoint cursor.

use vstd::prelude::*;

verus! {

/// A source position: 1-based line and column, both counted in codepoints.
#[derive(Clone, Copy, Debug, PartialEq, Eq, Structural)]
pub struct Pos {
    pub line: usize,
    pub column: usize,
}

/// Mathematical model of a `Pos`.
pub struct PosS {
    pub line: int,
    pub column: int,
}

impl View for Pos {
    type V = PosS;

    open spec fn view(&self) -> PosS {
        PosS { line: self.line as int, column: self.column as int }
    }
}

/// Lexicographic order on positions: `a` is at or before `b`.
pub open spec fn pos_le(a: PosS, b: PosS) -> bool {
    a.line < b.line || (a.line == b.line && a.column <= b.column)
}

/// Both coordinates of a position are at least 1.
pub open spec fn pos_ge1(p: PosS) -> bool {
    p.line >= 1 && p.column >= 1
}

/// The position of the first codepoint of a text.
pub open spec fn pos_origin() -> PosS {
    PosS { line: 1, column: 1 }
}

/// The position reached after consuming one codepoint: a newline starts the
/// next line at column 1, any other codepoint moves one column right.
/// The counters saturate at the machine word bound instead of wrapping.
pub open spec fn pos_step(p: PosS, c: char) -> PosS {
    if c == '\n' {
        if p.line < usize::MAX as int {
            PosS { line: p.line + 1, column: 1 }
        } else {
            p
        }
    } else {
        PosS {
            line: p.line,
            column: if p.column < usize::MAX as int { p.column + 1 } else { p.column },
        }
    }
}

/// The position reached from `p` after consuming `t[i..j]`.
pub open spec fn pos_walk(p: PosS, t: Seq<char>, i: int, j: int) -> PosS
    decreases j - i,
{
    if i < j {
        pos_step(pos_walk(p, t, i, j - 1), t[j - 1])
    } else {
        p
    }
}

/// Consuming one codepoint never moves the position backwards, and keeps
/// both coordinates at least 1.
pub proof fn lemma_pos_step_le(p: PosS, c: char)
    ensures
        pos_le(p, pos_step(p, c)),
        pos_ge1(p) ==> pos_ge1(pos_step(p, c)),
{
}

/// Consuming a range of codepoints never moves the position backwards, and
/// keeps both coordinates at least 1.
pub proof fn lemma_pos_walk_le(p: PosS, t: Seq<char>, i: int, j: int)
    requires
        i <= j,
    ensures
        pos_le(p, pos_walk(p, t, i, j)),
        pos_ge1(p) ==> pos_ge1(pos_walk(p, t, i, j)),
    decreases j - i,
{
    if i < j {
        lemma_pos_walk_le(p, t, i, j - 1);
        lemma_pos_step_le(pos_walk(p, t, i, j - 1), t[j - 1]);
    }
}

/// A cursor over a buffer of codepoints that keeps track of the current
/// line and column position as codepoints are consumed. Cloning the cursor
/// snapshots the consumption state, so a caller may attempt a greedy match
/// and retry a shorter alternative.
#[derive(Clone, Debug)]
pub struct CharsPos {
    pub text: Vec<char>,
    pub i: usize,
    pub pos: Pos,
}

impl CharsPos {
    /// The cursor has not run past the end of its text.
    pub open spec fn wf(&self) -> bool {
        self.i <= self.text.len()
    }

    /// A fresh cursor at line 1, column 1, with nothing consumed.
    pub fn new(text: Vec<char>) -> (r: CharsPos)
        ensures
            r.text == text,
            r.i == 0,
            r.pos@ == pos_origin(),
            r.wf(),
    {
        CharsPos { text, i: 0, pos: Pos { line: 1, column: 1 } }
    }

    /// The codepoints that have not been consumed yet.
    pub fn as_str(&self) -> (r: Vec<char>)
        requires
            self.wf(),
        ensures
            r@ == self.text@.skip(self.i as int),
    {
        let mut r: Vec<char> = Vec::new();
        let mut j: usize = self.i;
        while j < self.text.len()
            invariant
                self.i <= j <= self.text.len(),
                r@ == self.text@.subrange(self.i as int, j as int),
            decreases self.text.len() - j,
        {
            r.push(self.text[j]);
            proof {
                assert(self.text@.subrange(self.i as int, j + 1) =~= self.text@.subrange(
                    self.i as int,
                    j as int,
                ).push(self.text@[j as int]));
            }
            j = j + 1;
        }
        proof {
            assert(self.text@.subrange(self.i as int, self.text@.len() as int) =~= self.text@.skip(
                self.i as int,
            ));
        }
        r
    }

    /// The next codepoint, if any, without consuming it.
    pub fn peek(&self) -> (r: Option<char>)
        requires
            self.wf(),
        ensures
            r == if self.i < self.text.len() {
                Some(self.text@[self.i as int])
            } else {
                None::<char>
            },
    {
        if self.i < self.text.len() {
            Some(self.text[self.i])
        } else {
            None
        }
    }

    /// The current position.
    pub fn pos(&self) -> (p: Pos)
        ensures
            p == self.pos,
    {
        self.pos
    }

    /// Consume one codepoint, updating the position: a newline moves to the
    /// next line at column 1, anything else moves one column right.
    pub fn next(&mut self) -> (r: Option<char>)
        requires
            old(self).wf(),
        ensures
            final(self).wf(),
            final(self).text == old(self).text,
            old(self).i < old(self).text.len() ==> {
                &&& r == Some(old(self).text@[old(self).i as int])
                &&& final(self).i == old(self).i + 1
                &&& final(self).pos@ == pos_step(old(self).pos@, old(self).text@[old(self).i as int])
            },
            old(self).i >= old(self).text.len() ==> r is None && *final(self) == *old(self),
    {
        if self.i < self.text.len() {
            let c = self.text[self.i];
            self.i = self.i + 1;
            if c == '\n' {
                if self.pos.line < usize::MAX {
                    self.pos = Pos { line: self.pos.line + 1, column: 1 };
                }
            } else {
                self.pos = Pos {
                    line: self.pos.line,
                    column: if self.pos.column < usize::MAX {
                        self.pos.column + 1
                    } else {
                        self.pos.column
                    },
                };
            }
            Some(c)
        } else {
            None
        }
    }

    /// Consume codepoints up to index `j` and return them.
    pub fn consume_to(&mut self, j: usize) -> (s: Vec<char>)
        requires
            old(self).wf(),
            old(self).i <= j <= old(self).text.len(),
        ensures
            final(self).wf(),
            final(self).text == old(self).text,
            final(self).i == j,
            s@ == old(self).text@.subrange(old(self).i as int, j as int),
            final(self).pos@ == pos_walk(old(self).pos@, old(self).text@, old(self).i as int, j as int),
            pos_le(old(self).pos@, final(self).pos@),
            pos_ge1(old(self).pos@) ==> pos_ge1(final(self).pos@),
    {
        let mut s: Vec<char> = Vec::new();
        proof {
            lemma_pos_walk_le(old(self).pos@, old(self).text@, old(self).i as int, j as int);
        }
        while self.i < j
            invariant
                old(self).i <= self.i <= j <= self.text.len(),
                self.text == old(self).text,
                s@ == self.text@.subrange(old(self).i as int, self.i as int),
                self.pos@ == pos_walk(old(self).pos@, self.text@, old(self).i as int, self.i as int),
            decreases j - self.i,
        {
            let ghost k = self.i as int;
            let c = self.next();
            match c {
                Some(c) => {
                    s.push(c);
                    proof {
                        assert(self.text@.subrange(old(self).i as int, k + 1) =~= self.text@
                            .subrange(old(self).i as int, k).push(self.text@[k]));
                    }
                },
                None => {
                    proof {
                        assert(false);
                    }
                },
            }
        }
        s
    }
}

} // verus!
