//! Source positions and spans.
use vstd::prelude::*;

verus! {

/// A position in source text: a character offset, a line and a column.
#[derive(Clone, Copy, Debug, Default, PartialEq, Eq, Hash, Structural)]
pub struct Pos {
    pub offset: usize,
    pub line: usize,
    pub column: usize,
}

/// The position after one more character: a newline starts a new line.
pub open spec fn step(p: Pos, c: char) -> Pos {
    if c == '\n' {
        Pos { offset: (p.offset + 1) as usize, line: (p.line + 1) as usize, column: 0 }
    } else {
        Pos { offset: (p.offset + 1) as usize, line: p.line, column: (p.column + 1) as usize }
    }
}

/// The position after reading the characters `s` from `p`.
pub open spec fn pos_after(p: Pos, s: Seq<char>) -> Pos
    decreases s.len(),
{
    if s.len() == 0 {
        p
    } else {
        step(pos_after(p, s.drop_last()), s.last())
    }
}

/// Every counter of `p` can grow by `n` without overflow.
pub open spec fn has_room(p: Pos, n: int) -> bool {
    &&& p.offset + n <= usize::MAX
    &&& p.line + n <= usize::MAX
    &&& p.column + n <= usize::MAX
}

pub proof fn lemma_pos_after_bounds(p: Pos, s: Seq<char>)
    requires
        has_room(p, s.len() as int),
    ensures
        pos_after(p, s).offset == p.offset + s.len(),
        pos_after(p, s).line <= p.line + s.len(),
        pos_after(p, s).column <= p.column + s.len(),
    decreases s.len(),
{
    if s.len() > 0 {
        lemma_pos_after_bounds(p, s.drop_last());
    }
}

impl Pos {
    /// The position after reading `input`, tracking newlines.
    pub fn after(self, input: &str) -> (r: Pos)
        requires
            has_room(self, input@.len() as int),
        ensures
            r == pos_after(self, input@),
    {
        let n = input.unicode_len();
        let mut p = self;
        let mut i: usize = 0;
        while i < n
            invariant
                n == input@.len(),
                has_room(self, n as int),
                i <= n,
                p == pos_after(self, input@.subrange(0, i as int)),
            decreases n - i,
        {
            let c = input.get_char(i);
            proof {
                lemma_pos_after_bounds(self, input@.subrange(0, i as int));
                assert(input@.subrange(0, i + 1).drop_last() =~= input@.subrange(0, i as int));
            }
            if c == '\n' {
                p = Pos { offset: p.offset + 1, line: p.line + 1, column: 0 };
            } else {
                p = Pos { offset: p.offset + 1, line: p.line, column: p.column + 1 };
            }
            i = i + 1;
        }
        assert(input@.subrange(0, n as int) =~= input@);
        p
    }

    /// The position `lines` lines and `chars` characters further on, at the start of a line.
    pub fn advance_lines(self, lines: usize, chars: usize) -> (r: Pos)
        requires
            self.offset + chars <= usize::MAX,
            self.line + lines <= usize::MAX,
        ensures
            r == (Pos { offset: (self.offset + chars) as usize, line: (self.line + lines) as usize, column: 0 }),
    {
        Pos { offset: self.offset + chars, line: self.line + lines, column: 0 }
    }

    /// The position `columns` characters further on the same line: the caller
    /// knows that no newline lies between.
    pub fn advance_columns(self, columns: usize) -> (r: Pos)
        requires
            self.offset + columns <= usize::MAX,
            self.column + columns <= usize::MAX,
        ensures
            r == (Pos {
                offset: (self.offset + columns) as usize,
                line: self.line,
                column: (self.column + columns) as usize,
            }),
            forall|s: Seq<char>| s.len() == columns && !s.contains('\n') ==> r == pos_after(self, s),
    {
        proof {
            assert forall|s: Seq<char>| s.len() == columns && !s.contains('\n') implies
                pos_after(self, s) == (Pos {
                    offset: (self.offset + columns) as usize,
                    line: self.line,
                    column: (self.column + columns) as usize,
                }) by {
                lemma_after_same_line(self, s);
            }
        }
        Pos { offset: self.offset + columns, line: self.line, column: self.column + columns }
    }

    /// The span from this position to `to`.
    pub fn span(self, to: Pos) -> (r: Span)
        ensures
            r == (Span { start: self, end: to }),
    {
        Span::new(self, to)
    }
}

proof fn lemma_after_same_line(p: Pos, s: Seq<char>)
    requires
        !s.contains('\n'),
        p.offset + s.len() <= usize::MAX,
        p.column + s.len() <= usize::MAX,
    ensures
        pos_after(p, s) == (Pos {
            offset: (p.offset + s.len()) as usize,
            line: p.line,
            column: (p.column + s.len()) as usize,
        }),
    decreases s.len(),
{
    if s.len() > 0 {
        assert(!s.drop_last().contains('\n')) by {
            if s.drop_last().contains('\n') {
                let k = choose|k: int| 0 <= k < s.drop_last().len() && s.drop_last()[k] == '\n';
                assert(s[k] == '\n');
            }
        }
        assert(s[s.len() - 1] != '\n');
        lemma_after_same_line(p, s.drop_last());
    }
}

/// A range of source text.
#[derive(Clone, Copy, Debug, Default, PartialEq, Eq, Hash, Structural)]
pub struct Span {
    pub start: Pos,
    pub end: Pos,
}

impl Span {
    pub fn new(start: Pos, end: Pos) -> (r: Span)
        ensures
            r == (Span { start, end }),
    {
        Span { start, end }
    }
}

/// A value together with the span of text it came from.
#[derive(Clone, Copy, Debug, PartialEq, Eq, Hash)]
pub struct Spanning<T> {
    pub inner: T,
    pub span: Span,
}

impl<T> Spanning<T> {
    pub fn new(inner: T, span: Span) -> (r: Spanning<T>)
        ensures
            r == (Spanning { inner, span }),
    {
        Spanning { inner, span }
    }
}

} // verus!
