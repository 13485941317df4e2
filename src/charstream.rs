//! Positions, spans and the character stream that parsers read from.

use vstd::prelude::*;

use crate::parsing::ParseError;
use crate::text::{space, is_whitespace};

verus! {

/// A location in the input: zero-based row and column, and the character offset.
#[derive(Clone, Copy, Debug, PartialEq, Eq, Structural)]
pub struct Position {
    pub row: usize,
    pub column: usize,
    pub offset: usize,
}

/// The half-open range of input between two positions.
#[derive(Clone, Copy, Debug, PartialEq, Eq, Structural)]
pub struct Span {
    pub start: Position,
    pub end: Position,
}

impl Span {
    pub fn new(start: Position, end: Position) -> (r: Span)
        ensures
            r == (Span { start, end }),
    {
        Span { start, end }
    }
}

/// How a stream treats whitespace between the characters it hands out.
#[derive(Clone, Copy, Debug, PartialEq, Eq, Structural)]
pub enum WhitespaceType {
    /// Whitespace is handed out like any other character.
    KeepAll,
    /// Whitespace is skipped before each character.
    SkipAll,
    /// Whitespace is skipped, and the indentation of each line is measured.
    Indent,
}

/// Row and column reached after reading the first `k` characters of `s`.
pub open spec fn row_col(s: Seq<char>, k: nat) -> (nat, nat)
    decreases k,
{
    if k == 0 || k > s.len() {
        (0, 0)
    } else {
        let rc = row_col(s, (k - 1) as nat);
        if s[k - 1] == '\n' {
            (rc.0 + 1, 0)
        } else {
            (rc.0, rc.1 + 1)
        }
    }
}

/// The position reached after reading the first `k` characters of `s`.
pub open spec fn pos_at(s: Seq<char>, k: nat) -> Position {
    Position { row: row_col(s, k).0 as usize, column: row_col(s, k).1 as usize, offset: k as usize }
}

/// `p` is the position reached after reading exactly `p.offset` characters of `s`.
pub open spec fn valid_pos(s: Seq<char>, p: Position) -> bool {
    &&& p.offset <= s.len()
    &&& p.row == row_col(s, p.offset as nat).0
    &&& p.column == row_col(s, p.offset as nat).1
}

/// `lit` stands in `s` from offset `j` on.
pub open spec fn literal_at(s: Seq<char>, j: nat, lit: Seq<char>) -> bool {
    &&& j + lit.len() <= s.len()
    &&& s.subrange(j as int, (j + lit.len()) as int) == lit
}

/// Within an input that fits in memory, a valid position is the one its offset names.
pub proof fn lemma_valid_pos_at(s: Seq<char>, k: nat)
    requires
        k <= s.len() <= usize::MAX,
    ensures
        valid_pos(s, pos_at(s, k)),
        forall|p: Position| valid_pos(s, p) && p.offset == k ==> p == pos_at(s, k),
{
    lemma_row_col_bounded(s, k);
}

/// The position at the very start of any input.
pub open spec fn origin() -> Position {
    Position { row: 0, column: 0, offset: 0 }
}

/// The position after reading one more character `c` from `p`.
pub open spec fn step(p: Position, c: char) -> Position {
    if c == '\n' {
        Position { row: (p.row + 1) as usize, column: 0, offset: (p.offset + 1) as usize }
    } else {
        Position { row: p.row, column: (p.column + 1) as usize, offset: (p.offset + 1) as usize }
    }
}

/// Whether `c` is passed over, unread, under `mode`.
pub open spec fn skippable(mode: WhitespaceType, c: char) -> bool {
    mode != WhitespaceType::KeepAll && space(c)
}

/// The first offset at or after `k` that holds a character `mode` does not skip.
pub open spec fn skip_end(s: Seq<char>, mode: WhitespaceType, k: nat) -> nat
    decreases s.len() - k,
{
    if k < s.len() && skippable(mode, s[k as int]) {
        skip_end(s, mode, k + 1)
    } else {
        k
    }
}

/// The offset at which the line holding offset `k` begins.
pub open spec fn line_start(s: Seq<char>, k: nat) -> nat
    decreases k,
{
    if k == 0 || k > s.len() {
        0
    } else if s[k - 1] == '\n' {
        k
    } else {
        line_start(s, (k - 1) as nat)
    }
}

/// The number of spaces and tabs that begin at offset `i`.
pub open spec fn leading_blanks(s: Seq<char>, i: nat) -> nat
    decreases s.len() - i,
{
    if i < s.len() && (s[i as int] == ' ' || s[i as int] == '\t') {
        1 + leading_blanks(s, i + 1)
    } else {
        0
    }
}

/// The indentation of the line on which the next character read from `k` lies.
pub open spec fn indent_at(s: Seq<char>, mode: WhitespaceType, k: nat) -> nat {
    leading_blanks(s, line_start(s, skip_end(s, mode, k)))
}

pub proof fn lemma_row_col_bounded(s: Seq<char>, k: nat)
    ensures
        row_col(s, k).0 <= k,
        row_col(s, k).1 <= k,
        k <= s.len() ==> row_col(s, k).1 + line_start(s, k) == k,
    decreases k,
{
    if k > 0 {
        lemma_row_col_bounded(s, (k - 1) as nat);
    }
}

/// Reading the character at a valid position gives a valid position.
pub proof fn lemma_step_valid(s: Seq<char>, p: Position)
    requires
        valid_pos(s, p),
        p.offset < s.len() <= usize::MAX,
    ensures
        valid_pos(s, step(p, s[p.offset as int])),
{
    lemma_row_col_bounded(s, p.offset as nat);
    assert(row_col(s, (p.offset + 1) as nat) == {
        let rc = row_col(s, p.offset as nat);
        if s[p.offset as int] == '\n' { (rc.0 + 1, 0nat) } else { (rc.0, rc.1 + 1) }
    });
}

pub proof fn lemma_skip_end_bounds(s: Seq<char>, mode: WhitespaceType, k: nat)
    requires
        k <= s.len(),
    ensures
        k <= skip_end(s, mode, k) <= s.len(),
        skip_end(s, mode, k) < s.len() ==> !skippable(mode, s[skip_end(s, mode, k) as int]),
        mode == WhitespaceType::KeepAll ==> skip_end(s, mode, k) == k,
        forall|i: int| k <= i < skip_end(s, mode, k) ==> skippable(mode, #[trigger] s[i]),
    decreases s.len() - k,
{
    if k < s.len() && skippable(mode, s[k as int]) {
        lemma_skip_end_bounds(s, mode, k + 1);
    }
}

/// The input of a stream, where it stands, and how it treats whitespace.
#[verifier::ext_equal]
pub ghost struct StreamView {
    pub input: Seq<char>,
    pub pos: Position,
    pub mode: WhitespaceType,
}

impl StreamView {
    pub open spec fn wf(self) -> bool {
        &&& self.input.len() <= usize::MAX
        &&& valid_pos(self.input, self.pos)
    }

    /// The offset of the next character this stream hands out.
    pub open spec fn next_offset(self) -> nat {
        skip_end(self.input, self.mode, self.pos.offset as nat)
    }

    /// The same stream moved to `p`.
    pub open spec fn at(self, p: Position) -> StreamView {
        StreamView { pos: p, ..self }
    }
}

/// A read position over an immutable sequence of characters.
///
/// Backtracking is done by saving a [`Position`] and going back to it.
#[derive(Clone, Debug)]
pub struct CharStream {
    input: Vec<char>,
    position: Position,
    whitespace: WhitespaceType,
}

impl View for CharStream {
    type V = StreamView;

    closed spec fn view(&self) -> StreamView {
        StreamView { input: self.input@, pos: self.position, mode: self.whitespace }
    }
}

impl CharStream {
    /// A stream at the start of `input` that skips whitespace.
    pub fn new(input: &str) -> (r: CharStream)
        ensures
            r@.input == input@,
            r@.pos == origin(),
            r@.mode == WhitespaceType::SkipAll,
            r@.wf(),
    {
        let chars = crate::text::chars_of(input);
        let _len = chars.len();
        CharStream {
            input: chars,
            position: Position { row: 0, column: 0, offset: 0 },
            whitespace: WhitespaceType::SkipAll,
        }
    }

    /// The same stream with another whitespace mode.
    pub fn build(self, whitespace: WhitespaceType) -> (r: CharStream)
        ensures
            r@ == (StreamView { mode: whitespace, ..self@ }),
    {
        CharStream { whitespace, ..self }
    }

    pub fn position(&self) -> (r: Position)
        ensures
            r == self@.pos,
    {
        self.position
    }

    pub fn whitespace(&self) -> (r: WhitespaceType)
        ensures
            r == self@.mode,
    {
        self.whitespace
    }

    pub fn set_whitespace(&mut self, whitespace: WhitespaceType)
        ensures
            final(self)@ == (StreamView { mode: whitespace, ..old(self)@ }),
    {
        self.whitespace = whitespace;
    }

    /// The position of the next character that would be handed out, past
    /// whatever whitespace the mode skips.
    pub fn skipped_position(&self) -> (r: Position)
        requires
            self@.wf(),
        ensures
            r.offset == self@.next_offset(),
            valid_pos(self@.input, r),
    {
        let mut p = self.position;
        let n = self.input.len();
        proof {
            lemma_skip_end_bounds(self@.input, self@.mode, p.offset as nat);
        }
        while p.offset < n
            invariant
                n == self@.input.len(),
                valid_pos(self@.input, p),
                self@.pos.offset <= p.offset <= self@.next_offset(),
                skip_end(self@.input, self@.mode, p.offset as nat) == self@.next_offset(),
            ensures
                skip_end(self@.input, self@.mode, p.offset as nat) == p.offset,
                valid_pos(self@.input, p),
                skip_end(self@.input, self@.mode, p.offset as nat) == self@.next_offset(),
            decreases n - p.offset,
        {
            let c = self.input[p.offset];
            if self.whitespace == WhitespaceType::KeepAll || !is_whitespace(c) {
                assert(!skippable(self@.mode, self@.input[p.offset as int]));
                break;
            }
            proof {
                lemma_step_valid(self@.input, p);
                lemma_row_col_bounded(self@.input, p.offset as nat);
                lemma_skip_end_bounds(self@.input, self@.mode, (p.offset + 1) as nat);
            }
            p = advance_position(p, c);
        }
        p
    }

    /// The next character, without moving.
    pub fn peek(&self) -> (r: Option<char>)
        requires
            self@.wf(),
        ensures
            self@.next_offset() < self@.input.len() ==> r == Some(
                self@.input[self@.next_offset() as int],
            ),
            self@.next_offset() >= self@.input.len() ==> r is None,
    {
        let p = self.skipped_position();
        if p.offset < self.input.len() {
            Some(self.input[p.offset])
        } else {
            None
        }
    }

    /// Hands out the next character, passing over the whitespace the mode
    /// skips; at the end of the input returns `None` and stays put.
    pub fn next(&mut self) -> (r: Option<char>)
        requires
            old(self)@.wf(),
        ensures
            final(self)@.wf(),
            final(self)@.input == old(self)@.input,
            final(self)@.mode == old(self)@.mode,
            old(self)@.next_offset() < old(self)@.input.len() ==> {
                &&& r == Some(old(self)@.input[old(self)@.next_offset() as int])
                &&& final(self)@.pos.offset == old(self)@.next_offset() + 1
            },
            old(self)@.next_offset() >= old(self)@.input.len() ==> r is None && final(self)@
                == old(self)@,
    {
        let p = self.skipped_position();
        if p.offset < self.input.len() {
            let c = self.input[p.offset];
            proof {
                lemma_step_valid(self@.input, p);
                lemma_row_col_bounded(self@.input, p.offset as nat);
            }
            self.position = advance_position(p, c);
            Some(c)
        } else {
            None
        }
    }

    /// The indentation of the line holding the next character.
    pub fn indent(&self) -> (r: usize)
        requires
            self@.wf(),
        ensures
            r == indent_at(self@.input, self@.mode, self@.pos.offset as nat),
    {
        let p = self.skipped_position();
        proof {
            lemma_row_col_bounded(self@.input, p.offset as nat);
        }
        let start = p.offset - p.column;
        let mut i = start;
        let n = self.input.len();
        while i < n && (self.input[i] == ' ' || self.input[i] == '\t')
            invariant
                n == self@.input.len(),
                start <= i <= n,
                leading_blanks(self@.input, start as nat) == (i - start) + leading_blanks(
                    self@.input,
                    i as nat,
                ),
            decreases n - i,
        {
            i = i + 1;
        }
        i - start
    }

    /// Rolls back to `p`, a position of this input at or before the current one.
    pub fn goto(&mut self, p: Position) -> (r: Result<(), ParseError>)
        requires
            old(self)@.wf(),
        ensures
            final(self)@.wf(),
            r is Ok <==> valid_pos(old(self)@.input, p) && p.offset <= old(self)@.pos.offset,
            r is Ok ==> final(self)@ == old(self)@.at(p),
            r is Err ==> final(self)@ == old(self)@ && r->Err_0.is_error(),
    {
        if p.offset > self.position.offset {
            return Err(ParseError::error("position lies past what has been read", p));
        }
        let mut q = Position { row: 0, column: 0, offset: 0 };
        while q.offset < p.offset
            invariant
                p.offset <= self@.pos.offset,
                self@.wf(),
                p.offset <= self@.input.len() <= usize::MAX,
                q.offset <= p.offset,
                valid_pos(self@.input, q),
            decreases p.offset - q.offset,
        {
            proof {
                lemma_step_valid(self@.input, q);
                lemma_row_col_bounded(self@.input, q.offset as nat);
            }
            q = advance_position(q, self.input[q.offset]);
        }
        if q == p {
            self.position = p;
            Ok(())
        } else {
            Err(ParseError::error("position does not belong to this input", p))
        }
    }

    /// Reads `literal` as the next characters, after the whitespace the mode
    /// skips; where they are not there, returns `None` and stays put.
    pub fn eat(&mut self, literal: &Vec<char>) -> (r: Option<Span>)
        requires
            old(self)@.wf(),
        ensures
            final(self)@.wf(),
            final(self)@.input == old(self)@.input,
            final(self)@.mode == old(self)@.mode,
            ({
                let s = old(self)@.input;
                let j = old(self)@.next_offset();
                if literal_at(s, j, literal@) {
                    &&& r == Some(
                        Span { start: pos_at(s, j), end: pos_at(s, j + literal@.len()) },
                    )
                    &&& final(self)@ == old(self)@.at(pos_at(s, j + literal@.len()))
                } else {
                    r is None && final(self)@ == old(self)@
                }
            }),
    {
        let ghost s = self@.input;
        let start = self.skipped_position();
        let n = self.input.len();
        let m = literal.len();
        proof {
            lemma_valid_pos_at(s, start.offset as nat);
        }
        if n - start.offset < m {
            return None;
        }
        let mut q = start;
        let mut i: usize = 0;
        while i < m
            invariant
                n == s.len() <= usize::MAX,
                self@ == old(self)@,
                old(self)@.wf(),
                s == self@.input,
                start.offset == old(self)@.next_offset(),
                m == literal@.len(),
                start.offset + m <= n,
                start == pos_at(s, start.offset as nat),
                i <= m,
                q.offset == start.offset + i,
                q == pos_at(s, q.offset as nat),
                s.subrange(start.offset as int, q.offset as int) == literal@.subrange(0, i as int),
            decreases m - i,
        {
            let c = self.input[q.offset];
            if c != literal[i] {
                assert(s.subrange(start.offset as int, start.offset + m)[i as int] != literal@[i as int]);
                return None;
            }
            proof {
                lemma_valid_pos_at(s, q.offset as nat);
                lemma_step_valid(s, q);
                lemma_valid_pos_at(s, (q.offset + 1) as nat);
                lemma_row_col_bounded(s, q.offset as nat);
                assert(s.subrange(start.offset as int, q.offset + 1) =~= s.subrange(
                    start.offset as int,
                    q.offset as int,
                ).push(c));
                assert(literal@.subrange(0, i + 1) =~= literal@.subrange(0, i as int).push(
                    literal@[i as int],
                ));
            }
            q = advance_position(q, c);
            i = i + 1;
        }
        assert(literal@.subrange(0, m as int) =~= literal@);
        proof {
            lemma_valid_pos_at(s, q.offset as nat);
        }
        self.position = q;
        Some(Span { start, end: q })
    }

    /// Returns to a position of this input saved earlier.
    pub(crate) fn restore(&mut self, p: Position)
        requires
            valid_pos(old(self)@.input, p),
        ensures
            final(self)@ == old(self)@.at(p),
    {
        self.position = p;
    }
}

fn advance_position(p: Position, c: char) -> (r: Position)
    requires
        p.row < p.offset + 1 <= usize::MAX,
        p.column < p.offset + 1 <= usize::MAX,
    ensures
        r == step(p, c),
{
    if c == '\n' {
        Position { row: p.row + 1, column: 0, offset: p.offset + 1 }
    } else {
        Position { row: p.row, column: p.column + 1, offset: p.offset + 1 }
    }
}

} // verus!
