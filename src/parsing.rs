//! The parsing contract, its error type, and the leaf parsers: identifiers,
//! numbers and quoted strings.

use vstd::prelude::*;

use crate::charstream::{
    lemma_skip_end_bounds, lemma_valid_pos_at, pos_at, skippable, valid_pos, CharStream, Position,
    Span, StreamView, WhitespaceType,
};
use crate::text::{
    chars_of, letter, digit, is_alphabetic, is_alphanumeric, is_numeric, string_of,
};
use crate::tokens::{LeftQuote, RightQuote};

pub use crate::combinators::{Either, Group, Indent, List};

verus! {

/// The two ways a parse can fail.
#[derive(Clone, Copy, Debug, PartialEq, Eq, Structural)]
pub enum ErrorKind {
    /// Nothing matched here: a caller may try another alternative.
    NotFound,
    /// Something started to match and could not be completed: no backtracking.
    Error,
}

/// A failed parse: its kind, a message and where it happened.
#[derive(Clone, Debug)]
pub struct ParseError {
    pub kind: ErrorKind,
    pub message: String,
    pub position: Position,
}

impl ParseError {
    /// A soft failure: nothing was found at `position`.
    pub fn new(cause: &str, position: Position) -> (r: ParseError)
        ensures
            r.kind == ErrorKind::NotFound,
            r.message@ == cause@,
            r.position == position,
    {
        ParseError { kind: ErrorKind::NotFound, message: cause.to_owned(), position }
    }

    /// A hard failure: the input is malformed at `position`.
    pub fn error(cause: &str, position: Position) -> (r: ParseError)
        ensures
            r.kind == ErrorKind::Error,
            r.message@ == cause@,
            r.position == position,
    {
        ParseError { kind: ErrorKind::Error, message: cause.to_owned(), position }
    }

    pub open spec fn is_error(&self) -> bool {
        self.kind == ErrorKind::Error
    }

    /// The one-line diagnostic `{row}:{column}:Error: '{message}'`.
    pub fn render(&self) -> (r: String)
        ensures
            r@ == diagnostic(self.position.row as nat, self.position.column as nat, self.message@),
    {
        let mut out: Vec<char> = Vec::new();
        push_decimal(&mut out, self.position.row);
        out.push(':');
        push_decimal(&mut out, self.position.column);
        let mut tail = vec![':', 'E', 'r', 'r', 'o', 'r', ':', ' ', '\''];
        out.append(&mut tail);
        let mut message = chars_of(self.message.as_str());
        out.append(&mut message);
        out.push('\'');
        assert(out@ =~= diagnostic(self.position.row as nat, self.position.column as nat, self.message@));
        string_of(&out)
    }
}

/// The digit characters, by value.
pub open spec fn digit_chars() -> Seq<char> {
    seq!['0', '1', '2', '3', '4', '5', '6', '7', '8', '9']
}

/// The decimal digits of `n`, most significant first.
pub open spec fn decimal(n: nat) -> Seq<char>
    decreases n,
{
    if n < 10 {
        seq![digit_chars()[n as int]]
    } else {
        decimal(n / 10).push(digit_chars()[(n % 10) as int])
    }
}

/// How a failure at `row` and `column` with `message` is shown.
pub open spec fn diagnostic(row: nat, column: nat, message: Seq<char>) -> Seq<char> {
    decimal(row) + seq![':'] + decimal(column) + seq![':', 'E', 'r', 'r', 'o', 'r', ':', ' ', '\'']
        + message + seq!['\'']
}

fn digit_char(d: usize) -> (r: char)
    requires
        d < 10,
    ensures
        r == digit_chars()[d as int],
{
    let digits = vec!['0', '1', '2', '3', '4', '5', '6', '7', '8', '9'];
    assert(digits@ =~= digit_chars());
    digits[d]
}

fn push_decimal(out: &mut Vec<char>, n: usize)
    ensures
        final(out)@ == old(out)@ + decimal(n as nat),
    decreases n,
{
    if n < 10 {
        out.push(digit_char(n));
        assert(out@ =~= old(out)@ + decimal(n as nat));
    } else {
        push_decimal(out, n / 10);
        out.push(digit_char(n % 10));
    }
}

/// `s` is the span of a value read from `before`, leaving the stream at
/// `after`: it ends where the stream ended up, and it starts where the stream
/// stood, past any whitespace the stream's mode skips.
pub open spec fn span_read(before: StreamView, s: Span, after: StreamView) -> bool {
    &&& s.end == after.pos
    &&& valid_pos(before.input, s.start)
    &&& before.pos.offset <= s.start.offset <= s.end.offset
    &&& forall|i: int|
        before.pos.offset <= i < s.start.offset ==> skippable(before.mode, #[trigger] before.input[i])
}

/// Values that can be read from a [`CharStream`].
pub trait Parse: Sized {
    /// The span `span` returns.
    spec fn spec_span(&self) -> Span;

    /// `r` is an outcome of parsing from `before` that leaves the stream at `after`.
    spec fn parsed(before: StreamView, r: Result<Self, ParseError>, after: StreamView) -> bool;

    /// Reads a value. On success the stream stands just past the value, and the
    /// value's span runs from where the value starts to there.
    fn parse(value: &mut CharStream) -> (r: Result<Self, ParseError>)
        requires
            old(value)@.wf(),
        ensures
            final(value)@.wf(),
            final(value)@.input == old(value)@.input,
            final(value)@.mode == old(value)@.mode,
            Self::parsed(old(value)@, r, final(value)@),
            r is Ok ==> span_read(old(value)@, r->Ok_0.spec_span(), final(value)@),
    ;

    /// Where the value stands in the input.
    fn span(&self) -> (r: Span)
        ensures
            r == self.spec_span(),
    ;
}

/// In a stream that keeps its whitespace, a value's span runs exactly from
/// the position before the parse to the position after it.
pub proof fn lemma_span_exact(before: StreamView, s: Span, after: StreamView)
    requires
        before.wf(),
        before.mode == WhitespaceType::KeepAll,
        span_read(before, s, after),
    ensures
        s.start == before.pos,
        s.end == after.pos,
{
}

/// Whether `c` may begin a word: a digit for numbers, a letter for identifiers.
pub open spec fn word_first(numeric: bool, c: char) -> bool {
    if numeric {
        digit(c)
    } else {
        letter(c)
    }
}

/// Whether `c` may continue a word: a digit for numbers, a letter or digit
/// for identifiers.
pub open spec fn word_rest(numeric: bool, c: char) -> bool {
    if numeric {
        digit(c)
    } else {
        letter(c) || digit(c)
    }
}

/// The end of the run of characters from `i` on that may continue a word.
pub open spec fn word_end(s: Seq<char>, numeric: bool, i: nat) -> nat
    decreases s.len() - i,
{
    if i < s.len() && word_rest(numeric, s[i as int]) {
        word_end(s, numeric, i + 1)
    } else {
        i
    }
}

/// Where a word starting at offset `j` of `s` ends, if one starts there.
pub open spec fn word_at(s: Seq<char>, numeric: bool, j: nat) -> Option<nat> {
    if j < s.len() && word_first(numeric, s[j as int]) {
        Some(word_end(s, numeric, j + 1))
    } else {
        None
    }
}

proof fn lemma_word_end_bounds(s: Seq<char>, numeric: bool, i: nat)
    requires
        i <= s.len(),
    ensures
        i <= word_end(s, numeric, i) <= s.len(),
    decreases s.len() - i,
{
    if i < s.len() && word_rest(numeric, s[i as int]) {
        lemma_word_end_bounds(s, numeric, i + 1);
    }
}

/// Reads the next word (past the whitespace the mode skips) and no
/// whitespace inside it; where none starts there, returns `None` and stays put.
fn read_word(value: &mut CharStream, numeric: bool) -> (r: Option<(Vec<char>, Span)>)
    requires
        old(value)@.wf(),
    ensures
        final(value)@.wf(),
        ({
            let s = old(value)@.input;
            let j = old(value)@.next_offset();
            match word_at(s, numeric, j) {
                Some(e) => {
                    &&& r is Some
                    &&& r->Some_0.0@ == s.subrange(j as int, e as int)
                    &&& r->Some_0.1 == (Span { start: pos_at(s, j), end: pos_at(s, e) })
                    &&& final(value)@ == old(value)@.at(pos_at(s, e))
                },
                None => r is None && final(value)@ == old(value)@,
            }
        }),
{
    let ghost s = value@.input;
    let ghost j = value@.next_offset();
    let mode = value.whitespace();
    proof {
        lemma_skip_end_bounds(s, mode, value@.pos.offset as nat);
        lemma_valid_pos_at(s, j);
    }
    let first = value.skipped_position();
    let c = match value.peek() {
        Some(c) => c,
        None => return None,
    };
    let starts = if numeric {
        is_numeric(c)
    } else {
        is_alphabetic(c)
    };
    if !starts {
        return None;
    }
    let mut word: Vec<char> = Vec::new();
    value.next();
    word.push(c);
    value.set_whitespace(WhitespaceType::KeepAll);
    proof {
        lemma_word_end_bounds(s, numeric, j + 1);
        lemma_valid_pos_at(s, j + 1);
        assert(word@ =~= s.subrange(j as int, (j + 1) as int));
    }
    loop
        invariant
            value@.wf(),
            value@.input == s,
            value@.mode == WhitespaceType::KeepAll,
            j + 1 <= value@.pos.offset <= word_end(s, numeric, j + 1),
            word_end(s, numeric, value@.pos.offset as nat) == word_end(s, numeric, j + 1),
            word@ == s.subrange(j as int, value@.pos.offset as int),
            word_end(s, numeric, j + 1) <= s.len(),
        ensures
            value@.wf(),
            value@.input == s,
            value@.pos.offset == word_end(s, numeric, j + 1),
            word@ == s.subrange(j as int, value@.pos.offset as int),
        decreases s.len() - value@.pos.offset,
    {
        let ghost k = value@.pos.offset as nat;
        proof {
            lemma_skip_end_bounds(s, WhitespaceType::KeepAll, k);
            if k < s.len() {
                lemma_word_end_bounds(s, numeric, k + 1);
            }
        }
        let d = match value.peek() {
            Some(d) => d,
            None => break,
        };
        let more = if numeric {
            is_numeric(d)
        } else {
            is_alphanumeric(d)
        };
        if !more {
            break;
        }
        value.next();
        word.push(d);
        proof {
            assert(word@ =~= s.subrange(j as int, (k + 1) as int));
        }
    }
    value.set_whitespace(mode);
    let end = value.position();
    proof {
        lemma_valid_pos_at(s, end.offset as nat);
    }
    Some((word, Span { start: first, end }))
}

/// The offset of the first double quote at or after `i`, or the end of `s`.
pub open spec fn quote_end(s: Seq<char>, i: nat) -> nat
    decreases s.len() - i,
{
    if i < s.len() && s[i as int] != '"' {
        quote_end(s, i + 1)
    } else {
        i
    }
}

proof fn lemma_quote_end_bounds(s: Seq<char>, i: nat)
    requires
        i <= s.len(),
    ensures
        i <= quote_end(s, i) <= s.len(),
        quote_end(s, i) < s.len() ==> s[quote_end(s, i) as int] == '"',
    decreases s.len() - i,
{
    if i < s.len() && s[i as int] != '"' {
        lemma_quote_end_bounds(s, i + 1);
    }
}

/// A string between double quotes, whitespace inside it kept as written.
#[derive(Clone, Debug)]
pub struct StringValue {
    value: Vec<char>,
    span: Span,
}

impl View for StringValue {
    type V = Seq<char>;

    closed spec fn view(&self) -> Seq<char> {
        self.value@
    }
}

impl StringValue {
    /// The characters that were read.
    pub fn value(&self) -> (r: String)
        ensures
            r@ == self@,
    {
        string_of(&self.value)
    }
}

impl Parse for StringValue {
    closed spec fn spec_span(&self) -> Span {
        self.span
    }

    /// A soft failure, with the stream left where it was, where the next
    /// character is no double quote; a hard failure where the string is
    /// never closed; else the characters up to the next double quote.
    open spec fn parsed(before: StreamView, r: Result<Self, ParseError>, after: StreamView) -> bool {
        let s = before.input;
        let j = before.next_offset();
        if j < s.len() && s[j as int] == '"' {
            let q = quote_end(s, j + 1);
            if q < s.len() {
                &&& r is Ok
                &&& r->Ok_0@ == s.subrange((j + 1) as int, q as int)
                &&& r->Ok_0.spec_span() == (Span { start: pos_at(s, j), end: pos_at(s, q + 1) })
                &&& after == before.at(pos_at(s, q + 1))
            } else {
                &&& r is Err
                &&& r->Err_0.kind == ErrorKind::Error
                &&& r->Err_0.position == pos_at(s, s.len())
                &&& after == before.at(pos_at(s, s.len()))
            }
        } else {
            &&& r is Err
            &&& r->Err_0.kind == ErrorKind::NotFound
            &&& r->Err_0.position == before.pos
            &&& after == before
        }
    }

    fn parse(value: &mut CharStream) -> (r: Result<Self, ParseError>) {
        let ghost s = value@.input;
        let ghost j = value@.next_offset();
        let mode = value.whitespace();
        proof {
            lemma_skip_end_bounds(s, mode, value@.pos.offset as nat);
            lemma_valid_pos_at(s, j);
            if j < s.len() && s[j as int] == '"' {
                assert(s.subrange(j as int, (j + 1) as int) =~= seq!['"']);
            }
        }
        let left = match LeftQuote::parse(value) {
            Ok(t) => t,
            Err(e) => return Err(e),
        };
        proof {
            assert(s.subrange(j as int, (j + 1) as int)[0] == s[j as int]);
            lemma_quote_end_bounds(s, j + 1);
        }
        value.set_whitespace(WhitespaceType::KeepAll);
        let mut text: Vec<char> = Vec::new();
        proof {
            assert(text@ =~= s.subrange((j + 1) as int, (j + 1) as int));
        }
        loop
            invariant
                value@.wf(),
                value@.input == s,
                value@.mode == WhitespaceType::KeepAll,
                j + 1 <= value@.pos.offset <= quote_end(s, j + 1),
                quote_end(s, value@.pos.offset as nat) == quote_end(s, j + 1),
                quote_end(s, j + 1) <= s.len(),
                text@ == s.subrange((j + 1) as int, value@.pos.offset as int),
            ensures
                value@.wf(),
                value@.input == s,
                value@.mode == WhitespaceType::KeepAll,
                value@.pos.offset == quote_end(s, j + 1),
                text@ == s.subrange((j + 1) as int, value@.pos.offset as int),
            decreases s.len() - value@.pos.offset,
        {
            let ghost k = value@.pos.offset as nat;
            proof {
                lemma_skip_end_bounds(s, WhitespaceType::KeepAll, k);
                if k < s.len() {
                    lemma_quote_end_bounds(s, k + 1);
                }
            }
            let c = match value.peek() {
                Some(c) => c,
                None => break,
            };
            if c == '"' {
                break;
            }
            value.next();
            text.push(c);
            proof {
                assert(text@ =~= s.subrange((j + 1) as int, (k + 1) as int));
            }
        }
        proof {
            let q = value@.pos.offset as nat;
            lemma_skip_end_bounds(s, WhitespaceType::KeepAll, q);
            lemma_valid_pos_at(s, q);
            if q < s.len() {
                assert(s.subrange(q as int, (q + 1) as int) =~= seq!['"']);
                lemma_valid_pos_at(s, q + 1);
            }
        }
        let right = RightQuote::parse(value);
        value.set_whitespace(mode);
        match right {
            Ok(right) => Ok(StringValue { value: text, span: Span { start: left.span.start, end: right.span.end } }),
            Err(_) => Err(ParseError::error("Could not find the end of the string", value.position())),
        }
    }

    fn span(&self) -> (r: Span) {
        self.span
    }
}

/// An identifier: a letter followed by letters and digits.
#[derive(Clone, Debug)]
pub struct Identifier {
    identifier: Vec<char>,
    span: Span,
}

impl View for Identifier {
    type V = Seq<char>;

    closed spec fn view(&self) -> Seq<char> {
        self.identifier@
    }
}

impl Identifier {
    /// The characters that were read.
    pub fn value(&self) -> (r: String)
        ensures
            r@ == self@,
    {
        string_of(&self.identifier)
    }
}

impl Parse for Identifier {
    closed spec fn spec_span(&self) -> Span {
        self.span
    }

    /// The longest identifier at the next character; a soft failure, with the
    /// stream left where it was, where no letter stands there.
    open spec fn parsed(before: StreamView, r: Result<Self, ParseError>, after: StreamView) -> bool {
        let s = before.input;
        let j = before.next_offset();
        match word_at(s, false, j) {
            Some(e) => {
                &&& r is Ok
                &&& r->Ok_0@ == s.subrange(j as int, e as int)
                &&& r->Ok_0.spec_span() == (Span { start: pos_at(s, j), end: pos_at(s, e) })
                &&& after == before.at(pos_at(s, e))
            },
            None => {
                &&& r is Err
                &&& r->Err_0.kind == ErrorKind::NotFound
                &&& r->Err_0.position == before.pos
                &&& after == before
            },
        }
    }

    fn parse(value: &mut CharStream) -> (r: Result<Self, ParseError>) {
        let start = value.position();
        proof {
            lemma_skip_end_bounds(value@.input, value@.mode, value@.pos.offset as nat);
            lemma_valid_pos_at(value@.input, value@.next_offset());
            if value@.next_offset() < value@.input.len() {
                lemma_word_end_bounds(value@.input, false, value@.next_offset() + 1);
            }
        }
        match read_word(value, false) {
            Some((identifier, span)) => Ok(Identifier { identifier, span }),
            None => Err(ParseError::new("Did not find identifier", start)),
        }
    }

    fn span(&self) -> (r: Span) {
        self.span
    }
}

impl Identifier {
    /// Whether the identifier is spelled `word`.
    pub fn is(&self, word: &str) -> (r: bool)
        ensures
            r == (self@ == word@),
    {
        let other = chars_of(word);
        if other.len() != self.identifier.len() {
            return false;
        }
        let mut i: usize = 0;
        while i < other.len()
            invariant
                other.len() == self.identifier.len(),
                other@ == word@,
                i <= other.len(),
                forall|k: int| 0 <= k < i ==> other@[k] == self.identifier@[k],
            decreases other.len() - i,
        {
            if other[i] != self.identifier[i] {
                return false;
            }
            i = i + 1;
        }
        assert(other@ =~= self.identifier@);
        true
    }
}

impl PartialEq<&str> for Identifier {
    fn eq(&self, other: &&str) -> (r: bool) {
        self.is(other)
    }
}

impl vstd::std_specs::cmp::PartialEqSpecImpl<&str> for Identifier {
    open spec fn obeys_eq_spec() -> bool {
        true
    }

    open spec fn eq_spec(&self, other: &&str) -> bool {
        self@ == (*other)@
    }
}

/// A whole number written in digits: no sign, point or exponent.
#[derive(Clone, Debug)]
pub struct Number {
    value: Vec<char>,
    span: Span,
}

impl View for Number {
    type V = Seq<char>;

    closed spec fn view(&self) -> Seq<char> {
        self.value@
    }
}

impl Number {
    /// The characters that were read.
    pub fn value(&self) -> (r: String)
        ensures
            r@ == self@,
    {
        string_of(&self.value)
    }
}

impl Parse for Number {
    closed spec fn spec_span(&self) -> Span {
        self.span
    }

    /// The longest run of digits at the next character; a soft failure, with
    /// the stream left where it was, where no digit stands there.
    open spec fn parsed(before: StreamView, r: Result<Self, ParseError>, after: StreamView) -> bool {
        let s = before.input;
        let j = before.next_offset();
        match word_at(s, true, j) {
            Some(e) => {
                &&& r is Ok
                &&& r->Ok_0@ == s.subrange(j as int, e as int)
                &&& r->Ok_0.spec_span() == (Span { start: pos_at(s, j), end: pos_at(s, e) })
                &&& after == before.at(pos_at(s, e))
            },
            None => {
                &&& r is Err
                &&& r->Err_0.kind == ErrorKind::NotFound
                &&& r->Err_0.position == before.pos
                &&& after == before
            },
        }
    }

    fn parse(value: &mut CharStream) -> (r: Result<Self, ParseError>) {
        let start = value.position();
        proof {
            lemma_skip_end_bounds(value@.input, value@.mode, value@.pos.offset as nat);
            lemma_valid_pos_at(value@.input, value@.next_offset());
            if value@.next_offset() < value@.input.len() {
                lemma_word_end_bounds(value@.input, true, value@.next_offset() + 1);
            }
        }
        match read_word(value, true) {
            Some((digits, span)) => Ok(Number { value: digits, span }),
            None => Err(ParseError::new("Did not find number", start)),
        }
    }

    fn span(&self) -> (r: Span) {
        self.span
    }
}

} // verus!
