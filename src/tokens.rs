//! Literal tokens and the delimiter pairs that bracket a group.

use vstd::prelude::*;

use crate::charstream::{
    lemma_skip_end_bounds, lemma_valid_pos_at, literal_at, pos_at, CharStream, Span, StreamView,
};
use crate::parsing::{span_read, ErrorKind, Parse, ParseError};

verus! {

/// A fixed, non-empty literal.
pub trait Token: Parse {
    /// A token that was read moved the stream forward.
    proof fn lemma_progress(before: StreamView, t: Self, after: StreamView)
        requires
            before.wf(),
            Self::parsed(before, Ok(t), after),
        ensures
            after.pos.offset > before.pos.offset,
    ;
}

/// A pair of tokens that open and close a group.
pub trait Delimiter: Sized {
    type Start: Token;
    type End: Token;

    spec fn spec_start(&self) -> Self::Start;

    spec fn spec_end(&self) -> Self::End;

    fn new(start: Self::Start, end: Self::End) -> (r: Self)
        ensures
            r.spec_start() == start,
            r.spec_end() == end,
    ;

    fn start(&self) -> (r: &Self::Start)
        ensures
            *r == self.spec_start(),
    ;

    fn end(&self) -> (r: &Self::End)
        ensures
            *r == self.spec_end(),
    ;
}

/// `r` is the outcome of reading the literal `lit` from `before`, leaving the
/// stream at `after`: the literal's span where it stands next, or else a soft
/// failure at the starting position with the stream left where it was.
pub open spec fn token_parsed(
    lit: Seq<char>,
    before: StreamView,
    r: Result<Span, ParseError>,
    after: StreamView,
) -> bool {
    let s = before.input;
    let j = before.next_offset();
    if literal_at(s, j, lit) {
        &&& r == Ok::<Span, ParseError>(Span { start: pos_at(s, j), end: pos_at(s, j + lit.len()) })
        &&& after == before.at(pos_at(s, j + lit.len()))
    } else {
        &&& r is Err
        &&& r->Err_0.kind == ErrorKind::NotFound
        &&& r->Err_0.position == before.pos
        &&& after == before
    }
}

pub proof fn lemma_token_progress(lit: Seq<char>, before: StreamView, sp: Span, after: StreamView)
    requires
        before.wf(),
        lit.len() > 0,
        token_parsed(lit, before, Ok(sp), after),
    ensures
        after.pos.offset > before.pos.offset,
{
    lemma_skip_end_bounds(before.input, before.mode, before.pos.offset as nat);
}

fn read_token(value: &mut CharStream, lit: Vec<char>, cause: &str) -> (r: Result<Span, ParseError>)
    requires
        old(value)@.wf(),
    ensures
        final(value)@.wf(),
        final(value)@.input == old(value)@.input,
        final(value)@.mode == old(value)@.mode,
        token_parsed(lit@, old(value)@, r, final(value)@),
        r is Ok ==> span_read(old(value)@, r->Ok_0, final(value)@),
{
    let start = value.position();
    proof {
        lemma_skip_end_bounds(value@.input, value@.mode, value@.pos.offset as nat);
        lemma_valid_pos_at(value@.input, value@.next_offset());
    }
    match value.eat(&lit) {
        Some(span) => Ok(span),
        None => Err(ParseError::new(cause, start)),
    }
}

/// The literal `,`.
#[derive(Clone, Copy, Debug, PartialEq, Eq, Structural)]
pub struct Comma {
    pub span: Span,
}

impl Parse for Comma {
    open spec fn spec_span(&self) -> Span {
        self.span
    }

    open spec fn parsed(before: StreamView, r: Result<Self, ParseError>, after: StreamView) -> bool {
        match r {
            Ok(t) => token_parsed(seq![','], before, Ok(t.span), after),
            Err(e) => token_parsed(seq![','], before, Err(e), after),
        }
    }

    fn parse(value: &mut CharStream) -> (r: Result<Self, ParseError>) {
        let lit = vec![','];
        assert(lit@ =~= seq![',']);
        match read_token(value, lit, "could not find token ','") {
            Ok(span) => Ok(Comma { span }),
            Err(e) => Err(e),
        }
    }

    fn span(&self) -> (r: Span) {
        self.span
    }
}

impl Token for Comma {
    proof fn lemma_progress(before: StreamView, t: Self, after: StreamView) {
        lemma_token_progress(seq![','], before, t.span, after);
    }
}

/// The literal `.`.
#[derive(Clone, Copy, Debug, PartialEq, Eq, Structural)]
pub struct Period {
    pub span: Span,
}

impl Parse for Period {
    open spec fn spec_span(&self) -> Span {
        self.span
    }

    open spec fn parsed(before: StreamView, r: Result<Self, ParseError>, after: StreamView) -> bool {
        match r {
            Ok(t) => token_parsed(seq!['.'], before, Ok(t.span), after),
            Err(e) => token_parsed(seq!['.'], before, Err(e), after),
        }
    }

    fn parse(value: &mut CharStream) -> (r: Result<Self, ParseError>) {
        let lit = vec!['.'];
        assert(lit@ =~= seq!['.']);
        match read_token(value, lit, "could not find token '.'") {
            Ok(span) => Ok(Period { span }),
            Err(e) => Err(e),
        }
    }

    fn span(&self) -> (r: Span) {
        self.span
    }
}

impl Token for Period {
    proof fn lemma_progress(before: StreamView, t: Self, after: StreamView) {
        lemma_token_progress(seq!['.'], before, t.span, after);
    }
}

/// The literal `!`.
#[derive(Clone, Copy, Debug, PartialEq, Eq, Structural)]
pub struct Bang {
    pub span: Span,
}

impl Parse for Bang {
    open spec fn spec_span(&self) -> Span {
        self.span
    }

    open spec fn parsed(before: StreamView, r: Result<Self, ParseError>, after: StreamView) -> bool {
        match r {
            Ok(t) => token_parsed(seq!['!'], before, Ok(t.span), after),
            Err(e) => token_parsed(seq!['!'], before, Err(e), after),
        }
    }

    fn parse(value: &mut CharStream) -> (r: Result<Self, ParseError>) {
        let lit = vec!['!'];
        assert(lit@ =~= seq!['!']);
        match read_token(value, lit, "could not find token '!'") {
            Ok(span) => Ok(Bang { span }),
            Err(e) => Err(e),
        }
    }

    fn span(&self) -> (r: Span) {
        self.span
    }
}

impl Token for Bang {
    proof fn lemma_progress(before: StreamView, t: Self, after: StreamView) {
        lemma_token_progress(seq!['!'], before, t.span, after);
    }
}

/// The literal `#`.
#[derive(Clone, Copy, Debug, PartialEq, Eq, Structural)]
pub struct Hash {
    pub span: Span,
}

impl Parse for Hash {
    open spec fn spec_span(&self) -> Span {
        self.span
    }

    open spec fn parsed(before: StreamView, r: Result<Self, ParseError>, after: StreamView) -> bool {
        match r {
            Ok(t) => token_parsed(seq!['#'], before, Ok(t.span), after),
            Err(e) => token_parsed(seq!['#'], before, Err(e), after),
        }
    }

    fn parse(value: &mut CharStream) -> (r: Result<Self, ParseError>) {
        let lit = vec!['#'];
        assert(lit@ =~= seq!['#']);
        match read_token(value, lit, "could not find token '#'") {
            Ok(span) => Ok(Hash { span }),
            Err(e) => Err(e),
        }
    }

    fn span(&self) -> (r: Span) {
        self.span
    }
}

impl Token for Hash {
    proof fn lemma_progress(before: StreamView, t: Self, after: StreamView) {
        lemma_token_progress(seq!['#'], before, t.span, after);
    }
}

/// The literal `=`.
#[derive(Clone, Copy, Debug, PartialEq, Eq, Structural)]
pub struct Equal {
    pub span: Span,
}

impl Parse for Equal {
    open spec fn spec_span(&self) -> Span {
        self.span
    }

    open spec fn parsed(before: StreamView, r: Result<Self, ParseError>, after: StreamView) -> bool {
        match r {
            Ok(t) => token_parsed(seq!['='], before, Ok(t.span), after),
            Err(e) => token_parsed(seq!['='], before, Err(e), after),
        }
    }

    fn parse(value: &mut CharStream) -> (r: Result<Self, ParseError>) {
        let lit = vec!['='];
        assert(lit@ =~= seq!['=']);
        match read_token(value, lit, "could not find token '='") {
            Ok(span) => Ok(Equal { span }),
            Err(e) => Err(e),
        }
    }

    fn span(&self) -> (r: Span) {
        self.span
    }
}

impl Token for Equal {
    proof fn lemma_progress(before: StreamView, t: Self, after: StreamView) {
        lemma_token_progress(seq!['='], before, t.span, after);
    }
}

/// The literal `==`.
#[derive(Clone, Copy, Debug, PartialEq, Eq, Structural)]
pub struct EqualEqual {
    pub span: Span,
}

impl Parse for EqualEqual {
    open spec fn spec_span(&self) -> Span {
        self.span
    }

    open spec fn parsed(before: StreamView, r: Result<Self, ParseError>, after: StreamView) -> bool {
        match r {
            Ok(t) => token_parsed(seq!['=', '='], before, Ok(t.span), after),
            Err(e) => token_parsed(seq!['=', '='], before, Err(e), after),
        }
    }

    fn parse(value: &mut CharStream) -> (r: Result<Self, ParseError>) {
        let lit = vec!['=', '='];
        assert(lit@ =~= seq!['=', '=']);
        match read_token(value, lit, "could not find token '=='") {
            Ok(span) => Ok(EqualEqual { span }),
            Err(e) => Err(e),
        }
    }

    fn span(&self) -> (r: Span) {
        self.span
    }
}

impl Token for EqualEqual {
    proof fn lemma_progress(before: StreamView, t: Self, after: StreamView) {
        lemma_token_progress(seq!['=', '='], before, t.span, after);
    }
}

/// The literal `:`.
#[derive(Clone, Copy, Debug, PartialEq, Eq, Structural)]
pub struct Colon {
    pub span: Span,
}

impl Parse for Colon {
    open spec fn spec_span(&self) -> Span {
        self.span
    }

    open spec fn parsed(before: StreamView, r: Result<Self, ParseError>, after: StreamView) -> bool {
        match r {
            Ok(t) => token_parsed(seq![':'], before, Ok(t.span), after),
            Err(e) => token_parsed(seq![':'], before, Err(e), after),
        }
    }

    fn parse(value: &mut CharStream) -> (r: Result<Self, ParseError>) {
        let lit = vec![':'];
        assert(lit@ =~= seq![':']);
        match read_token(value, lit, "could not find token ':'") {
            Ok(span) => Ok(Colon { span }),
            Err(e) => Err(e),
        }
    }

    fn span(&self) -> (r: Span) {
        self.span
    }
}

impl Token for Colon {
    proof fn lemma_progress(before: StreamView, t: Self, after: StreamView) {
        lemma_token_progress(seq![':'], before, t.span, after);
    }
}

/// The literal `::`.
#[derive(Clone, Copy, Debug, PartialEq, Eq, Structural)]
pub struct DoubleColon {
    pub span: Span,
}

impl Parse for DoubleColon {
    open spec fn spec_span(&self) -> Span {
        self.span
    }

    open spec fn parsed(before: StreamView, r: Result<Self, ParseError>, after: StreamView) -> bool {
        match r {
            Ok(t) => token_parsed(seq![':', ':'], before, Ok(t.span), after),
            Err(e) => token_parsed(seq![':', ':'], before, Err(e), after),
        }
    }

    fn parse(value: &mut CharStream) -> (r: Result<Self, ParseError>) {
        let lit = vec![':', ':'];
        assert(lit@ =~= seq![':', ':']);
        match read_token(value, lit, "could not find token '::'") {
            Ok(span) => Ok(DoubleColon { span }),
            Err(e) => Err(e),
        }
    }

    fn span(&self) -> (r: Span) {
        self.span
    }
}

impl Token for DoubleColon {
    proof fn lemma_progress(before: StreamView, t: Self, after: StreamView) {
        lemma_token_progress(seq![':', ':'], before, t.span, after);
    }
}

/// The literal `;`.
#[derive(Clone, Copy, Debug, PartialEq, Eq, Structural)]
pub struct Semicolon {
    pub span: Span,
}

impl Parse for Semicolon {
    open spec fn spec_span(&self) -> Span {
        self.span
    }

    open spec fn parsed(before: StreamView, r: Result<Self, ParseError>, after: StreamView) -> bool {
        match r {
            Ok(t) => token_parsed(seq![';'], before, Ok(t.span), after),
            Err(e) => token_parsed(seq![';'], before, Err(e), after),
        }
    }

    fn parse(value: &mut CharStream) -> (r: Result<Self, ParseError>) {
        let lit = vec![';'];
        assert(lit@ =~= seq![';']);
        match read_token(value, lit, "could not find token ';'") {
            Ok(span) => Ok(Semicolon { span }),
            Err(e) => Err(e),
        }
    }

    fn span(&self) -> (r: Span) {
        self.span
    }
}

impl Token for Semicolon {
    proof fn lemma_progress(before: StreamView, t: Self, after: StreamView) {
        lemma_token_progress(seq![';'], before, t.span, after);
    }
}

/// The literal `<`.
#[derive(Clone, Copy, Debug, PartialEq, Eq, Structural)]
pub struct Less {
    pub span: Span,
}

impl Parse for Less {
    open spec fn spec_span(&self) -> Span {
        self.span
    }

    open spec fn parsed(before: StreamView, r: Result<Self, ParseError>, after: StreamView) -> bool {
        match r {
            Ok(t) => token_parsed(seq!['<'], before, Ok(t.span), after),
            Err(e) => token_parsed(seq!['<'], before, Err(e), after),
        }
    }

    fn parse(value: &mut CharStream) -> (r: Result<Self, ParseError>) {
        let lit = vec!['<'];
        assert(lit@ =~= seq!['<']);
        match read_token(value, lit, "could not find token '<'") {
            Ok(span) => Ok(Less { span }),
            Err(e) => Err(e),
        }
    }

    fn span(&self) -> (r: Span) {
        self.span
    }
}

impl Token for Less {
    proof fn lemma_progress(before: StreamView, t: Self, after: StreamView) {
        lemma_token_progress(seq!['<'], before, t.span, after);
    }
}

/// The literal `>`.
#[derive(Clone, Copy, Debug, PartialEq, Eq, Structural)]
pub struct Greater {
    pub span: Span,
}

impl Parse for Greater {
    open spec fn spec_span(&self) -> Span {
        self.span
    }

    open spec fn parsed(before: StreamView, r: Result<Self, ParseError>, after: StreamView) -> bool {
        match r {
            Ok(t) => token_parsed(seq!['>'], before, Ok(t.span), after),
            Err(e) => token_parsed(seq!['>'], before, Err(e), after),
        }
    }

    fn parse(value: &mut CharStream) -> (r: Result<Self, ParseError>) {
        let lit = vec!['>'];
        assert(lit@ =~= seq!['>']);
        match read_token(value, lit, "could not find token '>'") {
            Ok(span) => Ok(Greater { span }),
            Err(e) => Err(e),
        }
    }

    fn span(&self) -> (r: Span) {
        self.span
    }
}

impl Token for Greater {
    proof fn lemma_progress(before: StreamView, t: Self, after: StreamView) {
        lemma_token_progress(seq!['>'], before, t.span, after);
    }
}

/// The literal `/`.
#[derive(Clone, Copy, Debug, PartialEq, Eq, Structural)]
pub struct ForwardSlash {
    pub span: Span,
}

impl Parse for ForwardSlash {
    open spec fn spec_span(&self) -> Span {
        self.span
    }

    open spec fn parsed(before: StreamView, r: Result<Self, ParseError>, after: StreamView) -> bool {
        match r {
            Ok(t) => token_parsed(seq!['/'], before, Ok(t.span), after),
            Err(e) => token_parsed(seq!['/'], before, Err(e), after),
        }
    }

    fn parse(value: &mut CharStream) -> (r: Result<Self, ParseError>) {
        let lit = vec!['/'];
        assert(lit@ =~= seq!['/']);
        match read_token(value, lit, "could not find token '/'") {
            Ok(span) => Ok(ForwardSlash { span }),
            Err(e) => Err(e),
        }
    }

    fn span(&self) -> (r: Span) {
        self.span
    }
}

impl Token for ForwardSlash {
    proof fn lemma_progress(before: StreamView, t: Self, after: StreamView) {
        lemma_token_progress(seq!['/'], before, t.span, after);
    }
}

/// The literal `|`.
#[derive(Clone, Copy, Debug, PartialEq, Eq, Structural)]
pub struct Pipe {
    pub span: Span,
}

impl Parse for Pipe {
    open spec fn spec_span(&self) -> Span {
        self.span
    }

    open spec fn parsed(before: StreamView, r: Result<Self, ParseError>, after: StreamView) -> bool {
        match r {
            Ok(t) => token_parsed(seq!['|'], before, Ok(t.span), after),
            Err(e) => token_parsed(seq!['|'], before, Err(e), after),
        }
    }

    fn parse(value: &mut CharStream) -> (r: Result<Self, ParseError>) {
        let lit = vec!['|'];
        assert(lit@ =~= seq!['|']);
        match read_token(value, lit, "could not find token '|'") {
            Ok(span) => Ok(Pipe { span }),
            Err(e) => Err(e),
        }
    }

    fn span(&self) -> (r: Span) {
        self.span
    }
}

impl Token for Pipe {
    proof fn lemma_progress(before: StreamView, t: Self, after: StreamView) {
        lemma_token_progress(seq!['|'], before, t.span, after);
    }
}

/// The literal `&`.
#[derive(Clone, Copy, Debug, PartialEq, Eq, Structural)]
pub struct Ampersand {
    pub span: Span,
}

impl Parse for Ampersand {
    open spec fn spec_span(&self) -> Span {
        self.span
    }

    open spec fn parsed(before: StreamView, r: Result<Self, ParseError>, after: StreamView) -> bool {
        match r {
            Ok(t) => token_parsed(seq!['&'], before, Ok(t.span), after),
            Err(e) => token_parsed(seq!['&'], before, Err(e), after),
        }
    }

    fn parse(value: &mut CharStream) -> (r: Result<Self, ParseError>) {
        let lit = vec!['&'];
        assert(lit@ =~= seq!['&']);
        match read_token(value, lit, "could not find token '&'") {
            Ok(span) => Ok(Ampersand { span }),
            Err(e) => Err(e),
        }
    }

    fn span(&self) -> (r: Span) {
        self.span
    }
}

impl Token for Ampersand {
    proof fn lemma_progress(before: StreamView, t: Self, after: StreamView) {
        lemma_token_progress(seq!['&'], before, t.span, after);
    }
}

/// The opening `(` of parentheses.
#[derive(Clone, Copy, Debug, PartialEq, Eq, Structural)]
pub struct LeftParen {
    pub span: Span,
}

impl Parse for LeftParen {
    open spec fn spec_span(&self) -> Span {
        self.span
    }

    open spec fn parsed(before: StreamView, r: Result<Self, ParseError>, after: StreamView) -> bool {
        match r {
            Ok(t) => token_parsed(seq!['('], before, Ok(t.span), after),
            Err(e) => token_parsed(seq!['('], before, Err(e), after),
        }
    }

    fn parse(value: &mut CharStream) -> (r: Result<Self, ParseError>) {
        let lit = vec!['('];
        assert(lit@ =~= seq!['(']);
        match read_token(value, lit, "could not find token '('") {
            Ok(span) => Ok(LeftParen { span }),
            Err(e) => Err(e),
        }
    }

    fn span(&self) -> (r: Span) {
        self.span
    }
}

impl Token for LeftParen {
    proof fn lemma_progress(before: StreamView, t: Self, after: StreamView) {
        lemma_token_progress(seq!['('], before, t.span, after);
    }
}

/// The closing `)` of parentheses.
#[derive(Clone, Copy, Debug, PartialEq, Eq, Structural)]
pub struct RightParen {
    pub span: Span,
}

impl Parse for RightParen {
    open spec fn spec_span(&self) -> Span {
        self.span
    }

    open spec fn parsed(before: StreamView, r: Result<Self, ParseError>, after: StreamView) -> bool {
        match r {
            Ok(t) => token_parsed(seq![')'], before, Ok(t.span), after),
            Err(e) => token_parsed(seq![')'], before, Err(e), after),
        }
    }

    fn parse(value: &mut CharStream) -> (r: Result<Self, ParseError>) {
        let lit = vec![')'];
        assert(lit@ =~= seq![')']);
        match read_token(value, lit, "could not find token ')'") {
            Ok(span) => Ok(RightParen { span }),
            Err(e) => Err(e),
        }
    }

    fn span(&self) -> (r: Span) {
        self.span
    }
}

impl Token for RightParen {
    proof fn lemma_progress(before: StreamView, t: Self, after: StreamView) {
        lemma_token_progress(seq![')'], before, t.span, after);
    }
}

/// A group between parentheses.
#[derive(Clone, Copy, Debug, PartialEq, Eq, Structural)]
pub struct Paren {
    pub start: LeftParen,
    pub end: RightParen,
}

impl Delimiter for Paren {
    type Start = LeftParen;
    type End = RightParen;

    open spec fn spec_start(&self) -> LeftParen {
        self.start
    }

    open spec fn spec_end(&self) -> RightParen {
        self.end
    }

    fn new(start: LeftParen, end: RightParen) -> (r: Self) {
        Paren { start, end }
    }

    fn start(&self) -> (r: &LeftParen) {
        &self.start
    }

    fn end(&self) -> (r: &RightParen) {
        &self.end
    }
}

/// The opening `{` of braces.
#[derive(Clone, Copy, Debug, PartialEq, Eq, Structural)]
pub struct LeftBrace {
    pub span: Span,
}

impl Parse for LeftBrace {
    open spec fn spec_span(&self) -> Span {
        self.span
    }

    open spec fn parsed(before: StreamView, r: Result<Self, ParseError>, after: StreamView) -> bool {
        match r {
            Ok(t) => token_parsed(seq!['{'], before, Ok(t.span), after),
            Err(e) => token_parsed(seq!['{'], before, Err(e), after),
        }
    }

    fn parse(value: &mut CharStream) -> (r: Result<Self, ParseError>) {
        let lit = vec!['{'];
        assert(lit@ =~= seq!['{']);
        match read_token(value, lit, "could not find token '{'") {
            Ok(span) => Ok(LeftBrace { span }),
            Err(e) => Err(e),
        }
    }

    fn span(&self) -> (r: Span) {
        self.span
    }
}

impl Token for LeftBrace {
    proof fn lemma_progress(before: StreamView, t: Self, after: StreamView) {
        lemma_token_progress(seq!['{'], before, t.span, after);
    }
}

/// The closing `}` of braces.
#[derive(Clone, Copy, Debug, PartialEq, Eq, Structural)]
pub struct RightBrace {
    pub span: Span,
}

impl Parse for RightBrace {
    open spec fn spec_span(&self) -> Span {
        self.span
    }

    open spec fn parsed(before: StreamView, r: Result<Self, ParseError>, after: StreamView) -> bool {
        match r {
            Ok(t) => token_parsed(seq!['}'], before, Ok(t.span), after),
            Err(e) => token_parsed(seq!['}'], before, Err(e), after),
        }
    }

    fn parse(value: &mut CharStream) -> (r: Result<Self, ParseError>) {
        let lit = vec!['}'];
        assert(lit@ =~= seq!['}']);
        match read_token(value, lit, "could not find token '}'") {
            Ok(span) => Ok(RightBrace { span }),
            Err(e) => Err(e),
        }
    }

    fn span(&self) -> (r: Span) {
        self.span
    }
}

impl Token for RightBrace {
    proof fn lemma_progress(before: StreamView, t: Self, after: StreamView) {
        lemma_token_progress(seq!['}'], before, t.span, after);
    }
}

/// A group between braces.
#[derive(Clone, Copy, Debug, PartialEq, Eq, Structural)]
pub struct Brace {
    pub start: LeftBrace,
    pub end: RightBrace,
}

impl Delimiter for Brace {
    type Start = LeftBrace;
    type End = RightBrace;

    open spec fn spec_start(&self) -> LeftBrace {
        self.start
    }

    open spec fn spec_end(&self) -> RightBrace {
        self.end
    }

    fn new(start: LeftBrace, end: RightBrace) -> (r: Self) {
        Brace { start, end }
    }

    fn start(&self) -> (r: &LeftBrace) {
        &self.start
    }

    fn end(&self) -> (r: &RightBrace) {
        &self.end
    }
}

/// The opening `[` of brackets.
#[derive(Clone, Copy, Debug, PartialEq, Eq, Structural)]
pub struct LeftBracket {
    pub span: Span,
}

impl Parse for LeftBracket {
    open spec fn spec_span(&self) -> Span {
        self.span
    }

    open spec fn parsed(before: StreamView, r: Result<Self, ParseError>, after: StreamView) -> bool {
        match r {
            Ok(t) => token_parsed(seq!['['], before, Ok(t.span), after),
            Err(e) => token_parsed(seq!['['], before, Err(e), after),
        }
    }

    fn parse(value: &mut CharStream) -> (r: Result<Self, ParseError>) {
        let lit = vec!['['];
        assert(lit@ =~= seq!['[']);
        match read_token(value, lit, "could not find token '['") {
            Ok(span) => Ok(LeftBracket { span }),
            Err(e) => Err(e),
        }
    }

    fn span(&self) -> (r: Span) {
        self.span
    }
}

impl Token for LeftBracket {
    proof fn lemma_progress(before: StreamView, t: Self, after: StreamView) {
        lemma_token_progress(seq!['['], before, t.span, after);
    }
}

/// The closing `]` of brackets.
#[derive(Clone, Copy, Debug, PartialEq, Eq, Structural)]
pub struct RightBracket {
    pub span: Span,
}

impl Parse for RightBracket {
    open spec fn spec_span(&self) -> Span {
        self.span
    }

    open spec fn parsed(before: StreamView, r: Result<Self, ParseError>, after: StreamView) -> bool {
        match r {
            Ok(t) => token_parsed(seq![']'], before, Ok(t.span), after),
            Err(e) => token_parsed(seq![']'], before, Err(e), after),
        }
    }

    fn parse(value: &mut CharStream) -> (r: Result<Self, ParseError>) {
        let lit = vec![']'];
        assert(lit@ =~= seq![']']);
        match read_token(value, lit, "could not find token ']'") {
            Ok(span) => Ok(RightBracket { span }),
            Err(e) => Err(e),
        }
    }

    fn span(&self) -> (r: Span) {
        self.span
    }
}

impl Token for RightBracket {
    proof fn lemma_progress(before: StreamView, t: Self, after: StreamView) {
        lemma_token_progress(seq![']'], before, t.span, after);
    }
}

/// A group between brackets.
#[derive(Clone, Copy, Debug, PartialEq, Eq, Structural)]
pub struct Bracket {
    pub start: LeftBracket,
    pub end: RightBracket,
}

impl Delimiter for Bracket {
    type Start = LeftBracket;
    type End = RightBracket;

    open spec fn spec_start(&self) -> LeftBracket {
        self.start
    }

    open spec fn spec_end(&self) -> RightBracket {
        self.end
    }

    fn new(start: LeftBracket, end: RightBracket) -> (r: Self) {
        Bracket { start, end }
    }

    fn start(&self) -> (r: &LeftBracket) {
        &self.start
    }

    fn end(&self) -> (r: &RightBracket) {
        &self.end
    }
}

/// The opening `"` of double quotes.
#[derive(Clone, Copy, Debug, PartialEq, Eq, Structural)]
pub struct LeftQuote {
    pub span: Span,
}

impl Parse for LeftQuote {
    open spec fn spec_span(&self) -> Span {
        self.span
    }

    open spec fn parsed(before: StreamView, r: Result<Self, ParseError>, after: StreamView) -> bool {
        match r {
            Ok(t) => token_parsed(seq!['"'], before, Ok(t.span), after),
            Err(e) => token_parsed(seq!['"'], before, Err(e), after),
        }
    }

    fn parse(value: &mut CharStream) -> (r: Result<Self, ParseError>) {
        let lit = vec!['"'];
        assert(lit@ =~= seq!['"']);
        match read_token(value, lit, "could not find token '\"'") {
            Ok(span) => Ok(LeftQuote { span }),
            Err(e) => Err(e),
        }
    }

    fn span(&self) -> (r: Span) {
        self.span
    }
}

impl Token for LeftQuote {
    proof fn lemma_progress(before: StreamView, t: Self, after: StreamView) {
        lemma_token_progress(seq!['"'], before, t.span, after);
    }
}

/// The closing `"` of double quotes.
#[derive(Clone, Copy, Debug, PartialEq, Eq, Structural)]
pub struct RightQuote {
    pub span: Span,
}

impl Parse for RightQuote {
    open spec fn spec_span(&self) -> Span {
        self.span
    }

    open spec fn parsed(before: StreamView, r: Result<Self, ParseError>, after: StreamView) -> bool {
        match r {
            Ok(t) => token_parsed(seq!['"'], before, Ok(t.span), after),
            Err(e) => token_parsed(seq!['"'], before, Err(e), after),
        }
    }

    fn parse(value: &mut CharStream) -> (r: Result<Self, ParseError>) {
        let lit = vec!['"'];
        assert(lit@ =~= seq!['"']);
        match read_token(value, lit, "could not find token '\"'") {
            Ok(span) => Ok(RightQuote { span }),
            Err(e) => Err(e),
        }
    }

    fn span(&self) -> (r: Span) {
        self.span
    }
}

impl Token for RightQuote {
    proof fn lemma_progress(before: StreamView, t: Self, after: StreamView) {
        lemma_token_progress(seq!['"'], before, t.span, after);
    }
}

/// A group between double quotes.
#[derive(Clone, Copy, Debug, PartialEq, Eq, Structural)]
pub struct Quote {
    pub start: LeftQuote,
    pub end: RightQuote,
}

impl Delimiter for Quote {
    type Start = LeftQuote;
    type End = RightQuote;

    open spec fn spec_start(&self) -> LeftQuote {
        self.start
    }

    open spec fn spec_end(&self) -> RightQuote {
        self.end
    }

    fn new(start: LeftQuote, end: RightQuote) -> (r: Self) {
        Quote { start, end }
    }

    fn start(&self) -> (r: &LeftQuote) {
        &self.start
    }

    fn end(&self) -> (r: &RightQuote) {
        &self.end
    }
}

} // verus!
