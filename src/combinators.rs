//! Parsers built from other parsers: groups, sequences, choices, lists,
//! repetitions and indentation blocks.

use vstd::prelude::*;

use crate::charstream::{indent_at, lemma_skip_end_bounds, skip_end, CharStream, Span, StreamView, WhitespaceType};
use crate::parsing::{quote_end, span_read, ErrorKind, Parse, ParseError, StringValue};
use crate::tokens::{Delimiter, Token};

verus! {

/// An item between the two tokens of a delimiter pair.
#[derive(Clone, Debug)]
pub struct Group<D: Delimiter, I: Parse> {
    delimiter: D,
    item: I,
}

impl<D: Delimiter, I: Parse> Group<D, I> {
    pub closed spec fn spec_delimiter(&self) -> D {
        self.delimiter
    }

    pub closed spec fn spec_item(&self) -> I {
        self.item
    }

    pub fn delimiter(&self) -> (r: &D)
        ensures
            *r == self.spec_delimiter(),
    {
        &self.delimiter
    }

    pub fn item(&self) -> (r: &I)
        ensures
            *r == self.spec_item(),
    {
        &self.item
    }
}

impl<D: Delimiter, I: Parse> Parse for Group<D, I> {
    /// From the start of the opening token to the end of the closing one.
    open spec fn spec_span(&self) -> Span {
        Span {
            start: self.spec_delimiter().spec_start().spec_span().start,
            end: self.spec_delimiter().spec_end().spec_span().end,
        }
    }

    /// The opening token, the item and the closing token, read in turn; a
    /// failure of any of them is the group's failure, of the same kind.
    open spec fn parsed(before: StreamView, r: Result<Self, ParseError>, after: StreamView) -> bool {
        match r {
            Ok(g) => read_three::<D::Start, I, D::End>(
                before,
                g.spec_delimiter().spec_start(),
                g.spec_item(),
                g.spec_delimiter().spec_end(),
                after,
            ),
            Err(e) => {
                ||| D::Start::parsed(before, Err(e), after)
                ||| exists|st1: StreamView, st: D::Start|
                    {
                        &&& #[trigger] D::Start::parsed(before, Ok(st), st1)
                        &&& I::parsed(st1, Err(e), after)
                    }
                ||| exists|st1: StreamView, st: D::Start, st2: StreamView, it: I|
                    {
                        &&& #[trigger] D::Start::parsed(before, Ok(st), st1)
                        &&& #[trigger] I::parsed(st1, Ok(it), st2)
                        &&& D::End::parsed(st2, Err(e), after)
                    }
            },
        }
    }

    fn parse(value: &mut CharStream) -> (r: Result<Self, ParseError>) {
        let ghost st0 = value@;
        let start = match D::Start::parse(value) {
            Ok(t) => t,
            Err(e) => return Err(e),
        };
        let ghost st1 = value@;
        let item = match I::parse(value) {
            Ok(t) => t,
            Err(e) => {
                assert(D::Start::parsed(st0, Ok(start), st1));
                return Err(e);
            },
        };
        let ghost st2 = value@;
        let end = match D::End::parse(value) {
            Ok(t) => t,
            Err(e) => {
                assert(D::Start::parsed(st0, Ok(start), st1) && I::parsed(st1, Ok(item), st2));
                return Err(e);
            },
        };
        assert(read_three::<D::Start, I, D::End>(st0, start, item, end, value@));
        let delimiter = D::new(start, end);
        Ok(Group { delimiter, item })
    }

    fn span(&self) -> (r: Span) {
        Span { start: self.delimiter.start().span().start, end: self.delimiter.end().span().end }
    }
}

/// The first alternative that matches: a soft failure of the first moves on
/// to the second, from the same place; a hard failure stops there.
#[derive(Clone, Debug)]
pub enum Either<A: Parse, B: Parse> {
    First(A),
    Second(B),
}

impl<A: Parse, B: Parse> Parse for Either<A, B> {
    open spec fn spec_span(&self) -> Span {
        match self {
            Either::First(a) => a.spec_span(),
            Either::Second(b) => b.spec_span(),
        }
    }

    open spec fn parsed(before: StreamView, r: Result<Self, ParseError>, after: StreamView) -> bool {
        match r {
            Ok(Either::First(a)) => A::parsed(before, Ok(a), after),
            Ok(Either::Second(b)) => {
                &&& exists|e: ParseError, p: StreamView|
                    e.kind == ErrorKind::NotFound && #[trigger] A::parsed(before, Err(e), p)
                &&& B::parsed(before, Ok(b), after)
            },
            Err(e) => {
                ||| (e.kind == ErrorKind::Error && A::parsed(before, Err(e), after))
                ||| {
                    &&& exists|e1: ParseError, p: StreamView|
                        e1.kind == ErrorKind::NotFound && #[trigger] A::parsed(before, Err(e1), p)
                    &&& B::parsed(before, Err(e), after)
                }
            },
        }
    }

    fn parse(value: &mut CharStream) -> (r: Result<Self, ParseError>) {
        let ghost st0 = value@;
        let saved = value.position();
        match A::parse(value) {
            Ok(a) => Ok(Either::First(a)),
            Err(e) => {
                if e.kind == ErrorKind::Error {
                    return Err(e);
                }
                let ghost st1 = value@;
                assert(A::parsed(st0, Err(e), st1));
                value.restore(saved);
                match B::parse(value) {
                    Ok(b) => Ok(Either::Second(b)),
                    Err(e2) => Err(e2),
                }
            },
        }
    }

    fn span(&self) -> (r: Span) {
        match self {
            Either::First(a) => a.span(),
            Either::Second(b) => b.span(),
        }
    }
}

/// `a` then `b` were read from `before`, leaving the stream at `after`.
pub open spec fn read_two<A: Parse, B: Parse>(before: StreamView, a: A, b: B, after: StreamView) -> bool {
    exists|st1: StreamView| #[trigger] A::parsed(before, Ok(a), st1) && B::parsed(st1, Ok(b), after)
}

/// `a`, `b` and `c` were read in turn from `before`, leaving the stream at `after`.
pub open spec fn read_three<A: Parse, B: Parse, C: Parse>(
    before: StreamView,
    a: A,
    b: B,
    c: C,
    after: StreamView,
) -> bool {
    exists|st1: StreamView, st2: StreamView|
        {
            &&& #[trigger] A::parsed(before, Ok(a), st1)
            &&& #[trigger] B::parsed(st1, Ok(b), st2)
            &&& C::parsed(st2, Ok(c), after)
        }
}

impl<A: Parse, B: Parse> Parse for (A, B) {
    open spec fn spec_span(&self) -> Span {
        Span { start: self.0.spec_span().start, end: self.1.spec_span().end }
    }

    /// The two parts read in turn; the first failure is the pair's.
    open spec fn parsed(before: StreamView, r: Result<Self, ParseError>, after: StreamView) -> bool {
        match r {
            Ok(v) => read_two::<A, B>(before, v.0, v.1, after),
            Err(e) => {
                ||| A::parsed(before, Err(e), after)
                ||| exists|st1: StreamView, a: A|
                    #[trigger] A::parsed(before, Ok(a), st1) && B::parsed(st1, Err(e), after)
            },
        }
    }

    fn parse(value: &mut CharStream) -> (r: Result<Self, ParseError>) {
        let ghost st0 = value@;
        let a = match A::parse(value) {
            Ok(a) => a,
            Err(e) => return Err(e),
        };
        let ghost st1 = value@;
        let b = match B::parse(value) {
            Ok(b) => b,
            Err(e) => {
                assert(A::parsed(st0, Ok(a), st1));
                return Err(e);
            },
        };
        assert(read_two::<A, B>(st0, a, b, value@));
        Ok((a, b))
    }

    fn span(&self) -> (r: Span) {
        Span { start: self.0.span().start, end: self.1.span().end }
    }
}

impl<A: Parse, B: Parse, C: Parse> Parse for (A, B, C) {
    open spec fn spec_span(&self) -> Span {
        Span { start: self.0.spec_span().start, end: self.2.spec_span().end }
    }

    /// The three parts read in turn; the first failure is the triple's.
    open spec fn parsed(before: StreamView, r: Result<Self, ParseError>, after: StreamView) -> bool {
        match r {
            Ok(v) => read_three::<A, B, C>(before, v.0, v.1, v.2, after),
            Err(e) => {
                ||| A::parsed(before, Err(e), after)
                ||| exists|st1: StreamView, a: A|
                    #[trigger] A::parsed(before, Ok(a), st1) && B::parsed(st1, Err(e), after)
                ||| exists|st1: StreamView, a: A, st2: StreamView, b: B|
                    {
                        &&& #[trigger] A::parsed(before, Ok(a), st1)
                        &&& #[trigger] B::parsed(st1, Ok(b), st2)
                        &&& C::parsed(st2, Err(e), after)
                    }
            },
        }
    }

    fn parse(value: &mut CharStream) -> (r: Result<Self, ParseError>) {
        let ghost st0 = value@;
        let a = match A::parse(value) {
            Ok(a) => a,
            Err(e) => return Err(e),
        };
        let ghost st1 = value@;
        let b = match B::parse(value) {
            Ok(b) => b,
            Err(e) => {
                assert(A::parsed(st0, Ok(a), st1));
                return Err(e);
            },
        };
        let ghost st2 = value@;
        let c = match C::parse(value) {
            Ok(c) => c,
            Err(e) => {
                assert(A::parsed(st0, Ok(a), st1) && B::parsed(st1, Ok(b), st2));
                return Err(e);
            },
        };
        assert(read_three::<A, B, C>(st0, a, b, c, value@));
        Ok((a, b, c))
    }

    fn span(&self) -> (r: Span) {
        Span { start: self.0.span().start, end: self.2.span().end }
    }
}

/// Where the `k`-th item of a list read from `before` starts: at `before`
/// for the first, else just past the separator of the one before it.
pub open spec fn list_item_start<I: Parse, S: Token>(
    before: StreamView,
    items: Seq<(I, Option<S>)>,
    k: int,
) -> StreamView {
    if k == 0 {
        before
    } else {
        before.at(items[k - 1].1->Some_0.spec_span().end)
    }
}

/// The `k`-th item was read where it starts, and its separator, if it has
/// one, just after it.
pub open spec fn list_step<I: Parse, S: Token>(
    before: StreamView,
    items: Seq<(I, Option<S>)>,
    k: int,
) -> bool {
    let it = items[k].0;
    let mid = before.at(it.spec_span().end);
    &&& I::parsed(list_item_start(before, items, k), Ok(it), mid)
    &&& match items[k].1 {
        Some(sep) => S::parsed(mid, Ok(sep), before.at(sep.spec_span().end)),
        None => true,
    }
}

/// `items`, each followed by its separator, were read from `before`, and
/// the item after them failed with `e`, leaving the stream at `after`.
pub open spec fn list_failed_after<I: Parse, S: Token>(
    before: StreamView,
    items: Seq<(I, Option<S>)>,
    e: ParseError,
    after: StreamView,
) -> bool {
    &&& items.len() > 0
    &&& forall|k: int| 0 <= k < items.len() ==> (#[trigger] items[k]).1 is Some
    &&& forall|k: int| 0 <= k < items.len() ==> #[trigger] list_step(before, items, k)
    &&& I::parsed(list_item_start(before, items, items.len() as int), Err(e), after)
}

/// Items separated by a token, possibly none. Every item but the last is
/// followed by a separator; the last is not.
#[derive(Clone, Debug)]
pub struct List<I: Parse, S: Token> {
    items: Vec<(I, Option<S>)>,
    span: Span,
}

proof fn lemma_list_push<I: Parse, S: Token>(
    before: StreamView,
    items: Seq<(I, Option<S>)>,
    longer: Seq<(I, Option<S>)>,
)
    requires
        longer == items.push(longer.last()),
        forall|k: int| 0 <= k < items.len() ==> #[trigger] list_step(before, items, k),
        list_step(before, longer, items.len() as int),
    ensures
        forall|k: int| 0 <= k < longer.len() ==> #[trigger] list_step(before, longer, k),
{
    assert forall|k: int| 0 <= k < longer.len() implies #[trigger] list_step(before, longer, k) by {
        if k < items.len() {
            assert(longer[k] == items[k]);
            if k > 0 {
                assert(longer[k - 1] == items[k - 1]);
            }
            assert(list_step(before, items, k));
        }
    }
}

impl<I: Parse, S: Token> List<I, S> {
    pub closed spec fn spec_items(&self) -> Seq<(I, Option<S>)> {
        self.items@
    }

    /// Each item with the separator that followed it.
    pub fn items(&self) -> (r: &Vec<(I, Option<S>)>)
        ensures
            r@ == self.spec_items(),
    {
        &self.items
    }

    pub fn len(&self) -> (r: usize)
        ensures
            r == self.spec_items().len(),
    {
        self.items.len()
    }
}

impl<I: Parse, S: Token> Parse for List<I, S> {
    closed spec fn spec_span(&self) -> Span {
        self.span
    }

    /// Items are read, each followed by a separator, until an item or a
    /// separator fails. Where the first item fails the list is empty and the
    /// stream stays put; where a later item fails, that failure is the list's.
    /// The list spans from where the stream stood to just past the last item.
    open spec fn parsed(before: StreamView, r: Result<Self, ParseError>, after: StreamView) -> bool {
        match r {
            Ok(l) => {
                let items = l.spec_items();
                &&& l.spec_span() == (Span { start: before.pos, end: after.pos })
                &&& items.len() == 0 ==> {
                    &&& after == before
                    &&& exists|e: ParseError, p: StreamView| #[trigger] I::parsed(before, Err(e), p)
                }
                &&& items.len() > 0 ==> {
                    &&& forall|k: int| 0 <= k < items.len() ==> #[trigger] list_step(before, items, k)
                    &&& forall|k: int| 0 <= k < items.len() - 1 ==> (#[trigger] items[k]).1 is Some
                    &&& items.last().1 is None
                    &&& after == before.at(items.last().0.spec_span().end)
                    &&& exists|e: ParseError, p: StreamView| #[trigger] S::parsed(after, Err(e), p)
                }
            },
            Err(e) => exists|items: Seq<(I, Option<S>)>|
                #[trigger] list_failed_after(before, items, e, after),
        }
    }

    fn parse(value: &mut CharStream) -> (r: Result<Self, ParseError>) {
        let ghost st0 = value@;
        let ghost s = st0.input;
        let start = value.position();
        let mut items: Vec<(I, Option<S>)> = Vec::new();
        loop
            invariant_except_break
                forall|k: int| 0 <= k < items.len() ==> (#[trigger] items@[k]).1 is Some,
            invariant
                value@.wf(),
                value@.input == s,
                value@.mode == st0.mode,
                st0.wf(),
                st0 == old(value)@,
                s == st0.input,
                start == st0.pos,
                st0.pos.offset <= value@.pos.offset,
                items.len() == 0 ==> value@ == st0,
                items.len() > 0 ==> value@ == st0.at(
                    match items@.last().1 {
                        Some(sep) => sep.spec_span().end,
                        None => items@.last().0.spec_span().end,
                    },
                ),
                forall|k: int| 0 <= k < items.len() ==> #[trigger] list_step(st0, items@, k),
                items.len() > 0 ==> I::parsed(
                    st0,
                    Ok(items@[0].0),
                    st0.at(items@[0].0.spec_span().end),
                ),
            ensures
                value@.wf(),
                value@.input == s,
                value@.mode == st0.mode,
                st0.pos.offset <= value@.pos.offset,
                items.len() == 0 ==> {
                    &&& value@ == st0
                    &&& exists|e: ParseError, p: StreamView| #[trigger] I::parsed(st0, Err(e), p)
                },
                items.len() > 0 ==> {
                    &&& forall|k: int| 0 <= k < items.len() ==> #[trigger] list_step(st0, items@, k)
                    &&& forall|k: int| 0 <= k < items.len() - 1 ==> (#[trigger] items@[k]).1 is Some
                    &&& items@.last().1 is None
                    &&& value@ == st0.at(items@.last().0.spec_span().end)
                    &&& exists|e: ParseError, p: StreamView| #[trigger] S::parsed(value@, Err(e), p)
                },
            decreases s.len() - value@.pos.offset,
        {
            let ghost b = value@;
            assert(b == list_item_start(st0, items@, items.len() as int));
            let saved = value.position();
            match I::parse(value) {
                Ok(item) => {
                    let ghost b1 = value@;
                    assert(b1 =~= st0.at(item.spec_span().end));
                    let mid = value.position();
                    let ghost old_items = items@;
                    match S::parse(value) {
                        Ok(sep) => {
                            proof {
                                S::lemma_progress(b1, sep, value@);
                            }
                            items.push((item, Some(sep)));
                            proof {
                                lemma_list_push(st0, old_items, items@);
                            }
                        },
                        Err(e) => {
                            assert(S::parsed(b1, Err(e), value@));
                            value.restore(mid);
                            items.push((item, None));
                            proof {
                                lemma_list_push(st0, old_items, items@);
                            }
                            break;
                        },
                    }
                },
                Err(e) => {
                    if items.len() > 0 {
                        assert(list_failed_after(st0, items@, e, value@));
                        return Err(e);
                    }
                    assert(I::parsed(st0, Err(e), value@));
                    value.restore(saved);
                    break;
                },
            }
        }
        let end = value.position();
        Ok(List { items, span: Span { start, end } })
    }

    fn span(&self) -> (r: Span) {
        self.span
    }
}

/// A list never fails for want of items: where its first item cannot be
/// read, the list is empty and the stream stays put, and a list that fails
/// does so only after its first item was read.
pub proof fn lemma_list_total<I: Parse, S: Token>(
    before: StreamView,
    r: Result<List<I, S>, ParseError>,
    after: StreamView,
)
    requires
        List::<I, S>::parsed(before, r, after),
    ensures
        r is Err ==> exists|it: I, p: StreamView| #[trigger] I::parsed(before, Ok(it), p),
        (forall|it: I, p: StreamView| !#[trigger] I::parsed(before, Ok(it), p)) ==> {
            &&& r is Ok
            &&& r->Ok_0.spec_items().len() == 0
            &&& after == before
        },
{
    if r is Ok && r->Ok_0.spec_items().len() > 0 {
        let items = r->Ok_0.spec_items();
        assert(list_step(before, items, 0));
    }
    if r is Err {
        let items = choose|items: Seq<(I, Option<S>)>|
            #[trigger] list_failed_after(before, items, r->Err_0, after);
        assert(list_step(before, items, 0));
    }
}

/// A string that opens and never closes is a hard failure, and a choice that
/// tries such a string first passes that failure on without trying its
/// second alternative.
pub proof fn lemma_unclosed_string_not_backtracked<B: Parse>(
    before: StreamView,
    r: Result<Either<StringValue, B>, ParseError>,
    after: StreamView,
)
    requires
        Either::<StringValue, B>::parsed(before, r, after),
        before.next_offset() < before.input.len(),
        before.input[before.next_offset() as int] == '"',
        quote_end(before.input, before.next_offset() + 1) == before.input.len(),
    ensures
        r is Err,
        r->Err_0.kind == ErrorKind::Error,
        StringValue::parsed(before, Err(r->Err_0), after),
{
}

/// An indentation block fails where its first item cannot be read; every
/// item after the first begins on a line at the block's depth.
pub proof fn lemma_indent_block<T: Parse>(
    before: StreamView,
    r: Result<Indent<T>, ParseError>,
    after: StreamView,
)
    requires
        Indent::<T>::parsed(before, r, after),
    ensures
        (forall|t: T, p: StreamView| !#[trigger] T::parsed(indenting(before), Ok(t), p)) ==> r is Err,
        r is Ok ==> forall|k: int|
            0 < k < r->Ok_0.spec_values().len() ==> indent_at(
                before.input,
                WhitespaceType::Indent,
                (#[trigger] r->Ok_0.spec_values()[k - 1]).spec_span().end.offset as nat,
            ) == r->Ok_0.spec_depth(),
{
    if r is Ok {
        let v = r->Ok_0.spec_values();
        assert(run_step(indenting(before), v, 0));
    }
}

/// Where the `k`-th of a run of values read from `before` starts: at
/// `before` for the first, else just past the one before it.
pub open spec fn run_item_start<T: Parse>(before: StreamView, v: Seq<T>, k: int) -> StreamView {
    if k == 0 {
        before
    } else {
        before.at(v[k - 1].spec_span().end)
    }
}

/// The `k`-th value of the run was read where it starts.
pub open spec fn run_step<T: Parse>(before: StreamView, v: Seq<T>, k: int) -> bool {
    T::parsed(run_item_start(before, v, k), Ok(v[k]), before.at(v[k].spec_span().end))
}

/// The values `v` were read in turn from `before`, and the value after them
/// failed with `e`, leaving the stream at `after`.
pub open spec fn run_failed_after<T: Parse>(
    before: StreamView,
    v: Seq<T>,
    e: ParseError,
    after: StreamView,
) -> bool {
    &&& forall|k: int| 0 <= k < v.len() ==> #[trigger] run_step(before, v, k)
    &&& T::parsed(run_item_start(before, v, v.len() as int), Err(e), after)
}

proof fn lemma_run_push<T: Parse>(before: StreamView, v: Seq<T>, longer: Seq<T>)
    requires
        longer == v.push(longer.last()),
        forall|k: int| 0 <= k < v.len() ==> #[trigger] run_step(before, v, k),
        run_step(before, longer, v.len() as int),
    ensures
        forall|k: int| 0 <= k < longer.len() ==> #[trigger] run_step(before, longer, k),
{
    assert forall|k: int| 0 <= k < longer.len() implies #[trigger] run_step(before, longer, k) by {
        if k < v.len() {
            assert(longer[k] == v[k]);
            if k > 0 {
                assert(longer[k - 1] == v[k - 1]);
            }
            assert(run_step(before, v, k));
        }
    }
}

/// The span of a non-empty run of values: from the start of the first to the
/// end of the last.
pub open spec fn run_span<T: Parse>(v: Seq<T>) -> Span {
    if v.len() == 0 {
        Span { start: crate::charstream::origin(), end: crate::charstream::origin() }
    } else {
        Span { start: v[0].spec_span().start, end: v.last().spec_span().end }
    }
}

/// Items repeated until one fails: at least one is required.
impl<T: Parse> Parse for Vec<T> {
    open spec fn spec_span(&self) -> Span {
        run_span(self@)
    }

    /// Items are read until one fails softly (the stream goes back to before
    /// it) or one is read without moving. A hard failure is passed on. Where
    /// not even one item is read, a soft failure at the starting position.
    open spec fn parsed(before: StreamView, r: Result<Self, ParseError>, after: StreamView) -> bool {
        match r {
            Ok(v) => {
                &&& v@.len() > 0
                &&& forall|k: int| 0 <= k < v@.len() ==> #[trigger] run_step(before, v@, k)
                &&& after == before.at(v@.last().spec_span().end)
                &&& {
                    ||| exists|e: ParseError, p: StreamView|
                        e.kind == ErrorKind::NotFound && #[trigger] T::parsed(after, Err(e), p)
                    ||| run_item_start(before, v@, v@.len() - 1).pos.offset == after.pos.offset
                }
            },
            Err(e) => {
                ||| {
                    &&& e.kind == ErrorKind::NotFound
                    &&& e.position == before.pos
                    &&& after == before
                    &&& exists|e1: ParseError, p: StreamView|
                        e1.kind == ErrorKind::NotFound && #[trigger] T::parsed(before, Err(e1), p)
                }
                ||| {
                    &&& e.kind == ErrorKind::Error
                    &&& exists|v: Seq<T>| #[trigger] run_failed_after(before, v, e, after)
                }
            },
        }
    }

    fn parse(value: &mut CharStream) -> (r: Result<Self, ParseError>) {
        let ghost st0 = value@;
        let ghost s = st0.input;
        let start = value.position();
        let mut items: Vec<T> = Vec::new();
        loop
            invariant
                value@.wf(),
                value@.input == s,
                value@.mode == st0.mode,
                st0.wf(),
                st0 == old(value)@,
                s == st0.input,
                start == st0.pos,
                st0.pos.offset <= value@.pos.offset,
                items.len() == 0 ==> value@ == st0,
                items.len() > 0 ==> {
                    &&& T::parsed(st0, Ok(items@[0]), st0.at(items@[0].spec_span().end))
                    &&& span_read(st0, items@[0].spec_span(), st0.at(items@[0].spec_span().end))
                    &&& value@ == st0.at(items@.last().spec_span().end)
                    &&& items@[0].spec_span().start.offset <= value@.pos.offset
                },
                forall|k: int| 0 <= k < items.len() ==> #[trigger] run_step(st0, items@, k),
            ensures
                forall|k: int| 0 <= k < items.len() ==> #[trigger] run_step(st0, items@, k),
                items.len() > 0 ==> {
                    ||| exists|e: ParseError, p: StreamView|
                        e.kind == ErrorKind::NotFound && #[trigger] T::parsed(value@, Err(e), p)
                    ||| run_item_start(st0, items@, items.len() - 1).pos.offset == value@.pos.offset
                },
                value@.wf(),
                value@.input == s,
                value@.mode == st0.mode,
                items.len() == 0 ==> {
                    &&& value@ == st0
                    &&& exists|e: ParseError, p: StreamView|
                        e.kind == ErrorKind::NotFound && #[trigger] T::parsed(st0, Err(e), p)
                },
                items.len() > 0 ==> {
                    &&& T::parsed(st0, Ok(items@[0]), st0.at(items@[0].spec_span().end))
                    &&& span_read(st0, items@[0].spec_span(), st0.at(items@[0].spec_span().end))
                    &&& value@ == st0.at(items@.last().spec_span().end)
                    &&& items@[0].spec_span().start.offset <= value@.pos.offset
                },
            decreases s.len() - value@.pos.offset,
        {
            let ghost b = value@;
            assert(b == run_item_start(st0, items@, items.len() as int));
            let saved = value.position();
            match T::parse(value) {
                Ok(item) => {
                    let moved = value.position().offset > saved.offset;
                    let ghost old_items = items@;
                    assert(value@ =~= st0.at(item.spec_span().end));
                    items.push(item);
                    proof {
                        lemma_run_push(st0, old_items, items@);
                    }
                    if !moved {
                        assert(run_item_start(st0, items@, items.len() - 1) == b);
                        break;
                    }
                },
                Err(e) => {
                    if e.kind == ErrorKind::Error {
                        assert(run_failed_after(st0, items@, e, value@));
                        return Err(e);
                    }
                    assert(T::parsed(b, Err(e), value@));
                    value.restore(saved);
                    break;
                },
            }
        }
        if items.len() == 0 {
            return Err(ParseError::new("Could not find vector.", start));
        }
        Ok(items)
    }

    fn span(&self) -> (r: Span) {
        if self.len() == 0 {
            Span {
                start: crate::charstream::Position { row: 0, column: 0, offset: 0 },
                end: crate::charstream::Position { row: 0, column: 0, offset: 0 },
            }
        } else {
            Span { start: self[0].span().start, end: self[self.len() - 1].span().end }
        }
    }
}

/// Relies on `TryFrom<Vec<T>>` for `[T; N]`, which succeeds exactly when
/// the vector holds `N` items, and keeps their order.
#[verifier::external_body]
fn array_from_vec<T, const N: usize>(v: Vec<T>) -> (r: Option<[T; N]>)
    ensures
        r is Some <==> v@.len() == N,
        r is Some ==> r->Some_0@ == v@,
{
    <[T; N]>::try_from(v).ok()
}

/// Exactly `N` items, read in turn; the first failure is passed on as it
/// came. An array of no items has no place in the input to span, so it is
/// refused with a hard failure.
impl<T: Parse, const N: usize> Parse for [T; N] {
    open spec fn spec_span(&self) -> Span {
        run_span(self@)
    }

    open spec fn parsed(before: StreamView, r: Result<Self, ParseError>, after: StreamView) -> bool {
        match r {
            Ok(a) => {
                &&& N > 0
                &&& a@.len() == N
                &&& forall|k: int| 0 <= k < N ==> #[trigger] run_step(before, a@, k)
                &&& after == before.at(a@.last().spec_span().end)
            },
            Err(e) => {
                ||| N == 0 && e.kind == ErrorKind::Error && after == before
                ||| exists|v: Seq<T>| v.len() < N && #[trigger] run_failed_after(before, v, e, after)
            },
        }
    }

    fn parse(value: &mut CharStream) -> (r: Result<Self, ParseError>) {
        let ghost st0 = value@;
        let ghost s = st0.input;
        if N == 0 {
            return Err(ParseError::error("An array of no items cannot be read.", value.position()));
        }
        let mut items: Vec<T> = Vec::new();
        let mut i: usize = 0;
        while i < N
            invariant
                value@.wf(),
                value@.input == s,
                value@.mode == st0.mode,
                st0.wf(),
                st0 == old(value)@,
                s == st0.input,
                N > 0,
                i <= N,
                items.len() == i,
                st0.pos.offset <= value@.pos.offset,
                i == 0 ==> value@ == st0,
                i > 0 ==> {
                    &&& T::parsed(st0, Ok(items@[0]), st0.at(items@[0].spec_span().end))
                    &&& span_read(st0, items@[0].spec_span(), st0.at(items@[0].spec_span().end))
                    &&& value@ == st0.at(items@.last().spec_span().end)
                    &&& items@[0].spec_span().start.offset <= value@.pos.offset
                },
                forall|k: int| 0 <= k < items.len() ==> #[trigger] run_step(st0, items@, k),
            decreases N - i,
        {
            let ghost b = value@;
            assert(b == run_item_start(st0, items@, items.len() as int));
            match T::parse(value) {
                Ok(item) => {
                    let ghost old_items = items@;
                    assert(value@ =~= st0.at(item.spec_span().end));
                    items.push(item);
                    proof {
                        lemma_run_push(st0, old_items, items@);
                    }
                },
                Err(e) => {
                    assert(run_failed_after(st0, items@, e, value@));
                    return Err(e);
                },
            }
            i = i + 1;
        }
        let ghost v = items@;
        match array_from_vec::<T, N>(items) {
            Some(a) => {
                assert(a@ == v);
                Ok(a)
            },
            None => Err(ParseError::error("Could not gather the items.", value.position())),
        }
    }

    fn span(&self) -> (r: Span) {
        if N == 0 {
            Span {
                start: crate::charstream::Position { row: 0, column: 0, offset: 0 },
                end: crate::charstream::Position { row: 0, column: 0, offset: 0 },
            }
        } else {
            Span { start: self[0].span().start, end: self[N - 1].span().end }
        }
    }
}

/// A block of items that begin at the same indentation, read with the
/// stream measuring indentation.
#[derive(Clone, Debug)]
pub struct Indent<T: Parse> {
    values: Vec<T>,
    depth: usize,
    span: Span,
}

/// The stream `before`, measuring indentation.
pub open spec fn indenting(before: StreamView) -> StreamView {
    StreamView { mode: WhitespaceType::Indent, ..before }
}

impl<T: Parse> Indent<T> {
    pub closed spec fn spec_values(&self) -> Seq<T> {
        self.values@
    }

    pub closed spec fn spec_depth(&self) -> nat {
        self.depth as nat
    }

    pub fn values(&self) -> (r: &Vec<T>)
        ensures
            r@ == self.spec_values(),
    {
        &self.values
    }

    /// The indentation shared by the items of the block.
    pub fn depth(&self) -> (r: usize)
        ensures
            r == self.spec_depth(),
    {
        self.depth
    }
}

impl<T: Parse> Parse for Indent<T> {
    closed spec fn spec_span(&self) -> Span {
        self.span
    }

    /// The block's depth is the indentation of the line of its first item.
    /// Items are read while the next one begins at that depth; the block ends
    /// before an item at another depth, at the end of the input, before an
    /// item that fails softly, or after an item read without moving. A hard
    /// failure is passed on, and so is any failure of the first item.
    open spec fn parsed(before: StreamView, r: Result<Self, ParseError>, after: StreamView) -> bool {
        let s = before.input;
        let q0 = indenting(before);
        let depth = indent_at(s, WhitespaceType::Indent, before.pos.offset as nat);
        match r {
            Ok(b) => {
                let v = b.spec_values();
                &&& v.len() > 0
                &&& b.spec_depth() == depth
                &&& forall|k: int| 0 <= k < v.len() ==> #[trigger] run_step(q0, v, k)
                &&& b.spec_span() == (Span { start: before.pos, end: after.pos })
                &&& after == before.at(v.last().spec_span().end)
                &&& forall|k: int|
                    0 < k < v.len() ==> indent_at(
                        s,
                        WhitespaceType::Indent,
                        (#[trigger] v[k - 1]).spec_span().end.offset as nat,
                    ) == depth
                &&& {
                    ||| skip_end(s, WhitespaceType::Indent, after.pos.offset as nat) == s.len()
                    ||| indent_at(s, WhitespaceType::Indent, after.pos.offset as nat) != depth
                    ||| exists|e: ParseError, p: StreamView|
                        e.kind == ErrorKind::NotFound && #[trigger] T::parsed(
                            q0.at(after.pos),
                            Err(e),
                            p,
                        )
                    ||| run_item_start(q0, v, v.len() - 1).pos.offset == after.pos.offset
                }
            },
            Err(e) => {
                ||| T::parsed(q0, Err(e), indenting(after))
                ||| {
                    &&& e.kind == ErrorKind::Error
                    &&& exists|v: Seq<T>| #[trigger] run_failed_after(q0, v, e, indenting(after))
                }
            },
        }
    }

    fn parse(value: &mut CharStream) -> (r: Result<Self, ParseError>) {
        let ghost st0 = value@;
        let ghost s = st0.input;
        let start = value.position();
        let mode = value.whitespace();
        value.set_whitespace(WhitespaceType::Indent);
        let ghost q0 = value@;
        let depth = value.indent();
        let mut values: Vec<T> = Vec::new();
        loop
            invariant
                value@.wf(),
                value@.input == s,
                value@.mode == WhitespaceType::Indent,
                st0.wf(),
                st0 == old(value)@,
                s == st0.input,
                mode == st0.mode,
                q0 == indenting(st0),
                depth == indent_at(s, WhitespaceType::Indent, st0.pos.offset as nat),
                start == st0.pos,
                st0.pos.offset <= value@.pos.offset,
                values.len() == 0 ==> value@ == q0,
                values.len() > 0 ==> {
                    &&& T::parsed(q0, Ok(values@[0]), q0.at(values@[0].spec_span().end))
                    &&& value@ == q0.at(values@.last().spec_span().end)
                },
                forall|k: int| 0 <= k < values.len() ==> #[trigger] run_step(q0, values@, k),
                forall|k: int|
                    0 < k < values.len() ==> indent_at(
                        s,
                        WhitespaceType::Indent,
                        (#[trigger] values@[k - 1]).spec_span().end.offset as nat,
                    ) == depth,
            ensures
                forall|k: int|
                    0 < k < values.len() ==> indent_at(
                        s,
                        WhitespaceType::Indent,
                        (#[trigger] values@[k - 1]).spec_span().end.offset as nat,
                    ) == depth,
                value@.wf(),
                value@.input == s,
                value@.mode == WhitespaceType::Indent,
                st0.pos.offset <= value@.pos.offset,
                values.len() > 0,
                T::parsed(q0, Ok(values@[0]), q0.at(values@[0].spec_span().end)),
                value@ == q0.at(values@.last().spec_span().end),
                ({
                    let a = value@.pos;
                    ||| skip_end(s, WhitespaceType::Indent, a.offset as nat) == s.len()
                    ||| indent_at(s, WhitespaceType::Indent, a.offset as nat) != depth
                    ||| exists|e: ParseError, p: StreamView|
                        e.kind == ErrorKind::NotFound && #[trigger] T::parsed(q0.at(a), Err(e), p)
                    ||| run_item_start(q0, values@, values.len() - 1).pos.offset == a.offset
                }),
                forall|k: int| 0 <= k < values.len() ==> #[trigger] run_step(q0, values@, k),
            decreases s.len() - value@.pos.offset,
        {
            proof {
                lemma_skip_end_bounds(s, WhitespaceType::Indent, value@.pos.offset as nat);
            }
            if values.len() > 0 {
                if value.peek().is_none() || value.indent() != depth {
                    break;
                }
            }
            let ghost b = value@;
            assert(b == run_item_start(q0, values@, values.len() as int));
            let saved = value.position();
            match T::parse(value) {
                Ok(item) => {
                    let moved = value.position().offset > saved.offset;
                    assert(value@ =~= q0.at(item.spec_span().end));
                    let ghost old_values = values@;
                    values.push(item);
                    proof {
                        lemma_run_push(q0, old_values, values@);
                    }
                    if !moved {
                        assert(run_item_start(q0, values@, values.len() - 1) == b);
                        break;
                    }
                },
                Err(e) => {
                    if values.len() == 0 || e.kind == ErrorKind::Error {
                        assert(run_failed_after(q0, values@, e, value@));
                        let ghost failed = value@;
                        value.set_whitespace(mode);
                        assert(indenting(value@) =~= failed);
                        return Err(e);
                    }
                    assert(b =~= q0.at(b.pos));
                    assert(T::parsed(q0.at(b.pos), Err(e), value@));
                    value.restore(saved);
                    break;
                },
            }
        }
        value.set_whitespace(mode);
        let end = value.position();
        Ok(Indent { values, depth, span: Span { start, end } })
    }

    fn span(&self) -> (r: Span) {
        self.span
    }
}

} // verus!
