use parseal::charstream::{CharStream, Position, Span, WhitespaceType};
use parseal::combinators::{Either, Group, Indent, List};
use parseal::parsing::{ErrorKind, Identifier, Number, Parse, ParseError, StringValue};
use parseal::tokens::{Bracket, Colon, Comma, Delimiter, EqualEqual, Paren, Pipe};

fn pos(row: usize, column: usize, offset: usize) -> Position {
    Position { row, column, offset }
}

#[test]
fn list_records_separators_but_not_after_last() {
    let mut stream = CharStream::new("a, b, c");
    let list = List::<Identifier, Comma>::parse(&mut stream).unwrap();
    assert_eq!(list.len(), 3);
    let items = list.items();
    assert!(items[0].1.is_some());
    assert!(items[1].1.is_some());
    assert!(items[2].1.is_none());
    assert_eq!(items[0].0.value(), "a");
    assert_eq!(items[1].0.value(), "b");
    assert_eq!(items[2].0.value(), "c");
    assert_eq!(list.span(), Span::new(pos(0, 0, 0), pos(0, 7, 7)));
    assert_eq!(stream.position().offset, 7);
}

#[test]
fn group_round_trip() {
    let mut stream = CharStream::new("(42)");
    let group = Group::<Paren, Number>::parse(&mut stream).unwrap();
    assert_eq!(group.item().value(), "42");
    assert_eq!(group.span(), Span::new(pos(0, 0, 0), pos(0, 4, 4)));
    assert_eq!(stream.position(), pos(0, 4, 4));
    assert_eq!(stream.peek(), None);
}

#[test]
fn unterminated_string_is_a_hard_failure() {
    let mut stream = CharStream::new("\"unterminated");
    let error = StringValue::parse(&mut stream).unwrap_err();
    assert_eq!(error.kind, ErrorKind::Error);
    assert_eq!(error.position, pos(0, 13, 13));
}

#[test]
fn choice_does_not_backtrack_over_hard_failure() {
    let mut stream = CharStream::new("\"unterminated");
    let result = Either::<StringValue, Identifier>::parse(&mut stream);
    match result {
        Err(error) => assert_eq!(error.kind, ErrorKind::Error),
        Ok(_) => panic!("the second alternative must not be tried"),
    }
}

#[test]
fn choice_moves_on_after_soft_failure() {
    let mut stream = CharStream::new("hello");
    match Either::<StringValue, Identifier>::parse(&mut stream) {
        Ok(Either::Second(identifier)) => assert_eq!(identifier.value(), "hello"),
        _ => panic!("expected the identifier"),
    }
}

#[test]
fn skip_all_number_span_covers_digits_only() {
    let mut stream = CharStream::new("  42   ");
    let number = Number::parse(&mut stream).unwrap();
    assert_eq!(number.value(), "42");
    assert_eq!(number.span(), Span::new(pos(0, 2, 2), pos(0, 4, 4)));
    assert_eq!(stream.position(), pos(0, 4, 4));
}

#[test]
fn string_keeps_inner_whitespace() {
    let mut stream = CharStream::new("\"a b\"");
    let string = StringValue::parse(&mut stream).unwrap();
    assert_eq!(string.value(), "a b");
    assert_eq!(string.span(), Span::new(pos(0, 0, 0), pos(0, 5, 5)));
}

#[test]
fn keep_all_number_does_not_skip_leading_space() {
    let mut stream = CharStream::new(" 42").build(WhitespaceType::KeepAll);
    let error = Number::parse(&mut stream).unwrap_err();
    assert_eq!(error.kind, ErrorKind::NotFound);
    assert_eq!(stream.position(), pos(0, 0, 0));
}

#[test]
fn indent_block_stops_at_shallower_line() {
    let mut stream = CharStream::new(" a\n b\nc");
    let block = Indent::<Identifier>::parse(&mut stream).unwrap();
    assert_eq!(block.values().len(), 2);
    assert_eq!(block.depth(), 1);
    assert_eq!(block.values()[1].value(), "b");
    assert_eq!(stream.position(), pos(1, 2, 5));
    let rest = Identifier::parse(&mut stream).unwrap();
    assert_eq!(rest.value(), "c");
}

#[test]
fn indent_block_fails_on_unreadable_first_line() {
    let mut stream = CharStream::new(" 1\n a");
    assert!(Indent::<Identifier>::parse(&mut stream).is_err());
}

#[test]
fn empty_list_is_not_an_error() {
    let mut stream = CharStream::new("");
    let list = List::<StringValue, Pipe>::parse(&mut stream).unwrap();
    assert_eq!(list.len(), 0);
    let mut stream = CharStream::new("1012");
    let list = List::<StringValue, Pipe>::parse(&mut stream).unwrap();
    assert_eq!(list.len(), 0);
    assert_eq!(stream.position(), pos(0, 0, 0));
}

#[test]
fn list_fails_after_dangling_separator() {
    let mut stream = CharStream::new("0, 1,");
    let error = List::<Number, Comma>::parse(&mut stream).unwrap_err();
    assert_eq!(error.kind, ErrorKind::NotFound);
}

#[test]
fn bracketed_number_list() {
    let mut stream = CharStream::new("[0, 1, 2]");
    let group = Group::<Bracket, List<Number, Comma>>::parse(&mut stream).unwrap();
    assert_eq!(group.item().len(), 3);
    assert_eq!(group.delimiter().start().span, Span::new(pos(0, 0, 0), pos(0, 1, 1)));
    assert_eq!(group.delimiter().end().span, Span::new(pos(0, 8, 8), pos(0, 9, 9)));
}

#[test]
fn group_missing_close_passes_on_soft_failure() {
    let mut stream = CharStream::new("(42");
    let error = Group::<Paren, Number>::parse(&mut stream).unwrap_err();
    assert_eq!(error.kind, ErrorKind::NotFound);
}

#[test]
fn repetition_reads_identifiers() {
    let mut stream = CharStream::new("hello world");
    let words = Vec::<Identifier>::parse(&mut stream).unwrap();
    assert_eq!(words.len(), 2);
    assert_eq!(words.span(), Span::new(pos(0, 0, 0), pos(0, 11, 11)));
}

#[test]
fn repetition_needs_one_item() {
    let mut stream = CharStream::new("42");
    let error = Vec::<Identifier>::parse(&mut stream).unwrap_err();
    assert_eq!(error.kind, ErrorKind::NotFound);
    assert_eq!(error.position, pos(0, 0, 0));
}

#[test]
fn tuple_reads_in_order() {
    let mut stream = CharStream::new("key: 7");
    let (key, _, number) = <(Identifier, Colon, Number)>::parse(&mut stream).unwrap();
    assert_eq!(key.value(), "key");
    assert_eq!(number.value(), "7");
    let mut stream = CharStream::new("key 7");
    assert!(<(Identifier, Colon)>::parse(&mut stream).is_err());
}

#[test]
fn multi_character_token() {
    let mut stream = CharStream::new("  ==");
    let token = EqualEqual::parse(&mut stream).unwrap();
    assert_eq!(token.span, Span::new(pos(0, 2, 2), pos(0, 4, 4)));
    let mut stream = CharStream::new("=!");
    let error = EqualEqual::parse(&mut stream).unwrap_err();
    assert_eq!(error.position, pos(0, 0, 0));
    assert_eq!(stream.position(), pos(0, 0, 0));
}

#[test]
fn rows_and_columns_follow_newlines() {
    let mut stream = CharStream::new("a\n  bc");
    Identifier::parse(&mut stream).unwrap();
    let second = Identifier::parse(&mut stream).unwrap();
    assert_eq!(second.span(), Span::new(pos(1, 2, 4), pos(1, 4, 6)));
}

#[test]
fn identifier_takes_letters_then_alphanumerics() {
    let mut stream = CharStream::new("x1y2 z");
    let identifier = Identifier::parse(&mut stream).unwrap();
    assert_eq!(identifier.value(), "x1y2");
    let mut stream = CharStream::new("1x");
    let error = Identifier::parse(&mut stream).unwrap_err();
    assert_eq!(error.kind, ErrorKind::NotFound);
}

#[test]
fn goto_accepts_only_positions_of_the_input() {
    let mut stream = CharStream::new("ab\ncd");
    assert!(stream.goto(pos(1, 1, 4)).is_err());
    Identifier::parse(&mut stream).unwrap();
    Identifier::parse(&mut stream).unwrap();
    assert_eq!(stream.position(), pos(1, 2, 5));
    assert!(stream.goto(pos(1, 1, 4)).is_ok());
    assert_eq!(stream.next(), Some('d'));
    assert!(stream.goto(pos(0, 1, 4)).is_err());
    assert!(stream.goto(pos(0, 0, 9)).is_err());
    assert!(stream.goto(pos(0, 0, 0)).is_ok());
    assert_eq!(stream.next(), Some('a'));
}

#[test]
fn stream_skips_or_keeps_whitespace() {
    let mut stream = CharStream::new(" a");
    assert_eq!(stream.peek(), Some('a'));
    let mut stream = CharStream::new(" a").build(WhitespaceType::KeepAll);
    assert_eq!(stream.next(), Some(' '));
    assert_eq!(stream.next(), Some('a'));
    assert_eq!(stream.next(), None);
}

#[test]
fn indent_measures_line_start() {
    let stream = CharStream::new("a\n   b");
    assert_eq!(stream.indent(), 0);
    let mut stream = CharStream::new("a\n   b");
    stream.next();
    assert_eq!(stream.indent(), 3);
}

#[test]
fn error_constructors() {
    let soft = ParseError::new("missing", pos(0, 1, 1));
    assert_eq!(soft.kind, ErrorKind::NotFound);
    assert_eq!(soft.message, "missing");
    let hard = ParseError::error("broken", pos(0, 1, 1));
    assert_eq!(hard.kind, ErrorKind::Error);
}

#[test]
fn quote_delimiter_pairs() {
    let start = parseal::tokens::LeftQuote { span: Span::new(pos(0, 0, 0), pos(0, 1, 1)) };
    let end = parseal::tokens::RightQuote { span: Span::new(pos(0, 2, 2), pos(0, 3, 3)) };
    let quote = parseal::tokens::Quote::new(start, end);
    assert_eq!(quote.end().span.end, pos(0, 3, 3));
}

#[test]
fn fixed_arity_array() {
    let mut stream = CharStream::new("1 2 3 4");
    let numbers = <[Number; 3]>::parse(&mut stream).unwrap();
    assert_eq!(numbers[2].value(), "3");
    assert_eq!(numbers.span(), Span::new(pos(0, 0, 0), pos(0, 5, 5)));
    assert_eq!(stream.position(), pos(0, 5, 5));
    let mut stream = CharStream::new("1 2");
    let error = <[Number; 3]>::parse(&mut stream).unwrap_err();
    assert_eq!(error.kind, ErrorKind::NotFound);
}

#[test]
fn empty_array_is_refused() {
    let mut stream = CharStream::new("1");
    let error = <[Number; 0]>::parse(&mut stream).unwrap_err();
    assert_eq!(error.kind, ErrorKind::Error);
}

#[test]
fn error_renders_as_one_line() {
    let error = ParseError::new("Did not find number", pos(12, 3, 40));
    assert_eq!(error.render(), "12:3:Error: 'Did not find number'");
    let error = ParseError::error("x", pos(0, 0, 0));
    assert_eq!(error.render(), "0:0:Error: 'x'");
}

#[test]
fn keep_all_span_starts_where_stream_stood() {
    let mut stream = CharStream::new("abc def").build(WhitespaceType::KeepAll);
    let before = stream.position();
    let identifier = Identifier::parse(&mut stream).unwrap();
    assert_eq!(identifier.span().start, before);
    assert_eq!(identifier.span().end, stream.position());
}

#[test]
fn non_ascii_classification() {
    let mut stream = CharStream::new("\u{00e9}t\u{00e9} \u{0663}");
    let word = Identifier::parse(&mut stream).unwrap();
    assert_eq!(word.value(), "\u{00e9}t\u{00e9}");
    let number = Number::parse(&mut stream).unwrap();
    assert_eq!(number.value(), "\u{0663}");
    let mut stream = CharStream::new("\u{3000}x");
    assert_eq!(stream.peek(), Some('x'));
}

#[test]
fn identifier_compares_with_str() {
    let mut stream = CharStream::new("true");
    let identifier = Identifier::parse(&mut stream).unwrap();
    assert!(identifier == "true");
    assert!(identifier != "tru");
    assert!(identifier.is("true"));
    assert!(!identifier.is("false"));
}

#[test]
fn list_is_empty_when_first_item_fails_hard() {
    let mut stream = CharStream::new("\"open");
    let list = List::<StringValue, Comma>::parse(&mut stream).unwrap();
    assert_eq!(list.len(), 0);
    assert_eq!(list.span(), Span::new(pos(0, 0, 0), pos(0, 0, 0)));
    assert_eq!(stream.position(), pos(0, 0, 0));
}

#[test]
fn list_span_starts_before_leading_whitespace() {
    let mut stream = CharStream::new("  x|y");
    let list = List::<Identifier, Pipe>::parse(&mut stream).unwrap();
    assert_eq!(list.len(), 2);
    assert_eq!(list.span(), Span::new(pos(0, 0, 0), pos(0, 5, 5)));
}
