use nessie_parse::{Cont, Failure, MapFn, ParseResult, Parser, Pos, State, Val};

fn at(offset: usize, row: usize, col: usize) -> Pos {
    Pos { offset, row, col }
}

#[test]
fn digits_then_letter_is_fatal_after_the_digits() {
    let p = Parser::digit()
        .repeat_1()
        .and_then(Cont::SeqKeepFirst(Box::new(
            Parser::not(Parser::letter()).or_err(Val::Unit),
        )));
    let result = p.parse(State::new("123abc"));
    assert_eq!(result, ParseResult::Fatal(Val::Unit, at(3, 1, 4)));
}

#[test]
fn at_least_one_digit_on_empty_input_fails_at_the_start() {
    let result = Parser::digit().repeat_1().parse(State::new(""));
    assert_eq!(result, ParseResult::Recoverable(Failure::NotADigit, at(0, 1, 1)));
}

#[test]
fn digits_joined_to_a_string() {
    let result = Parser::digit()
        .repeat_1()
        .map(MapFn::JoinChars)
        .parse(State::new("123"));
    assert_eq!(
        result,
        ParseResult::Success(Val::Text(vec!['1', '2', '3']), at(3, 1, 4))
    );
}

#[test]
fn alternation_stops_after_a_matching_literal() {
    let p = Parser::one_of(vec![
        Parser::expect_string("if"),
        Parser::expect_string("else"),
    ]);
    let result = p.parse(State::new("elsewhere"));
    assert_eq!(result, ParseResult::Success(Val::Unit, at(4, 1, 5)));
}

#[test]
fn char_reads_one_character() {
    let result = Parser::char().parse(State::new("hi"));
    assert_eq!(result, ParseResult::Success(Val::Ch('h'), at(1, 1, 2)));
}

#[test]
fn char_fails_with_eof_at_the_end() {
    let result = Parser::char().parse(State::new(""));
    assert_eq!(result, ParseResult::Recoverable(Failure::Eof, at(0, 1, 1)));
}

#[test]
fn char_moves_down_on_a_line_break() {
    let result = Parser::char().parse(State::new("\nx"));
    assert_eq!(result, ParseResult::Success(Val::Ch('\n'), at(1, 2, 1)));
}

#[test]
fn char_eq_accepts_only_its_character() {
    let result = Parser::char_eq('a').parse(State::new("ab"));
    assert_eq!(result, ParseResult::Success(Val::Ch('a'), at(1, 1, 2)));
    let result = Parser::char_eq('a').parse(State::new("ba"));
    assert_eq!(result, ParseResult::Recoverable(Failure::Unit, at(0, 1, 1)));
}

#[test]
fn whitespace_accepts_only_whitespace() {
    let result = Parser::whitespace().parse(State::new(" x"));
    assert_eq!(result, ParseResult::Success(Val::Ch(' '), at(1, 1, 2)));
    let result = Parser::whitespace().parse(State::new("x"));
    assert_eq!(
        result,
        ParseResult::Recoverable(Failure::NotWhitespace, at(0, 1, 1))
    );
}

#[test]
fn skip_whitespace_stops_at_the_first_other_character() {
    let result = Parser::skip_whitespace().parse(State::new("  \nx"));
    assert_eq!(result, ParseResult::Success(Val::Unit, at(3, 2, 1)));
}

#[test]
fn whitespace_accepts_the_unicode_white_space_characters() {
    let result = Parser::whitespace().parse(State::new("\u{b}x"));
    assert_eq!(result, ParseResult::Success(Val::Ch('\u{b}'), at(1, 1, 2)));
    let result = Parser::whitespace().parse(State::new("\u{a0}x"));
    assert_eq!(result, ParseResult::Success(Val::Ch('\u{a0}'), at(1, 1, 2)));
    let result = Parser::whitespace().parse(State::new("\u{2003}x"));
    assert_eq!(result, ParseResult::Success(Val::Ch('\u{2003}'), at(1, 1, 2)));
}

#[test]
fn skip_whitespace_runs_past_unicode_white_space() {
    let result = Parser::skip_whitespace().parse(State::new(" \u{b}\u{2028}x"));
    assert_eq!(result, ParseResult::Success(Val::Unit, at(3, 1, 4)));
}

#[test]
fn skip_whitespace_on_only_whitespace_reaches_the_end() {
    let result = Parser::skip_whitespace().parse(State::new(" \t "));
    assert_eq!(result, ParseResult::Success(Val::Unit, at(3, 1, 4)));
}

#[test]
fn letter_rejects_a_digit() {
    let result = Parser::letter().parse(State::new("1"));
    assert_eq!(result, ParseResult::Recoverable(Failure::NotALetter, at(0, 1, 1)));
}

#[test]
fn eof_succeeds_only_at_the_end() {
    let result = Parser::eof().parse(State::new(""));
    assert_eq!(result, ParseResult::Success(Val::Unit, at(0, 1, 1)));
    let result = Parser::eof().parse(State::new("x"));
    assert_eq!(result, ParseResult::Recoverable(Failure::NotFound, at(0, 1, 1)));
}

#[test]
fn expect_string_consumes_the_literal() {
    let result = Parser::expect_string("else").parse(State::new("elsewhere"));
    assert_eq!(result, ParseResult::Success(Val::Unit, at(4, 1, 5)));
}

#[test]
fn expect_string_fails_without_consuming() {
    let result = Parser::expect_string("else").parse(State::new("elm"));
    assert_eq!(result, ParseResult::Recoverable(Failure::NotFound, at(0, 1, 1)));
}

#[test]
fn expect_string_tracks_line_breaks() {
    let result = Parser::expect_string("a\nb").parse(State::new("a\nbc"));
    assert_eq!(result, ParseResult::Success(Val::Unit, at(3, 2, 2)));
}

#[test]
fn of_bool_goes_both_ways() {
    let result = Parser::of_bool(true).parse(State::new("x"));
    assert_eq!(result, ParseResult::Success(Val::Unit, at(0, 1, 1)));
    let result = Parser::of_bool(false).parse(State::new("x"));
    assert_eq!(result, ParseResult::Recoverable(Failure::Unit, at(0, 1, 1)));
}

#[test]
fn positions_start_and_step() {
    let start = Pos::start();
    assert_eq!(start, at(0, 1, 1));
    assert_eq!(Pos::default(), start);
    assert_eq!(start.right(), at(1, 1, 2));
    assert_eq!(start.down(), at(1, 2, 1));
    assert_eq!(start.right().down().right(), at(3, 2, 2));
}

#[test]
fn state_rest_and_eof() {
    let s = State::at("hello", at(2, 1, 3));
    assert_eq!(s.rest(), "llo");
    assert!(!s.eof());
    let s = State::at("hello", at(5, 1, 6));
    assert_eq!(s.rest(), "");
    assert!(s.eof());
    let s = State::new("hello").with_pos(at(4, 1, 5));
    assert_eq!(s.rest(), "o");
}
