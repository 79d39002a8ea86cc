use nessie_parse::{Cont, FailFn, Failure, MapFn, ParseResult, Parser, Pos, State, Strategy, Val};

fn at(offset: usize, row: usize, col: usize) -> Pos {
    Pos { offset, row, col }
}

#[test]
fn ret_consumes_nothing() {
    let s = State::at("xy", at(1, 1, 2));
    let result = Parser::ret(Val::Bool(true)).parse(s);
    assert_eq!(result, ParseResult::Success(Val::Bool(true), at(1, 1, 2)));
}

#[test]
fn fail_consumes_nothing() {
    let result = Parser::fail(Failure::Eof).parse(State::new("xy"));
    assert_eq!(result, ParseResult::Recoverable(Failure::Eof, at(0, 1, 1)));
}

#[test]
fn err_consumes_nothing() {
    let result = Parser::err(Val::Unit).parse(State::new("xy"));
    assert_eq!(result, ParseResult::Fatal(Val::Unit, at(0, 1, 1)));
}

#[test]
fn state_yields_the_cursor() {
    let s = State::at("abc", at(2, 1, 3));
    let result = Parser::state().parse(s);
    assert_eq!(result, ParseResult::Success(Val::Mark(at(2, 1, 3)), at(2, 1, 3)));
}

#[test]
fn map_on_success() {
    let result = Parser::digit()
        .repeat_1()
        .map(MapFn::JoinChars)
        .parse(State::new("42"));
    assert_eq!(
        result,
        ParseResult::Success(Val::Text(vec!['4', '2']), at(2, 1, 3))
    );
}

#[test]
fn map_never_touches_failures() {
    let plain = Parser::digit().parse(State::new("x"));
    let mapped = Parser::digit().map(MapFn::Const(Val::Unit)).parse(State::new("x"));
    assert_eq!(plain, ParseResult::Recoverable(Failure::NotADigit, at(0, 1, 1)));
    assert_eq!(mapped, plain);
}

#[test]
fn map_fail_rewrites_only_failures() {
    let mapped = Parser::digit().map_fail(FailFn::Const(Failure::NotFound));
    assert_eq!(
        mapped.parse(State::new("x")),
        ParseResult::Recoverable(Failure::NotFound, at(0, 1, 1))
    );
    let mapped = Parser::digit().map_fail(FailFn::Const(Failure::NotFound));
    assert_eq!(
        mapped.parse(State::new("7")),
        ParseResult::Success(Val::Ch('7'), at(1, 1, 2))
    );
}

#[test]
fn map_err_rewrites_only_errors() {
    let mapped = Parser::err(Val::Unit).map_err(MapFn::Const(Val::Bool(false)));
    assert_eq!(
        mapped.parse(State::new("x")),
        ParseResult::Fatal(Val::Bool(false), at(0, 1, 1))
    );
}

#[test]
fn and_then_sequences_from_the_stop_position() {
    let p = Parser::char_eq('a').and_then(Cont::SeqKeepSecond(Box::new(Parser::char_eq('b'))));
    assert_eq!(
        p.parse(State::new("ab")),
        ParseResult::Success(Val::Ch('b'), at(2, 1, 3))
    );
}

#[test]
fn and_then_fail_restarts_at_the_original_position() {
    let p = Parser::digit().and_then_fail(Parser::char_eq('x'));
    assert_eq!(
        p.parse(State::new("x")),
        ParseResult::Success(Val::Ch('x'), at(1, 1, 2))
    );
}

#[test]
fn and_then_err_catches_fatal_errors() {
    let p = Parser::err(Val::Unit).and_then_err(Parser::ret(Val::Bool(true)));
    assert_eq!(
        p.parse(State::new("x")),
        ParseResult::Success(Val::Bool(true), at(0, 1, 1))
    );
}

#[test]
fn or_is_left_biased() {
    let p = Parser::char_eq('a').or(Parser::char_eq('a'), Strategy::KeepLast);
    let alone = Parser::char_eq('a').parse(State::new("ab"));
    assert_eq!(p.parse(State::new("ab")), alone);
}

#[test]
fn or_takes_the_second_on_recoverable_failure() {
    let p = Parser::char_eq('a').or(Parser::char_eq('b'), Strategy::Discard);
    assert_eq!(
        p.parse(State::new("b")),
        ParseResult::Success(Val::Ch('b'), at(1, 1, 2))
    );
}

#[test]
fn or_does_not_try_siblings_after_fatal() {
    let p = Parser::err(Val::Unit).or(Parser::char_eq('a'), Strategy::Discard);
    assert_eq!(p.parse(State::new("a")), ParseResult::Fatal(Val::Unit, at(0, 1, 1)));
}

#[test]
fn or_discard_strategy() {
    let p = Parser::char_eq('a').or(Parser::char_eq('b'), Strategy::Discard);
    assert_eq!(
        p.parse(State::new("c")),
        ParseResult::Recoverable(Failure::Unit, at(0, 1, 1))
    );
}

#[test]
fn or_keep_first_and_keep_last_strategies() {
    let p = Parser::digit().or(Parser::letter(), Strategy::KeepFirst);
    assert_eq!(
        p.parse(State::new("!")),
        ParseResult::Recoverable(Failure::NotADigit, at(0, 1, 1))
    );
    let p = Parser::digit().or(Parser::letter(), Strategy::KeepLast);
    assert_eq!(
        p.parse(State::new("!")),
        ParseResult::Recoverable(Failure::NotALetter, at(0, 1, 1))
    );
}

#[test]
fn or_collect_strategy_groups_both_failures() {
    let p = Parser::digit().or(Parser::letter(), Strategy::Collect);
    assert_eq!(
        p.parse(State::new("!")),
        ParseResult::Recoverable(
            Failure::Group(vec![
                (Failure::NotADigit, at(0, 1, 1)),
                (Failure::NotALetter, at(0, 1, 1)),
            ]),
            at(0, 1, 1)
        )
    );
}

#[test]
fn or_err_turns_failure_into_fatal() {
    let p = Parser::digit().or_err(Val::Unit);
    assert_eq!(p.parse(State::new("x")), ParseResult::Fatal(Val::Unit, at(0, 1, 1)));
    let p = Parser::digit().or_err(Val::Unit);
    assert_eq!(
        p.parse(State::new("7")),
        ParseResult::Success(Val::Ch('7'), at(1, 1, 2))
    );
}

#[test]
fn one_of_empty_fails_with_empty_aggregate() {
    let result = Parser::one_of(vec![]).parse(State::new("anything"));
    assert_eq!(
        result,
        ParseResult::Recoverable(Failure::Group(vec![]), at(0, 1, 1))
    );
}

#[test]
fn one_of_takes_the_first_success() {
    let p = Parser::one_of(vec![Parser::digit(), Parser::letter()]);
    assert_eq!(
        p.parse(State::new("a")),
        ParseResult::Success(Val::Ch('a'), at(1, 1, 2))
    );
}

#[test]
fn one_of_stops_at_a_fatal_alternative() {
    let p = Parser::one_of(vec![
        Parser::digit(),
        Parser::err(Val::Unit),
        Parser::letter(),
    ]);
    assert_eq!(p.parse(State::new("x")), ParseResult::Fatal(Val::Unit, at(0, 1, 1)));
}

#[test]
fn one_of_collects_every_failure_in_order() {
    let p = Parser::one_of(vec![Parser::digit(), Parser::letter()]);
    assert_eq!(
        p.parse(State::new("!")),
        ParseResult::Recoverable(
            Failure::Group(vec![
                (Failure::NotADigit, at(0, 1, 1)),
                (Failure::NotALetter, at(0, 1, 1)),
            ]),
            at(0, 1, 1)
        )
    );
}

#[test]
fn filter_rejection_reports_the_original_position() {
    let p = Parser::char().filter(nessie_parse::Pred::IsDigit, Failure::NotADigit);
    assert_eq!(
        p.parse(State::new("ab")),
        ParseResult::Recoverable(Failure::NotADigit, at(0, 1, 1))
    );
}

#[test]
fn maybe_wraps_success_and_swallows_failure() {
    let p = Parser::digit().maybe();
    assert_eq!(
        p.parse(State::new("1")),
        ParseResult::Success(Val::OptSome(Box::new(Val::Ch('1'))), at(1, 1, 2))
    );
    let p = Parser::digit().maybe();
    assert_eq!(
        p.parse(State::new("x")),
        ParseResult::Success(Val::OptNone, at(0, 1, 1))
    );
}

#[test]
fn maybe_never_swallows_fatal() {
    let p = Parser::err(Val::Unit).maybe();
    assert_eq!(p.parse(State::new("x")), ParseResult::Fatal(Val::Unit, at(0, 1, 1)));
}

#[test]
fn repeat_0_of_failing_parser_succeeds_empty() {
    let p = Parser::digit().repeat_0();
    assert_eq!(
        p.parse(State::new("abc")),
        ParseResult::Success(Val::List(vec![]), at(0, 1, 1))
    );
}

#[test]
fn repeat_0_collects_in_order() {
    let p = Parser::digit().repeat_0();
    assert_eq!(
        p.parse(State::new("12x")),
        ParseResult::Success(Val::List(vec![Val::Ch('1'), Val::Ch('2')]), at(2, 1, 3))
    );
}

#[test]
fn repeat_0_aborts_on_fatal() {
    let p = Parser::char_eq('a').or_err(Val::Unit).repeat_0();
    assert_eq!(
        p.parse(State::new("aab")),
        ParseResult::Fatal(Val::Unit, at(2, 1, 3))
    );
}

#[test]
fn repeat_1_needs_one_success() {
    let p = Parser::digit().repeat_1();
    assert_eq!(
        p.parse(State::new("x")),
        ParseResult::Recoverable(Failure::NotADigit, at(0, 1, 1))
    );
    let p = Parser::digit().repeat_1();
    assert_eq!(
        p.parse(State::new("1x")),
        ParseResult::Success(Val::List(vec![Val::Ch('1')]), at(1, 1, 2))
    );
}

#[test]
fn not_inverts_classification_twice() {
    let p = Parser::not(Parser::not(Parser::digit()));
    assert!(matches!(p.parse(State::new("1")), ParseResult::Success(..)));
    let p = Parser::not(Parser::not(Parser::digit()));
    assert!(matches!(
        p.parse(State::new("x")),
        ParseResult::Recoverable(..)
    ));
    let p = Parser::not(Parser::not(Parser::err(Val::Unit)));
    assert!(matches!(p.parse(State::new("x")), ParseResult::Fatal(..)));
}

#[test]
fn not_consumes_nothing() {
    let p = Parser::not(Parser::digit());
    assert_eq!(
        p.parse(State::new("1")),
        ParseResult::Recoverable(Failure::Unit, at(0, 1, 1))
    );
    let p = Parser::not(Parser::digit());
    assert_eq!(
        p.parse(State::new("x")),
        ParseResult::Success(Val::Unit, at(0, 1, 1))
    );
}

#[test]
fn with_name_changes_nothing_but_the_name() {
    let named = Parser::digit().with_name("a digit");
    assert_eq!(
        named.parse(State::new("5")),
        ParseResult::Success(Val::Ch('5'), at(1, 1, 2))
    );
}
