use nessie_parse::{Cont, FailFn, Failure, MapFn, ParseResult, Parser, Pred, Val};

fn reserved_words() -> Vec<Vec<char>> {
    vec![
        "if".chars().collect(),
        "else".chars().collect(),
        "while".chars().collect(),
    ]
}

fn cant_have_letter_after_number() -> Val {
    Val::Text("cant have letter after number".chars().collect())
}

fn identifier_is_reserved_word() -> Val {
    Val::Text("identifier is a reserved word".chars().collect())
}

fn number() -> Parser {
    Parser::digit()
        .repeat_1()
        .map(MapFn::JoinChars)
        .map_fail(FailFn::Const(Failure::Unit))
        .and_then(Cont::SeqKeepFirst(Box::new(
            Parser::not(Parser::letter()).or_err(cant_have_letter_after_number()),
        )))
        .with_name("number")
}

#[test]
fn empty_number() {
    let result = number().parse("".into());
    assert!(matches!(result, ParseResult::Recoverable(..)));
}

#[test]
fn number_with_letter() {
    let result = number().parse("123abc".into());
    assert!(matches!(result, ParseResult::Fatal(..)));
}

#[test]
fn good_number() {
    let result = number().parse("123".into());
    assert!(matches!(result, ParseResult::Success(s, _) if s == Val::Text(vec!['1', '2', '3'])));
}

fn word() -> Parser {
    Parser::not(Parser::digit())
        .and_then(Cont::SeqKeepSecond(Box::new(
            Parser::one_of(vec![
                Parser::letter().map_fail(FailFn::Const(Failure::Unit)),
                Parser::digit().map_fail(FailFn::Const(Failure::Unit)),
                Parser::char_eq('_'),
            ])
            .map_fail(FailFn::Const(Failure::Unit))
            .repeat_1()
            .map(MapFn::JoinChars),
        )))
        .with_name("word")
}

fn identifier() -> Parser {
    word().and_then(Cont::ErrIf(
        Pred::TextIn(reserved_words()),
        identifier_is_reserved_word(),
    ))
}

#[test]
fn empty_identifier() {
    let result = identifier().parse("".into());
    assert!(matches!(result, ParseResult::Recoverable(..)));
}

#[test]
fn identifier_with_digit() {
    let result = identifier().parse("abc123de".into());
    let expected: Vec<char> = "abc123de".chars().collect();
    assert!(matches!(result, ParseResult::Success(s, _) if s == Val::Text(expected)));
}

#[test]
fn identifier_wit_digit_at_start() {
    let result = identifier().parse("123abc".into());
    assert!(matches!(result, ParseResult::Recoverable(..)));
}

#[test]
fn identifier_that_is_resereved() {
    let result = identifier().parse("if tanin".into());
    assert!(matches!(result, ParseResult::Fatal(..)));
}
