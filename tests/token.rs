use lexer::{Ann, AnnToken, Data, Local, Token};

fn symbol_of(name: &str) -> Token {
    Token::Symbol(Local::new(name.to_string()))
}

#[test]
fn boolean() {
    assert_eq!(
        Token::from("true"),
        Some((Token::Boolean(Data::Boolean(true)), 4)),
    );

    assert_eq!(
        Token::from("false"),
        Some((Token::Boolean(Data::Boolean(false)), 5)),
    );
}

#[test]
fn assign() {
    assert_eq!(Token::from("="), Some((Token::Assign, 1)));
}

#[test]
fn symbol() {
    assert_eq!(Token::from(""), None);

    assert_eq!(
        Token::from("heck"),
        Some((Token::Symbol(Local::new("heck".to_string())), 4))
    );
}

#[test]
fn sep() {
    assert_eq!(Token::from("\nheck"), Some((Token::Sep, 1)));

    assert_eq!(Token::from("; heck"), Some((Token::Sep, 1)));
}

#[test]
fn brackets_consume_one() {
    assert_eq!(Token::from("{"), Some((Token::OpenBracket, 1)));
    assert_eq!(Token::from("}"), Some((Token::CloseBracket, 1)));
    assert_eq!(Token::from("{x = true}"), Some((Token::OpenBracket, 1)));
    assert_eq!(Token::from("} heck"), Some((Token::CloseBracket, 1)));
    assert_eq!(Token::from("=heck"), Some((Token::Assign, 1)));
}

#[test]
fn keyword_beats_equal_symbol() {
    assert_ne!(Token::from("true"), Some((symbol_of("true"), 4)));
    assert_eq!(
        Token::from("true;"),
        Some((Token::Boolean(Data::Boolean(true)), 4)),
    );
    assert_eq!(
        Token::from("false x"),
        Some((Token::Boolean(Data::Boolean(false)), 5)),
    );
}

#[test]
fn longer_symbol_beats_keyword() {
    assert_eq!(Token::from("trueish"), Some((symbol_of("trueish"), 7)));
    assert_eq!(Token::from("false1 = 2"), Some((symbol_of("false1"), 6)));
}

#[test]
fn symbol_takes_whole_run() {
    assert_eq!(Token::from("abc def"), Some((symbol_of("abc"), 3)));
    assert_eq!(Token::from("x9Y2;"), Some((symbol_of("x9Y2"), 4)));
    assert_eq!(Token::from("42"), Some((symbol_of("42"), 2)));
    assert_eq!(Token::from("tru"), Some((symbol_of("tru"), 3)));
}

#[test]
fn symbol_stops_at_non_ascii() {
    assert_eq!(Token::from("h\u{e9}llo"), Some((symbol_of("h"), 1)));
}

#[test]
fn nothing_recognised() {
    assert_eq!(Token::from(" heck"), None);
    assert_eq!(Token::from("_x"), None);
    assert_eq!(Token::from("\u{e9}"), None);
    assert_eq!(Token::from("\r\n"), None);
}

#[test]
fn local_keeps_its_name() {
    let l = Local::new("heck".to_string());
    assert_eq!(l.name(), "heck");
}

#[test]
fn ann_token_holds_both() {
    let ann = Ann::new(3, 4);
    assert_eq!(ann.offset, 3);
    assert_eq!(ann.length, 4);
    let t = AnnToken::new(Token::Assign, ann);
    assert_eq!(t.kind, Token::Assign);
    assert_eq!(t.ann, Ann::new(3, 4));
}
