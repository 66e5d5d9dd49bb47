use machine::dynamic_machine::StateValue;
use machine::machine::machine;
use machine::tokens::Token;

fn id(s: &str) -> Token {
    Token::Ident(s.to_string())
}

#[test]
fn hello() {
    let start = StateValue::new("Start".to_string(), vec![0]);
    let _end = StateValue::new("End".to_string(), vec![1, 1]);
    let _err = StateValue::new("Error".to_string(), vec![]);

    assert_eq!(start, StateValue::new("Start".to_string(), vec![0]));

    // The same machine, fed to the generator:
    //   enum State { Start { pub x: u8 }, End { pub x: u8, y: bool } }
    let toks = vec![
        id("enum"),
        id("State"),
        Token::LBrace,
        id("Start"),
        Token::LBrace,
        id("pub"),
        id("x"),
        Token::Colon,
        id("u8"),
        Token::RBrace,
        Token::Comma,
        id("End"),
        Token::LBrace,
        id("pub"),
        id("x"),
        Token::Colon,
        id("u8"),
        Token::Comma,
        id("y"),
        Token::Colon,
        id("bool"),
        Token::RBrace,
        Token::RBrace,
    ];
    let (name, code) = machine(&toks).ok().unwrap();
    assert_eq!(name, "State".to_string());
    assert!(code.contains("pub fn start(x: u8) -> State"));
    assert!(code.contains("pub fn error() -> State"));
    assert!(code.contains("State::Start(Start { x })"));
}
