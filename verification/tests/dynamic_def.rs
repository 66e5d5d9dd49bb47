use machine::dynamic_def::DynamicDef;
use machine::dynamic_machine::StateValue;
use machine::tokens::Token;

fn id(s: &str) -> Token {
    Token::Ident(s.to_string())
}

fn lit(s: &str) -> Token {
    Token::Literal(s.to_string())
}

// { initial: Traffic::Green(0), error: Traffic::Error }
// attributes { count: u8 }
// event [advance] {
//     Traffic::Green(c) => Traffic::Orange,
//     Traffic::Orange => Traffic::Red,
//     Traffic::Red => Traffic::Green(0)
// }
fn traffic_def_tokens() -> Vec<Token> {
    vec![
        Token::LBrace,
        id("initial"),
        Token::Colon,
        id("Traffic"),
        Token::PathSep,
        id("Green"),
        Token::LParen,
        lit("0"),
        Token::RParen,
        Token::Comma,
        id("error"),
        Token::Colon,
        id("Traffic"),
        Token::PathSep,
        id("Error"),
        Token::RBrace,
        id("attributes"),
        Token::LBrace,
        id("count"),
        Token::Colon,
        id("u8"),
        Token::RBrace,
        id("event"),
        Token::LBracket,
        id("advance"),
        Token::RBracket,
        Token::LBrace,
        id("Traffic"),
        Token::PathSep,
        id("Green"),
        Token::LParen,
        id("c"),
        Token::RParen,
        Token::FatArrow,
        id("Traffic"),
        Token::PathSep,
        id("Orange"),
        Token::Comma,
        id("Traffic"),
        Token::PathSep,
        id("Orange"),
        Token::FatArrow,
        id("Traffic"),
        Token::PathSep,
        id("Red"),
        Token::Comma,
        id("Traffic"),
        Token::PathSep,
        id("Red"),
        Token::FatArrow,
        id("Traffic"),
        Token::PathSep,
        id("Green"),
        Token::LParen,
        lit("0"),
        Token::RParen,
        Token::RBrace,
    ]
}

#[test]
fn parsed_definition_drives_the_interpreter() {
    let toks = traffic_def_tokens();
    let def = DynamicDef::parse(&toks).ok().unwrap();
    assert_eq!(def.initial, StateValue::new("Green".to_string(), vec![0]));
    assert_eq!(def.error, StateValue::new("Error".to_string(), vec![]));
    assert_eq!(def.attributes.len(), 1);
    assert_eq!(def.attributes[0].name, "count".to_string());
    assert_eq!(def.events.len(), 1);
    assert_eq!(def.events[0].arms.len(), 3);

    let mut m = def.instantiate(vec![0]);
    assert_eq!(m.current_state(), StateValue::new("Green".to_string(), vec![0]));

    assert_eq!(def.dispatch(&mut m, "advance"), Some(Some(())));
    assert_eq!(m.current_state(), StateValue::new("Orange".to_string(), vec![]));
    assert_eq!(def.dispatch(&mut m, "advance"), Some(Some(())));
    assert_eq!(m.current_state(), StateValue::new("Red".to_string(), vec![]));
    assert_eq!(def.dispatch(&mut m, "advance"), Some(Some(())));
    assert_eq!(m.current_state(), StateValue::new("Green".to_string(), vec![0]));

    // An undeclared event name touches nothing.
    assert_eq!(def.dispatch(&mut m, "bogus"), None);
    assert_eq!(m.current_state(), StateValue::new("Green".to_string(), vec![0]));
    assert!(!m.is_invalid());

    assert_eq!(
        m.print_trace(),
        "Green =( advance )=> Orange =( advance )=> Red =( advance )=> Green(0)".to_string(),
    );
}

#[test]
fn undeclared_start_state_falls_into_the_error_sink() {
    let toks = traffic_def_tokens();
    let def = DynamicDef::parse(&toks).ok().unwrap();
    let mut m = def.instantiate(vec![0]);
    // Move into the error state by dispatching from a state no arm covers.
    let blinking = StateValue::new("Blinking".to_string(), vec![]);
    let pats: Vec<String> = vec![];
    assert!(!m.computed_event("force", &pats, &blinking));
    assert!(m.is_invalid());
    // The error state stays absorbing under declared events.
    assert_eq!(def.dispatch(&mut m, "advance"), Some(None));
    assert!(m.is_invalid());
}

#[test]
fn definition_syntax_errors_carry_a_position() {
    // The opening brace is missing.
    let toks = vec![id("initial")];
    assert!(DynamicDef::parse(&toks).is_err());

    // A payload literal that is not a number is rejected.
    let mut toks = traffic_def_tokens();
    toks[7] = lit("nope");
    assert!(DynamicDef::parse(&toks).is_err());

    // A payload too large for a machine word is rejected.
    let mut toks2 = traffic_def_tokens();
    toks2[7] = lit("18446744073709551616");
    assert!(DynamicDef::parse(&toks2).is_err());
}
