use machine::machine::{machine, Machine};
use machine::methods::{methods, DefaultValue, Methods};
use machine::tokens::Token;
use machine::transitions::{check_transitions, transitions, Transitions};
use machine::{BuildError, SemanticError};

fn id(s: &str) -> Token {
    Token::Ident(s.to_string())
}

fn traffic_machine_tokens() -> Vec<Token> {
    // enum Traffic { Green { count: u8 }, Orange, Red }
    vec![
        id("enum"),
        id("Traffic"),
        Token::LBrace,
        id("Green"),
        Token::LBrace,
        id("count"),
        Token::Colon,
        id("u8"),
        Token::RBrace,
        Token::Comma,
        id("Orange"),
        Token::Comma,
        id("Red"),
        Token::RBrace,
    ]
}

fn traffic_transitions_tokens() -> Vec<Token> {
    // Traffic, [
    //     (Green, Advance) => Orange,
    //     (Orange, Advance) => Red,
    //     (Red, Advance) => Green,
    //     (Green, PassCar) => [Green, Orange]
    // ]
    vec![
        id("Traffic"),
        Token::Comma,
        Token::LBracket,
        Token::LParen,
        id("Green"),
        Token::Comma,
        id("Advance"),
        Token::RParen,
        Token::FatArrow,
        id("Orange"),
        Token::Comma,
        Token::LParen,
        id("Orange"),
        Token::Comma,
        id("Advance"),
        Token::RParen,
        Token::FatArrow,
        id("Red"),
        Token::Comma,
        Token::LParen,
        id("Red"),
        Token::Comma,
        id("Advance"),
        Token::RParen,
        Token::FatArrow,
        id("Green"),
        Token::Comma,
        Token::LParen,
        id("Green"),
        Token::Comma,
        id("PassCar"),
        Token::RParen,
        Token::FatArrow,
        Token::LBracket,
        id("Green"),
        Token::Comma,
        id("Orange"),
        Token::RBracket,
        Token::RBracket,
    ]
}

#[test]
fn machine_generates_union_structs_and_constructors() {
    let toks = traffic_machine_tokens();
    let (name, code) = machine(&toks).ok().unwrap();
    assert_eq!(name, "Traffic".to_string());
    let expected = {
        let mut e = String::new();
        e.push_str("#[derive(Clone, Debug, PartialEq)]\n");
        e.push_str("pub enum Traffic {\n");
        e.push_str("    Error,\n");
        e.push_str("    Green(Green),\n");
        e.push_str("    Orange(Orange),\n");
        e.push_str("    Red(Red),\n");
        e.push_str("}\n\n");
        e.push_str("#[derive(Clone, Debug, PartialEq)]\n");
        e.push_str("pub struct Green {\n");
        e.push_str("    count: u8,\n");
        e.push_str("}\n\n");
        e.push_str("#[derive(Clone, Debug, PartialEq)]\n");
        e.push_str("pub struct Orange {\n");
        e.push_str("}\n\n");
        e.push_str("#[derive(Clone, Debug, PartialEq)]\n");
        e.push_str("pub struct Red {\n");
        e.push_str("}\n\n");
        e.push_str("impl Traffic {\n");
        e.push_str("    pub fn green(count: u8) -> Traffic {\n");
        e.push_str("        Traffic::Green(Green { count })\n");
        e.push_str("    }\n\n");
        e.push_str("    pub fn orange() -> Traffic {\n");
        e.push_str("        Traffic::Orange(Orange {})\n");
        e.push_str("    }\n\n");
        e.push_str("    pub fn red() -> Traffic {\n");
        e.push_str("        Traffic::Red(Red {})\n");
        e.push_str("    }\n\n");
        e.push_str("    pub fn error() -> Traffic {\n");
        e.push_str("        Traffic::Error\n");
        e.push_str("    }\n");
        e.push_str("}\n");
        e
    };
    assert_eq!(code, expected);
}

#[test]
fn machine_rejects_reserved_error_state() {
    // enum Broken { Ok, Error }
    let toks = vec![
        id("enum"),
        id("Broken"),
        Token::LBrace,
        id("Working"),
        Token::Comma,
        id("Error"),
        Token::RBrace,
    ];
    match machine(&toks) {
        Err(BuildError::Semantic(SemanticError::ReservedState(s))) => {
            assert_eq!(s, "Error".to_string());
        },
        _ => panic!("a state named Error must be rejected"),
    }
}

#[test]
fn machine_reports_syntax_error_position() {
    // enum Traffic [ ... : the brace is missing at position 2
    let toks = vec![id("enum"), id("Traffic"), Token::LBracket];
    match machine(&toks) {
        Err(BuildError::Syntax(e)) => assert_eq!(e.pos, 2),
        _ => panic!("a malformed declaration must be rejected"),
    }
}

#[test]
fn transitions_generate_dispatch_methods() {
    let toks = traffic_transitions_tokens();
    let (name, code, _dot) = transitions(&toks).ok().unwrap();
    assert_eq!(name, "Traffic".to_string());
    let expected = {
        let mut e = String::new();
        e.push_str("#[derive(Clone, Debug, PartialEq)]\n");
        e.push_str("pub enum TrafficMessages {\n");
        e.push_str("    Advance(Advance),\n");
        e.push_str("    PassCar(PassCar),\n");
        e.push_str("}\n\n");
        e.push_str("impl Traffic {\n");
        e.push_str("    pub fn on_advance(self, input: Advance) -> Traffic {\n");
        e.push_str("        match self {\n");
        e.push_str("            Traffic::Green(state) => Traffic::Orange(state.on_advance(input)),\n");
        e.push_str("            Traffic::Orange(state) => Traffic::Red(state.on_advance(input)),\n");
        e.push_str("            Traffic::Red(state) => Traffic::Green(state.on_advance(input)),\n");
        e.push_str("            _ => Traffic::Error,\n");
        e.push_str("        }\n");
        e.push_str("    }\n\n");
        e.push_str("    pub fn on_pass_car(self, input: PassCar) -> Traffic {\n");
        e.push_str("        match self {\n");
        e.push_str("            Traffic::Green(state) => state.on_pass_car(input),\n");
        e.push_str("            _ => Traffic::Error,\n");
        e.push_str("        }\n");
        e.push_str("    }\n\n");
        e.push_str("    pub fn execute(self, input: TrafficMessages) -> Traffic {\n");
        e.push_str("        match input {\n");
        e.push_str("            TrafficMessages::Advance(message) => self.on_advance(message),\n");
        e.push_str("            TrafficMessages::PassCar(message) => self.on_pass_car(message),\n");
        e.push_str("            _ => Traffic::Error,\n");
        e.push_str("        }\n");
        e.push_str("    }\n");
        e.push_str("}\n");
        e
    };
    assert_eq!(code, expected);
}

#[test]
fn dot_export_has_one_edge_per_triple() {
    let toks = traffic_transitions_tokens();
    let (_, _, dot) = transitions(&toks).ok().unwrap();
    let expected = {
        let mut e = String::new();
        e.push_str("digraph Traffic {\n");
        e.push_str("    Green -> Orange [ label = \"Advance\" ];\n");
        e.push_str("    Orange -> Red [ label = \"Advance\" ];\n");
        e.push_str("    Red -> Green [ label = \"Advance\" ];\n");
        e.push_str("    Green -> Green [ label = \"PassCar\" ];\n");
        e.push_str("    Green -> Orange [ label = \"PassCar\" ];\n");
        e.push_str("}");
        e
    };
    assert_eq!(dot, expected);
}

#[test]
fn duplicate_edges_are_not_deduplicated() {
    // Traffic, [(Green, Advance) => Orange, (Green, Advance) => Orange]
    let toks = vec![
        id("Traffic"),
        Token::Comma,
        Token::LBracket,
        Token::LParen,
        id("Green"),
        Token::Comma,
        id("Advance"),
        Token::RParen,
        Token::FatArrow,
        id("Orange"),
        Token::Comma,
        Token::LParen,
        id("Green"),
        Token::Comma,
        id("Advance"),
        Token::RParen,
        Token::FatArrow,
        id("Orange"),
        Token::RBracket,
    ];
    let (_, _, dot) = transitions(&toks).ok().unwrap();
    let line = "    Green -> Orange [ label = \"Advance\" ];\n";
    let count = dot.matches(line).count();
    assert_eq!(count, 2);
}

#[test]
fn transitions_reject_error_as_start_state() {
    // Traffic, [(Error, Advance) => Green]
    let toks = vec![
        id("Traffic"),
        Token::Comma,
        Token::LBracket,
        Token::LParen,
        id("Error"),
        Token::Comma,
        id("Advance"),
        Token::RParen,
        Token::FatArrow,
        id("Green"),
        Token::RBracket,
    ];
    match transitions(&toks) {
        Err(BuildError::Semantic(SemanticError::ReservedState(s))) => {
            assert_eq!(s, "Error".to_string());
        },
        _ => panic!("Error may not be a start state"),
    }
}

#[test]
fn generic_parameters_are_merged_lifetimes_first() {
    // Lights, [
    //     (Green, PassCar<T, 'a>) => Orange,
    //     (Red, PassCar<'a, U>) => Green
    // ]
    let toks = vec![
        id("Lights"),
        Token::Comma,
        Token::LBracket,
        Token::LParen,
        id("Green"),
        Token::Comma,
        id("PassCar"),
        Token::Lt,
        id("T"),
        Token::Comma,
        Token::Lifetime("a".to_string()),
        Token::Gt,
        Token::RParen,
        Token::FatArrow,
        id("Orange"),
        Token::Comma,
        Token::LParen,
        id("Red"),
        Token::Comma,
        id("PassCar"),
        Token::Lt,
        Token::Lifetime("a".to_string()),
        Token::Comma,
        id("U"),
        Token::Gt,
        Token::RParen,
        Token::FatArrow,
        id("Green"),
        Token::RBracket,
    ];
    let (_, code, _) = transitions(&toks).ok().unwrap();
    // Both instantiations share the PassCar key; the gathered parameters are
    // emitted lifetimes first, in first-occurrence order within each group.
    assert!(code.contains("pub enum LightsMessages<'a, T, U> {"));
    assert!(code.contains("pub fn on_pass_car<'a, T, U>(self, input: PassCar<T, 'a>) -> Lights {"));
    // Both declarations land in the one dispatch method, in order.
    assert!(code.contains("Lights::Green(state) => Lights::Orange(state.on_pass_car(input)),"));
    assert!(code.contains("Lights::Red(state) => Lights::Green(state.on_pass_car(input)),"));
}

#[test]
fn check_transitions_names_the_unknown_state() {
    let toks = traffic_transitions_tokens();
    let t = Transitions::parse(&toks).ok().unwrap();
    let declared = vec!["Green".to_string(), "Orange".to_string()];
    match check_transitions(&declared, &t) {
        Err(SemanticError::UnknownState(s)) => assert_eq!(s, "Red".to_string()),
        _ => panic!("Red is not declared"),
    }
    let all = vec!["Green".to_string(), "Orange".to_string(), "Red".to_string()];
    assert!(check_transitions(&all, &t).is_ok());
}

#[test]
fn methods_generate_accessors_and_wrappers() {
    // Traffic, [
    //     Green => get count: u8,
    //     Green => set count: u8,
    //     Green, Orange, Red => default(false) fn working(&self) -> bool
    // ]
    let toks = vec![
        id("Traffic"),
        Token::Comma,
        Token::LBracket,
        id("Green"),
        Token::FatArrow,
        id("get"),
        id("count"),
        Token::Colon,
        id("u8"),
        Token::Comma,
        id("Green"),
        Token::FatArrow,
        id("set"),
        id("count"),
        Token::Colon,
        id("u8"),
        Token::Comma,
        id("Green"),
        Token::Comma,
        id("Orange"),
        Token::Comma,
        id("Red"),
        Token::FatArrow,
        id("default"),
        Token::LParen,
        id("false"),
        Token::RParen,
        id("fn"),
        id("working"),
        Token::LParen,
        Token::Amp,
        id("self"),
        Token::RParen,
        Token::RArrow,
        id("bool"),
        Token::RBracket,
    ];
    let (name, code) = methods(&toks).ok().unwrap();
    assert_eq!(name, "Traffic".to_string());
    let expected = {
        let mut e = String::new();
        e.push_str("impl Green {\n");
        e.push_str("    pub fn count(&self) -> &u8 {\n");
        e.push_str("        &self.count\n");
        e.push_str("    }\n\n");
        e.push_str("    pub fn count_mut(&mut self) -> &mut u8 {\n");
        e.push_str("        &mut self.count\n");
        e.push_str("    }\n\n");
        e.push_str("}\n\n");
        e.push_str("impl Orange {\n");
        e.push_str("}\n\n");
        e.push_str("impl Red {\n");
        e.push_str("}\n\n");
        e.push_str("impl Traffic {\n");
        e.push_str("    pub fn count(&self) -> Option<&u8> {\n");
        e.push_str("        match self {\n");
        e.push_str("            Traffic::Green(ref v) => Some(v.count()),\n");
        e.push_str("            _ => None,\n");
        e.push_str("        }\n");
        e.push_str("    }\n\n");
        e.push_str("    pub fn count_mut(&mut self) -> Option<&mut u8> {\n");
        e.push_str("        match self {\n");
        e.push_str("            Traffic::Green(ref mut v) => Some(v.count_mut()),\n");
        e.push_str("            _ => None,\n");
        e.push_str("        }\n");
        e.push_str("    }\n\n");
        e.push_str("    pub fn working(&self) -> bool {\n");
        e.push_str("        match self {\n");
        e.push_str("            Traffic::Green(ref v) => v.working(),\n");
        e.push_str("            Traffic::Orange(ref v) => v.working(),\n");
        e.push_str("            Traffic::Red(ref v) => v.working(),\n");
        e.push_str("            _ => false,\n");
        e.push_str("        }\n");
        e.push_str("    }\n\n");
        e.push_str("}\n");
        e
    };
    assert_eq!(code, expected);
}

#[test]
fn method_wrappers_without_default_yield_options() {
    // Lights, [Green => fn speed(&self, factor: u8) -> u8]
    let toks = vec![
        id("Lights"),
        Token::Comma,
        Token::LBracket,
        id("Green"),
        Token::FatArrow,
        id("fn"),
        id("speed"),
        Token::LParen,
        Token::Amp,
        id("self"),
        Token::Comma,
        id("factor"),
        Token::Colon,
        id("u8"),
        Token::RParen,
        Token::RArrow,
        id("u8"),
        Token::RBracket,
    ];
    let (_, code) = methods(&toks).ok().unwrap();
    assert!(code.contains("pub fn speed(&self, factor: u8) -> Option<u8> {"));
    assert!(code.contains("Lights::Green(ref v) => Some(v.speed(factor)),"));
    assert!(code.contains("            _ => None,\n"));
}

#[test]
fn method_default_clause_uses_std_default() {
    // Lights, [Green => default fn speed(&self) -> u8]
    let toks = vec![
        id("Lights"),
        Token::Comma,
        Token::LBracket,
        id("Green"),
        Token::FatArrow,
        id("default"),
        id("fn"),
        id("speed"),
        Token::LParen,
        Token::Amp,
        id("self"),
        Token::RParen,
        Token::RArrow,
        id("u8"),
        Token::RBracket,
    ];
    let (_, code) = methods(&toks).ok().unwrap();
    assert!(code.contains("pub fn speed(&self) -> u8 {"));
    assert!(code.contains("Lights::Green(ref v) => v.speed(),"));
    assert!(code.contains("            _ => std::default::Default::default(),\n"));
}

#[test]
fn method_shape_must_be_get_set_or_fn() {
    // Lights, [Green => take count: u8] : `take` is none of the shapes.
    let toks = vec![
        id("Lights"),
        Token::Comma,
        Token::LBracket,
        id("Green"),
        Token::FatArrow,
        id("take"),
        id("count"),
        Token::Colon,
        id("u8"),
        Token::RBracket,
    ];
    assert!(methods(&toks).is_err());
}

#[test]
fn is_default_reports_declared_defaults() {
    assert!(!DefaultValue::Absent.is_default());
    assert!(DefaultValue::Default.is_default());
    assert!(DefaultValue::Val("0".to_string()).is_default());
}

#[test]
fn parsers_preserve_names_and_order() {
    let toks = traffic_machine_tokens();
    let m = Machine::parse(&toks).ok().unwrap();
    assert_eq!(m.name, "Traffic".to_string());
    let names = m.state_names();
    assert_eq!(names, vec!["Green".to_string(), "Orange".to_string(), "Red".to_string()]);

    let ttoks = traffic_transitions_tokens();
    let t = Transitions::parse(&ttoks).ok().unwrap();
    assert_eq!(t.machine_name, "Traffic".to_string());
    assert_eq!(t.transitions.len(), 4);
    assert_eq!(t.transitions[3].end.len(), 2);

    let mtoks = vec![
        id("Traffic"),
        Token::Comma,
        Token::LBracket,
        id("Green"),
        Token::FatArrow,
        id("get"),
        id("count"),
        Token::Colon,
        id("u8"),
        Token::RBracket,
    ];
    let ms = Methods::parse(&mtoks).ok().unwrap();
    assert_eq!(ms.machine_name, "Traffic".to_string());
    assert_eq!(ms.methods.len(), 1);
}

#[test]
fn check_methods_names_the_unknown_state() {
    let toks = vec![
        id("Traffic"),
        Token::Comma,
        Token::LBracket,
        id("Green"),
        Token::Comma,
        id("Blue"),
        Token::FatArrow,
        id("get"),
        id("count"),
        Token::Colon,
        id("u8"),
        Token::RBracket,
    ];
    let ms = Methods::parse(&toks).ok().unwrap();
    let declared = vec!["Green".to_string(), "Orange".to_string()];
    match machine::methods::check_methods(&declared, &ms) {
        Err(SemanticError::UnknownState(s)) => assert_eq!(s, "Blue".to_string()),
        _ => panic!("Blue is not declared"),
    }
    let all = vec!["Green".to_string(), "Blue".to_string()];
    assert!(machine::methods::check_methods(&all, &ms).is_ok());
}

#[test]
fn constructor_names_are_snake_case() {
    // The PascalCase state name PassCar becomes the pass_car constructor:
    // the case conversion visibly rewrites the name.
    let toks = vec![
        id("enum"),
        id("Traffic"),
        Token::LBrace,
        id("PassCar"),
        Token::RBrace,
    ];
    let (_, code) = machine(&toks).ok().unwrap();
    assert!(code.contains("pub fn pass_car() -> Traffic {"));
    assert!(!code.contains("pub fn PassCar"));
}

#[test]
fn state_clause_can_declare_transitions_inline() {
    // enum Traffic { Green { count: u8 } => { (Green, Advance) => Orange }, Orange }
    let toks = vec![
        id("enum"),
        id("Traffic"),
        Token::LBrace,
        id("Green"),
        Token::LBrace,
        id("count"),
        Token::Colon,
        id("u8"),
        Token::RBrace,
        Token::FatArrow,
        Token::LBrace,
        Token::LParen,
        id("Green"),
        Token::Comma,
        id("Advance"),
        Token::RParen,
        Token::FatArrow,
        id("Orange"),
        Token::RBrace,
        Token::Comma,
        id("Orange"),
        Token::RBrace,
    ];
    let m = Machine::parse(&toks).ok().unwrap();
    assert_eq!(m.states.len(), 2);
    assert_eq!(m.transitions.len(), 1);
    let rules = m.transition_rules();
    let (name, code) = rules.generate();
    assert_eq!(name, "Traffic".to_string());
    assert!(code.contains("pub fn on_advance(self, input: Advance) -> Traffic {"));
    assert!(code.contains("Traffic::Green(state) => Traffic::Orange(state.on_advance(input)),"));
    let dot = rules.render_dot();
    assert!(dot.contains("    Green -> Orange [ label = \"Advance\" ];\n"));
}
