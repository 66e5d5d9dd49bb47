use machine::dynamic_machine::{DynamicMachine, StateValue};
use machine::text::u64_to_string;

#[derive(PartialEq, Eq, Debug)]
pub enum Parsed {
    X(u64),
    Y,
    Z,
}

fn st_a() -> StateValue {
    StateValue::new("A".to_string(), vec![])
}

fn st_b(i: u64) -> StateValue {
    StateValue::new("B".to_string(), vec![i])
}

fn st_c(i: u64) -> StateValue {
    StateValue::new("C".to_string(), vec![i])
}

fn st_err() -> StateValue {
    StateValue::new("Error".to_string(), vec![])
}

pub fn parse(arg: u64) -> (StateValue, Parsed) {
    if arg > 10 {
        (st_b(arg), Parsed::X(arg))
    } else {
        (st_err(), Parsed::Y)
    }
}

// event[tr] { A => B(0), B(i) => C(i + 1) }
fn tr(m: &mut DynamicMachine) -> Option<()> {
    let cur = m.current_state();
    let outcome = match cur.name.as_str() {
        "A" => st_b(0),
        "B" => st_c(cur.data[0] + 1),
        _ => st_err(),
    };
    let patterns = vec!["A".to_string(), "B".to_string()];
    if m.computed_event("tr", &patterns, &outcome) {
        Some(())
    } else {
        None
    }
}

// event[tr2] { C(_) => A, A => C(42) }
fn tr2(m: &mut DynamicMachine) -> Option<()> {
    let cur = m.current_state();
    let outcome = match cur.name.as_str() {
        "C" => st_a(),
        "A" => st_c(42),
        _ => st_err(),
    };
    let patterns = vec!["C".to_string(), "A".to_string()];
    if m.computed_event("tr2", &patterns, &outcome) {
        Some(())
    } else {
        None
    }
}

// event[tr3(arg1: u8) -> Option<u8> : None] {
//     A => (B(arg1), Some(42)), B(i) => (C(i + 1), Some(i + 1)) }
fn tr3(m: &mut DynamicMachine, arg1: u64) -> Option<u64> {
    let cur = m.current_state();
    let (outcome, result) = match cur.name.as_str() {
        "A" => (st_b(arg1), Some(42)),
        "B" => (st_c(cur.data[0] + 1), Some(cur.data[0] + 1)),
        _ => (st_err(), None),
    };
    let patterns = vec!["A".to_string(), "B".to_string()];
    if m.computed_event("tr3", &patterns, &outcome) {
        result
    } else {
        None
    }
}

// event[tr4(arg1: u8) -> Parsed : Parsed::Z] {
//     A => parse(arg1), B(i) => parse(i + 1) }
fn tr4(m: &mut DynamicMachine, arg1: u64) -> Parsed {
    let cur = m.current_state();
    let (outcome, result) = match cur.name.as_str() {
        "A" => parse(arg1),
        "B" => parse(cur.data[0] + 1),
        _ => (st_err(), Parsed::Z),
    };
    let patterns = vec!["A".to_string(), "B".to_string()];
    if m.computed_event("tr4", &patterns, &outcome) {
        result
    } else {
        Parsed::Z
    }
}

#[test]
fn a() {
    let mut m = DynamicMachine::new(st_a(), st_err(), vec![]);
    println!("0: state: {:?}", m.current_state());
    let mut res = tr(&mut m);
    println!("1: state({:?}): {:?}", res, m.current_state());
    assert_eq!(m.current_state(), st_b(0));
    res = tr(&mut m);
    println!("2: state({:?}): {:?}", res, m.current_state());
    assert_eq!(m.current_state(), st_c(1));
    res = tr2(&mut m);
    println!("3: state({:?}): {:?}", res, m.current_state());
    assert_eq!(m.current_state(), st_a());
    let res2 = tr3(&mut m, 12);
    println!("4: state({:?}): {:?}", res2, m.current_state());
    assert_eq!(res2, Some(42));
    assert_eq!(m.current_state(), st_b(12));
    let mut res3 = tr4(&mut m, 1);
    println!("5: state({:?}): {:?}", res3, m.current_state());
    assert_eq!(res3, Parsed::X(13));
    res3 = tr4(&mut m, 1);
    println!("6: state({:?}): {:?}", res3, m.current_state());
    assert_eq!(res3, Parsed::X(14));
    res = tr2(&mut m);
    println!("7: state({:?}): {:?}", res, m.current_state());
    assert_eq!(res, None);
    if m.is_invalid() {
        println!("had an invalid transition");
    }
    assert!(m.is_invalid());
    tr(&mut m);
    tr2(&mut m);
    assert!(m.is_invalid());
    println!("trace: {}", m.print_trace());
    m.reset(vec![]);
    println!("8: state: {:?}", m.current_state());
    assert_eq!(m.current_state(), st_a());
    assert!(!m.is_invalid());
}

#[test]
fn trace_begins_with_initial_state_and_logs_each_event() {
    let green = StateValue::new("Green".to_string(), vec![0]);
    let mut m = DynamicMachine::new(green, st_err(), vec![]);
    assert_eq!(m.print_trace(), "Green".to_string());

    let orange = StateValue::new("Orange".to_string(), vec![]);
    let pats = vec!["Green".to_string()];
    assert!(m.computed_event("Advance", &pats, &orange));
    assert_eq!(m.print_trace(), "Green =( Advance )=> Orange".to_string());

    // An unmatched event is logged too, naming the error state it produced.
    assert!(!m.computed_event("PassCar", &pats, &orange));
    assert_eq!(
        m.print_trace(),
        "Green =( Advance )=> Orange =( PassCar )=> Error".to_string(),
    );

    // reset truncates the trace back to the seed entry.
    m.reset(vec![]);
    assert_eq!(m.print_trace(), "Green".to_string());
}

#[test]
fn trace_renders_state_payloads() {
    let start = StateValue::new("B".to_string(), vec![1, 2]);
    let mut m = DynamicMachine::new(st_a(), st_err(), vec![]);
    let pats = vec!["A".to_string()];
    assert!(m.computed_event("go", &pats, &start));
    assert_eq!(m.print_trace(), "A =( go )=> B(1, 2)".to_string());
}

#[test]
fn attributes_are_kept_and_overwritten_on_reset() {
    let mut m = DynamicMachine::new(st_a(), st_err(), vec![7, 9]);
    assert_eq!(m.attributes().clone(), vec![7, 9]);
    m.reset(vec![1]);
    assert_eq!(m.attributes().clone(), vec![1]);
}

#[test]
fn decimal_rendering_is_exact() {
    assert_eq!(u64_to_string(0), "0".to_string());
    assert_eq!(u64_to_string(42), "42".to_string());
    assert_eq!(u64_to_string(10), "10".to_string());
    assert_eq!(u64_to_string(18446744073709551615), "18446744073709551615".to_string());
}
