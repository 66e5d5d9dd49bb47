use machine::dynamic_machine::{Arm, DynamicMachine, StateValue};

fn green(count: u64) -> StateValue {
    StateValue::new("Green".to_string(), vec![count])
}

fn orange() -> StateValue {
    StateValue::new("Orange".to_string(), vec![])
}

fn red() -> StateValue {
    StateValue::new("Red".to_string(), vec![])
}

fn error() -> StateValue {
    StateValue::new("Error".to_string(), vec![])
}

fn on_advance(m: &mut DynamicMachine) -> Option<()> {
    let arms = vec![
        Arm { pattern: "Green".to_string(), target: orange() },
        Arm { pattern: "Orange".to_string(), target: red() },
        Arm { pattern: "Red".to_string(), target: green(0) },
    ];
    m.unit_event("Advance", &arms)
}

fn on_pass_car(m: &mut DynamicMachine, count: u64) -> Option<()> {
    let cur = m.current_state();
    let outcome = if cur.name.as_str() == "Green" {
        let total = cur.data[0] + count;
        if total >= 10 {
            orange()
        } else {
            green(total)
        }
    } else {
        error()
    };
    let patterns = vec!["Green".to_string()];
    if m.computed_event("PassCar", &patterns, &outcome) {
        Some(())
    } else {
        None
    }
}

#[test]
fn dynamic_traffic_light_test() {
    let mut t = DynamicMachine::new(green(0), error(), vec![]);
    on_pass_car(&mut t, 1).unwrap();
    on_pass_car(&mut t, 2).unwrap();
    assert_eq!(t.current_state(), green(3));
    on_advance(&mut t).unwrap();
    assert_eq!(t.current_state(), orange());

    on_advance(&mut t).unwrap();
    assert_eq!(t.current_state(), red());

    on_advance(&mut t).unwrap();
    assert_eq!(t.current_state(), green(0));
    on_pass_car(&mut t, 5).unwrap();
    assert_eq!(t.current_state(), green(5));
    on_pass_car(&mut t, 7).unwrap();
    assert_eq!(t.current_state(), orange());
    on_advance(&mut t).unwrap();
    assert_eq!(t.current_state(), red());
}

#[test]
fn traffic_light_test() {
    let mut t = DynamicMachine::new(green(0), error(), vec![]);
    on_pass_car(&mut t, 1);
    on_pass_car(&mut t, 2);
    assert_eq!(t.current_state(), green(3));
    t_advance(&mut t);
    assert_eq!(t.current_state(), orange());

    t_advance(&mut t);
    assert_eq!(t.current_state(), red());

    t_advance(&mut t);
    assert_eq!(t.current_state(), green(0));
    on_pass_car(&mut t, 5);
    assert_eq!(t.current_state(), green(5));
    on_pass_car(&mut t, 7);
    assert_eq!(t.current_state(), orange());
    t_advance(&mut t);
    assert_eq!(t.current_state(), red());
    on_pass_car(&mut t, 7);
    assert_eq!(t.current_state(), error());
    t_advance(&mut t);
    assert_eq!(t.current_state(), error());
}

fn t_advance(m: &mut DynamicMachine) {
    on_advance(m);
}

#[test]
fn error_state_is_absorbing() {
    let mut t = DynamicMachine::new(green(0), error(), vec![]);
    on_pass_car(&mut t, 12);
    assert_eq!(t.current_state(), orange());
    assert!(!t.is_invalid());
    // PassCar is not accepted outside Green: the machine falls into the
    // error state and stays there for every later event.
    assert!(on_pass_car(&mut t, 1).is_none());
    assert!(t.is_invalid());
    assert_eq!(t.current_state(), error());
    on_advance(&mut t);
    assert!(t.is_invalid());
    on_pass_car(&mut t, 3);
    assert!(t.is_invalid());
    assert_eq!(t.current_state(), error());
}

#[test]
fn dispatch_is_total_in_every_state() {
    // Every declared state, the error state included, accepts every event
    // without a crash: the result is a defined state value.
    let states = vec![green(4), orange(), red(), error()];
    for st in states {
        let mut m = DynamicMachine::new(st, error(), vec![]);
        on_advance(&mut m);
        let after_advance = m.current_state();
        assert!(!after_advance.name.is_empty());
        on_pass_car(&mut m, 1);
        let after_pass = m.current_state();
        assert!(!after_pass.name.is_empty());
    }
}

#[test]
fn fallback_to_error_from_uncovered_state() {
    // The Advance arms cover only {Green, Orange, Red}: dispatching it in
    // any other state yields the error state.
    let blinking = StateValue::new("BlinkingOrange".to_string(), vec![]);
    let mut m = DynamicMachine::new(blinking, error(), vec![]);
    assert!(on_advance(&mut m).is_none());
    assert_eq!(m.current_state(), error());
}
