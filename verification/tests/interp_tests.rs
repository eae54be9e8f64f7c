use pesh::{execute, DynamicRegistry, Metric, Op, Outcome, RegError};

fn m(name: &str, tags: &[(&str, &str)]) -> Metric {
    Metric {
        name: name.to_string(),
        tags: tags.iter().map(|(k, v)| (k.to_string(), v.to_string())).collect(),
    }
}

#[test]
fn empty_line_does_nothing() {
    let mut reg = DynamicRegistry::new();
    let r = execute(&Op::Empty, &mut reg);
    assert!(matches!(r, Outcome::Quiet));
    assert!(matches!(
        execute(&Op::GetCmd { metric: m("interpempty", &[]) }, &mut reg),
        Outcome::Warn(RegError::NotFound)
    ));
}

#[test]
fn exit_is_a_control_outcome() {
    let mut reg = DynamicRegistry::new();
    assert!(matches!(execute(&Op::ExitCmd, &mut reg), Outcome::Quit));
}

#[test]
fn help_returns_text() {
    let mut reg = DynamicRegistry::new();
    match execute(&Op::HelpCmd, &mut reg) {
        Outcome::Text(t) => {
            assert!(t.contains("set"));
            assert!(t.contains("quit"));
        }
        _ => panic!("help must answer text"),
    }
}

#[test]
fn set_then_get_through_interpreter() {
    let mut reg = DynamicRegistry::new();
    let b = (6.5f64).to_bits();
    assert!(matches!(
        execute(&Op::SetCmd { metric: m("interprt", &[("a", "1")]), bits: b }, &mut reg),
        Outcome::Quiet
    ));
    match execute(&Op::GetCmd { metric: m("interprt", &[("a", "1")]) }, &mut reg) {
        Outcome::Value(v) => assert_eq!(f64::from_bits(v), 6.5),
        _ => panic!("expected a value"),
    }
}

#[test]
fn delete_unknown_series_warns() {
    let mut reg = DynamicRegistry::new();
    let b = (1.0f64).to_bits();
    assert!(matches!(
        execute(&Op::SetCmd { metric: m("interpmiss", &[("a", "1")]), bits: b }, &mut reg),
        Outcome::Quiet
    ));
    assert!(matches!(
        execute(&Op::DelCmd { metric: m("interpmiss", &[("a", "2")]) }, &mut reg),
        Outcome::Warn(RegError::SeriesRemoval)
    ));
    // the stored series is untouched
    assert!(matches!(
        execute(&Op::GetCmd { metric: m("interpmiss", &[("a", "1")]) }, &mut reg),
        Outcome::Value(_)
    ));
}

#[test]
fn delete_through_interpreter() {
    let mut reg = DynamicRegistry::new();
    let b = (1.0f64).to_bits();
    assert!(matches!(
        execute(&Op::SetCmd { metric: m("interpdel", &[]), bits: b }, &mut reg),
        Outcome::Quiet
    ));
    assert!(matches!(
        execute(&Op::DelCmd { metric: m("interpdel", &[]) }, &mut reg),
        Outcome::Quiet
    ));
    assert!(matches!(
        execute(&Op::GetCmd { metric: m("interpdel", &[]) }, &mut reg),
        Outcome::Warn(RegError::NotFound)
    ));
}
