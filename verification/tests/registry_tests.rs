use pesh::{DynamicRegistry, Metric, RegError};

fn m(name: &str, tags: &[(&str, &str)]) -> Metric {
    Metric {
        name: name.to_string(),
        tags: tags.iter().map(|(k, v)| (k.to_string(), v.to_string())).collect(),
    }
}

fn bits(v: f64) -> u64 {
    v.to_bits()
}

fn val(r: Result<u64, RegError>) -> f64 {
    f64::from_bits(r.expect("expected a value"))
}

#[test]
fn round_trip_set_get() {
    let mut reg = DynamicRegistry::new();
    let id = m("rtone", &[("a", "1")]);
    reg.add(&id, bits(5.25)).unwrap();
    assert_eq!(val(reg.get(&id)), 5.25);
}

#[test]
fn overwrite_keeps_last_value() {
    let mut reg = DynamicRegistry::new();
    let id = m("rtlast", &[]);
    reg.add(&id, bits(1.0)).unwrap();
    reg.add(&id, bits(2.5)).unwrap();
    assert_eq!(val(reg.get(&id)), 2.5);
}

#[test]
fn duplicate_tag_key_later_wins() {
    let mut reg = DynamicRegistry::new();
    reg.add(&m("rtdup", &[("a", "1"), ("a", "2")]), bits(4.0)).unwrap();
    assert_eq!(val(reg.get(&m("rtdup", &[("a", "2")]))), 4.0);
}

#[test]
fn label_set_freeze() {
    let mut reg = DynamicRegistry::new();
    reg.add(&m("frz", &[("a", "1")]), bits(5.0)).unwrap();
    // the second add's key set is ignored: `b` is no frozen label, and the
    // missing `a` defaults to "", so this writes the ("") series
    reg.add(&m("frz", &[("b", "2")]), bits(7.0)).unwrap();
    assert_eq!(val(reg.get(&m("frz", &[("a", "1")]))), 5.0);
    assert_eq!(val(reg.get(&m("frz", &[("b", "2")]))), 7.0);
    assert_eq!(val(reg.get(&m("frz", &[]))), 7.0);
    assert_eq!(val(reg.get(&m("frz", &[("a", "")]))), 7.0);
}

#[test]
fn missing_series_resolves_to_zero() {
    let mut reg = DynamicRegistry::new();
    reg.add(&m("zero", &[("a", "1")]), bits(3.0)).unwrap();
    assert_eq!(val(reg.get(&m("zero", &[("a", "other")]))), 0.0);
}

#[test]
fn delete_empties_unregisters() {
    let mut reg = DynamicRegistry::new();
    let id = m("dele", &[("x", "1")]);
    reg.add(&id, bits(1.0)).unwrap();
    reg.remove(&id).unwrap();
    assert_eq!(reg.get(&id), Err(RegError::NotFound));
    // the name is free again on the exposition surface
    reg.add(&id, bits(2.0)).unwrap();
    assert_eq!(val(reg.get(&id)), 2.0);
}

#[test]
fn delete_partial_retains() {
    let mut reg = DynamicRegistry::new();
    reg.add(&m("part", &[("a", "1")]), bits(1.0)).unwrap();
    reg.add(&m("part", &[("a", "2")]), bits(2.0)).unwrap();
    reg.remove(&m("part", &[("a", "1")])).unwrap();
    assert_eq!(val(reg.get(&m("part", &[("a", "2")]))), 2.0);
    // the removed series now answers the default
    assert_eq!(val(reg.get(&m("part", &[("a", "1")]))), 0.0);
}

#[test]
fn remove_unknown_name_is_noop() {
    let mut reg = DynamicRegistry::new();
    assert_eq!(reg.remove(&m("ghostname", &[])), Ok(()));
}

#[test]
fn get_unknown_name_fails() {
    let reg = DynamicRegistry::new();
    assert_eq!(reg.get(&m("missingname", &[])), Err(RegError::NotFound));
}

#[test]
fn registration_conflict_propagates() {
    // occupy the name on the exposition surface from outside the registry
    let outside = prometheus::Gauge::new("clashname", "held elsewhere").unwrap();
    prometheus::default_registry()
        .register(Box::new(outside))
        .unwrap();
    let mut reg = DynamicRegistry::new();
    let id = m("clashname", &[]);
    assert_eq!(reg.add(&id, bits(1.0)), Err(RegError::Registration));
    // the failed add left no trace
    assert_eq!(reg.get(&id), Err(RegError::NotFound));
}

#[test]
fn series_removal_failure_leaves_state() {
    let mut reg = DynamicRegistry::new();
    reg.add(&m("srf", &[("a", "1")]), bits(1.0)).unwrap();
    // the family holds no series at the resolved tuple ("2"): a lookup
    // error, and nothing changes
    assert_eq!(reg.remove(&m("srf", &[("a", "2")])), Err(RegError::SeriesRemoval));
    assert_eq!(val(reg.get(&m("srf", &[("a", "1")]))), 1.0);
}

#[test]
fn unregistration_failure_after_removal() {
    let mut reg = DynamicRegistry::new();
    let id = m("unregone", &[("a", "1")]);
    reg.add(&id, bits(1.0)).unwrap();
    // the surface drops the family out of band
    let gauge = reg.gauge_of(&"unregone".to_string()).unwrap().vec.clone();
    prometheus::default_registry()
        .unregister(Box::new(gauge))
        .unwrap();
    // registry-side removal happens, the surface's refusal is reported
    assert_eq!(reg.remove(&id), Err(RegError::Unregistration));
    assert_eq!(reg.get(&id), Err(RegError::NotFound));
}

#[test]
fn gauge_mirror_carries_series() {
    // the registry creates the series on the exposition gauge; the host
    // process sets its value through the same handle
    let mut reg = DynamicRegistry::new();
    reg.add(&m("mirrored", &[("a", "1")]), bits(8.5)).unwrap();
    let handle = reg.gauge_of(&"mirrored".to_string()).unwrap();
    let child = handle.vec.with_label_values(&["1"]);
    assert_eq!(child.get(), 0.0);
    child.set(8.5);
    assert_eq!(handle.vec.with_label_values(&["1"]).get(), 8.5);
}
