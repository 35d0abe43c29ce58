use gadgets::cells::{Counter, CounterRules, CounterStep, MaxCell};
use gadgets::effect::Effect;
use gadgets::engine::BasicGadget;
use gadgets::extension::{SemanticExtension, TappingExtension};
use gadgets::gadget::Gadget;

fn changed(e: &Effect) -> Option<String> {
    match e {
        Effect::Changed(s) => Some(s.clone()),
        _ => None,
    }
}

#[test]
fn maxcell_tracks_the_maximum() {
    let mut m = MaxCell::new(0);
    let inputs = [3, -2, 9, 9, 4, 11, 0];
    for v in inputs {
        m.receive(v);
    }
    assert_eq!(m.current(), 11);
    let mut n = MaxCell::new(20);
    for v in inputs {
        n.receive(v);
    }
    assert_eq!(n.current(), 20);
    let mut low = MaxCell::new(i32::MIN);
    low.receive(i32::MIN);
    assert_eq!(low.current(), i32::MIN);
}

#[test]
fn counter_nets_commands_since_reset() {
    let mut c = Counter::new();
    for cmd in ["increment", "increment", "other", "decrement", "increment"] {
        c.receive(cmd.to_string());
    }
    assert_eq!(c.current(), 2);
    for cmd in ["reset", "decrement", "decrement", "bogus", "increment"] {
        c.receive(cmd.to_string());
    }
    assert_eq!(c.current(), -1);
}

#[test]
fn counter_wraps_at_the_ends() {
    let mut c = Counter::new();
    c.update(i32::MAX);
    c.receive("increment".to_string());
    assert_eq!(c.current(), i32::MIN);
    c.receive("decrement".to_string());
    assert_eq!(c.current(), i32::MAX);
}

#[test]
fn update_with_current_changes_nothing() {
    let mut c = Counter::new();
    c.receive("increment".to_string());
    let s = c.current();
    c.update(s);
    assert_eq!(c.current(), 1);
    let mut m = MaxCell::new(6);
    let s = m.current();
    m.update(s);
    assert_eq!(m.current(), 6);
    m.update(2);
    assert_eq!(m.current(), 2);
}

fn engine_counter() -> BasicGadget<i32, String, CounterRules, CounterStep, TappingExtension> {
    BasicGadget::new(
        0,
        CounterRules,
        vec![
            ("increment".to_string(), CounterStep::Increment),
            ("decrement".to_string(), CounterStep::Decrement),
            ("reset".to_string(), CounterStep::Reset),
        ],
    )
}

#[test]
fn engine_runs_named_actions() {
    let mut g = engine_counter();
    g.receive("increment".to_string());
    g.receive("increment".to_string());
    g.receive("nothing".to_string());
    g.receive("decrement".to_string());
    assert_eq!(g.current(), 1);
    let seen: Vec<Option<String>> = g.emitted().iter().map(changed).collect();
    assert_eq!(
        seen,
        vec![Some("1".to_string()), Some("2".to_string()), Some("1".to_string())]
    );
    g.receive("reset".to_string());
    assert_eq!(g.current(), 0);
}

#[test]
fn engine_missing_action_is_a_noop() {
    let mut g: BasicGadget<i32, String, CounterRules, CounterStep, TappingExtension> =
        BasicGadget::new(5, CounterRules, vec![("reset".to_string(), CounterStep::Reset)]);
    g.receive("increment".to_string());
    assert_eq!(g.current(), 5);
    assert!(g.emitted().is_empty());
    g.receive("reset".to_string());
    assert_eq!(g.current(), 0);
}

#[test]
fn engine_last_registration_wins() {
    let mut g: BasicGadget<i32, String, CounterRules, CounterStep, TappingExtension> =
        BasicGadget::new(
            0,
            CounterRules,
            vec![
                ("increment".to_string(), CounterStep::Decrement),
                ("increment".to_string(), CounterStep::Increment),
            ],
        );
    g.receive("increment".to_string());
    assert_eq!(g.current(), 1);
}

#[test]
fn taps_see_effects_in_order_and_revocation_stops_them() {
    let mut first = TappingExtension::new();
    let h1 = first.tap();
    let h2 = first.tap();
    let mut second = TappingExtension::new();
    let h3 = second.tap();
    let mut g = engine_counter();
    g.add_extension(first);
    g.add_extension(second);
    g.receive("increment".to_string());
    g.receive("increment".to_string());
    let exts = g.extensions();
    let got = |t: &TappingExtension, h| -> Vec<Option<String>> {
        t.observed(h).unwrap().iter().map(changed).collect()
    };
    let two = vec![Some("1".to_string()), Some("2".to_string())];
    assert_eq!(got(&exts[0], &h1), two);
    assert_eq!(got(&exts[0], &h2), two);
    assert_eq!(got(&exts[1], &h3), two);
    let seen: Vec<Option<String>> = g.emitted().iter().map(changed).collect();
    assert_eq!(seen, two);
}

#[test]
fn revoked_tap_sees_nothing_more() {
    let mut t = TappingExtension::new();
    let a = t.tap();
    let b = t.tap();
    let e1 = SemanticExtension::<String>::wrap_emit(&mut t, Effect::Changed("1".to_string()));
    assert_eq!(changed(&e1), Some("1".to_string()));
    t.untap(&a);
    assert!(t.observed(&a).is_none());
    SemanticExtension::<String>::wrap_emit(&mut t, Effect::Noop);
    assert_eq!(t.observed(&b).unwrap().len(), 2);
    t.untap(&a);
    assert_eq!(t.observed(&b).unwrap().len(), 2);
    let c = t.tap();
    SemanticExtension::<String>::wrap_emit(&mut t, Effect::Custom("k".to_string(), "v".to_string()));
    assert_eq!(t.observed(&c).unwrap().len(), 1);
    assert_eq!(t.observed(&b).unwrap().len(), 3);
}

#[test]
fn tapping_passes_data_through() {
    let t = TappingExtension::new();
    let d: i32 = SemanticExtension::<i32>::wrap_receive(&t, 17);
    assert_eq!(d, 17);
}

#[test]
fn sample_units_emit_their_effects() {
    let mut m = MaxCell::new(1);
    m.receive(4);
    m.receive(2);
    let seen: Vec<Option<String>> = m.emitted().iter().map(changed).collect();
    assert_eq!(seen, vec![Some("4".to_string()), None]);
    assert!(matches!(m.emitted()[1], Effect::Noop));
    let mut c = Counter::new();
    c.receive("decrement".to_string());
    c.receive("what".to_string());
    c.receive("reset".to_string());
    let seen: Vec<Option<String>> = c.emitted().iter().map(changed).collect();
    assert_eq!(seen, vec![Some("-1".to_string()), None, Some("0".to_string())]);
    c.update(8);
    assert_eq!(c.emitted().len(), 3);
}
