use sioctl::Control;
use sioctl::ControlRegistry;

fn control(group: &str, name: &str, func: &str, value: u8) -> Control {
    Control {
        group: group.to_string(),
        name: name.to_string(),
        func: func.to_string(),
        value,
    }
}

fn assert_control(c: &Control, group: &str, name: &str, func: &str, value: u8) {
    assert_eq!(c.group, group);
    assert_eq!(c.name, name);
    assert_eq!(c.func, func);
    assert_eq!(c.value, value);
}

fn value_of(reg: &ControlRegistry, name: &str) -> u8 {
    let snap = reg.controls();
    let found: Vec<&Control> = snap.iter().filter(|c| c.name == name).collect();
    assert_eq!(found.len(), 1);
    found[0].value
}

#[test]
fn empty_registry() {
    let reg = ControlRegistry::new();
    assert_eq!(reg.len(), 0);
    assert!(reg.controls().is_empty());
}

#[test]
fn description_inserts() {
    let mut reg = ControlRegistry::new();
    reg.on_description(1, control("mixer", "vol", "level", 80));
    reg.on_description(2, control("mixer", "mute", "switch", 0));
    assert_eq!(reg.len(), 2);
    let mut snap = reg.controls();
    assert_eq!(snap.len(), 2);
    snap.sort_by(|a, b| a.name.cmp(&b.name));
    assert_control(&snap[0], "mixer", "mute", "switch", 0);
    assert_control(&snap[1], "mixer", "vol", "level", 80);
}

#[test]
fn redescription_replaces_whole_record() {
    let mut reg = ControlRegistry::new();
    reg.on_description(1, control("mixer", "vol", "level", 80));
    reg.on_description(1, control("output", "gain", "level", 12));
    assert_eq!(reg.len(), 1);
    let snap = reg.controls();
    assert_control(&snap[0], "output", "gain", "level", 12);
}

#[test]
fn value_event_updates_only_the_value() {
    let mut reg = ControlRegistry::new();
    reg.on_description(1, control("mixer", "vol", "level", 80));
    let delivered = reg.on_value(1, 90).expect("described address must deliver");
    assert_control(&delivered, "mixer", "vol", "level", 90);
    assert_eq!(reg.len(), 1);
    let snap = reg.controls();
    assert_control(&snap[0], "mixer", "vol", "level", 90);
}

#[test]
fn unknown_address_is_a_noop() {
    let mut reg = ControlRegistry::new();
    reg.on_description(1, control("mixer", "vol", "level", 80));
    assert!(reg.on_value(99, 5).is_none());
    assert_eq!(reg.len(), 1);
    let snap = reg.controls();
    assert_control(&snap[0], "mixer", "vol", "level", 80);
}

#[test]
fn value_event_on_empty_registry() {
    let mut reg = ControlRegistry::new();
    assert!(reg.on_value(1, 1).is_none());
    assert_eq!(reg.len(), 0);
}

#[test]
fn last_value_per_address_wins() {
    let mut reg = ControlRegistry::new();
    reg.on_description(1, control("mixer", "vol", "level", 80));
    reg.on_description(2, control("mixer", "mute", "switch", 1));
    reg.on_value(1, 10);
    reg.on_value(2, 0);
    reg.on_value(1, 30);
    assert_eq!(reg.len(), 2);
    assert_eq!(value_of(&reg, "vol"), 30);
    assert_eq!(value_of(&reg, "mute"), 0);
}

#[test]
fn one_delivery_per_value_event_and_never_stale() {
    let mut reg = ControlRegistry::new();
    reg.on_description(7, control("app", "music", "level", 50));
    let values = [60u8, 61, 62];
    let mut seen: Vec<u8> = Vec::new();
    for v in values {
        if let Some(c) = reg.on_value(7, v) {
            // the delivered record is the fully updated one
            assert_eq!(c.value, v);
            assert_eq!(c.name, "music");
            seen.push(c.value);
        }
    }
    // exactly one delivery per event, in order
    assert_eq!(seen, vec![60, 61, 62]);
    assert_eq!(value_of(&reg, "music"), 62);
}

#[test]
fn snapshots_are_copies() {
    let mut reg = ControlRegistry::new();
    reg.on_description(1, control("mixer", "vol", "level", 80));
    let before = reg.controls();
    reg.on_value(1, 90);
    // the earlier snapshot still shows the committed state of its time
    assert_control(&before[0], "mixer", "vol", "level", 80);
    let after = reg.controls();
    assert_control(&after[0], "mixer", "vol", "level", 90);
}

#[test]
fn duplicate_copies_every_field() {
    let c = control("mixer", "vol", "level", 80);
    let d = c.duplicate();
    assert_control(&d, "mixer", "vol", "level", 80);
    let r = c.replaced(90);
    assert_control(&r, "mixer", "vol", "level", 90);
    // the original is untouched
    assert_control(&c, "mixer", "vol", "level", 80);
}
