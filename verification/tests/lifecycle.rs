use sioctl::Control;
use sioctl::ControlRegistry;
use sioctl::Watcher;
use sioctl::polling::PollingLoop;
use sioctl::polling::WaitStep;
use sioctl::polling::classify_wait;

const EINTR: i32 = 4;
const POLLIN: i32 = 1;
const HANGUP: i32 = 0x10;

fn control(group: &str, name: &str, func: &str, value: u8) -> Control {
    Control {
        group: group.to_string(),
        name: name.to_string(),
        func: func.to_string(),
        value,
    }
}

#[test]
fn join_twice_shuts_down_once() {
    let mut w = Watcher::new();
    assert!(w.join(), "the first join performs the shutdown");
    assert!(!w.join(), "the second join does nothing");
    // a drop that joins once more still does nothing
    assert!(!w.join());
}

#[test]
fn wait_classification() {
    assert!(matches!(classify_wait(3, 0, EINTR), WaitStep::Ready));
    assert!(matches!(classify_wait(0, 0, EINTR), WaitStep::Ready));
    assert!(matches!(classify_wait(-1, EINTR, EINTR), WaitStep::Retry));
    assert!(matches!(classify_wait(-1, 9, EINTR), WaitStep::Fatal));
}

#[test]
fn cancel_descriptor_is_last_and_uncounted() {
    let p = PollingLoop::new(3);
    // the device library is handed 3 descriptors; the cancellation
    // descriptor sits in slot 3, the fourth of the 4 waited on
    assert_eq!(p.cancel_slot(), 3);
    assert_eq!(p.wait_count(), 4);
}

#[test]
fn cancellation_stops_without_delivering() {
    let mut p = PollingLoop::new(2);
    assert!(p.running());
    let deliver = p.on_wake(POLLIN, POLLIN);
    assert!(!deliver);
    assert!(!p.running());
}

#[test]
fn quiet_cancel_slot_keeps_delivering() {
    let mut p = PollingLoop::new(2);
    let deliver = p.on_wake(0, POLLIN);
    assert!(deliver);
    assert!(p.running());
    p.on_session_flags(0, HANGUP);
    assert!(p.running());
}

#[test]
fn session_hangup_stops_the_loop() {
    let mut p = PollingLoop::new(2);
    assert!(p.on_wake(0, POLLIN));
    p.on_session_flags(HANGUP, HANGUP);
    assert!(!p.running());
}

#[test]
fn open_watch_update_join_scenario() {
    // open: the device delivers the initial description burst
    let mut reg = ControlRegistry::new();
    reg.on_description(1, control("mixer", "vol", "level", 80));
    reg.on_description(2, control("mixer", "vol", "level", 64));

    // the snapshot holds exactly the two described controls
    let mut snap = reg.controls();
    assert_eq!(snap.len(), 2);
    snap.sort_by_key(|c| c.value);
    assert_eq!(snap[0].value, 64);
    assert_eq!(snap[1].value, 80);
    for c in &snap {
        assert_eq!(c.group, "mixer");
        assert_eq!(c.name, "vol");
        assert_eq!(c.func, "level");
    }

    // watch installed: the background loop starts
    let mut looper = PollingLoop::new(1);
    let mut watcher = Watcher::new();
    let mut callback_runs: Vec<u8> = Vec::new();

    // one value event for address 1 arrives through the loop
    assert!(looper.on_wake(0, POLLIN));
    if let Some(c) = reg.on_value(1, 90) {
        assert_eq!(c.group, "mixer");
        assert_eq!(c.name, "vol");
        assert_eq!(c.func, "level");
        assert_eq!(c.value, 90);
        callback_runs.push(c.value);
    }
    assert_eq!(callback_runs, vec![90], "the callback ran exactly once");
    looper.on_session_flags(0, HANGUP);

    // the new value is visible, the other control untouched
    let mut snap = reg.controls();
    snap.sort_by_key(|c| c.value);
    assert_eq!(snap[0].value, 64);
    assert_eq!(snap[1].value, 90);

    // join: cancellation wakes the loop, which stops without delivering
    assert!(watcher.join());
    assert!(!looper.on_wake(POLLIN, POLLIN));
    assert!(!looper.running());
    assert!(!watcher.join());
    // no further callbacks after join: the stopped loop delivers nothing,
    // so no value event reaches the registry
    assert_eq!(callback_runs, vec![90]);
}
