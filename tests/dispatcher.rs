use vdpm::event_dispatcher::{DispatchStep, EventDispatcher};
use vdpm::plugin::Plugin;
use vdpm::registry::Registry;
use vdpm::registry_snapshot::RegistrySnapshot;

fn registry_of(plugins: &[(&str, bool, bool)]) -> Registry {
    let mut r = Registry::new();
    for (name, enabled, installed) in plugins {
        r.insert(Plugin::new(name.to_string(), *enabled, *installed));
    }
    r
}

fn snapshot_of(plugins: &[(&str, bool, bool)]) -> RegistrySnapshot {
    RegistrySnapshot::new(registry_of(plugins))
}

fn run_text(step: &DispatchStep) -> Option<String> {
    match step {
        DispatchStep::Run(op) => Some(op.command.describe()),
        DispatchStep::Idle => None,
    }
}

#[test]
fn equal_fingerprints_run_nothing() {
    let first = snapshot_of(&[("a", true, true), ("b", false, true)]);
    let second = snapshot_of(&[("b", false, true), ("a", true, true)]);
    assert_eq!(first.hash(), second.hash());
    let first_hash = first.hash();
    let mut d = EventDispatcher::new(first);
    let step = d.receive(second);
    assert!(matches!(step, DispatchStep::Idle));
    assert!(!d.is_busy());
    assert_eq!(d.last_processed().hash(), first_hash);
}

#[test]
fn failed_first_operation_stops_the_batch() {
    let start = snapshot_of(&[("a", true, true), ("b", false, true)]);
    let start_hash = start.hash();
    let target = &[("b", true, true), ("c", true, true)];
    let mut d = EventDispatcher::new(start);

    let step = d.receive(snapshot_of(target));
    assert_eq!(run_text(&step).as_deref(), Some("uninstall a"));
    let step = d.report(false);
    assert!(matches!(step, DispatchStep::Idle));
    assert!(!d.is_busy());
    assert_eq!(d.last_processed().hash(), start_hash);

    // The next differing snapshot brings back the whole outstanding diff.
    let step = d.receive(snapshot_of(target));
    assert_eq!(run_text(&step).as_deref(), Some("uninstall a"));
    let step = d.report(true);
    assert_eq!(run_text(&step).as_deref(), Some("enable b"));
    let step = d.report(true);
    assert_eq!(run_text(&step).as_deref(), Some("install c"));
    let step = d.report(true);
    assert!(matches!(step, DispatchStep::Idle));
    assert_eq!(d.last_processed().hash(), snapshot_of(target).hash());
}

#[test]
fn failure_in_the_middle_keeps_the_last_snapshot() {
    let start = snapshot_of(&[("a", true, true)]);
    let start_hash = start.hash();
    let mut d = EventDispatcher::new(start);
    let step = d.receive(snapshot_of(&[("b", true, true), ("c", true, true)]));
    assert_eq!(run_text(&step).as_deref(), Some("uninstall a"));
    assert_eq!(run_text(&d.report(true)).as_deref(), Some("install b"));
    assert!(matches!(d.report(false), DispatchStep::Idle));
    assert_eq!(d.last_processed().hash(), start_hash);
}

#[test]
fn empty_batch_advances_at_once() {
    let start = snapshot_of(&[("a", true, true)]);
    let mut d = EventDispatcher::new(start);
    let changed = snapshot_of(&[("a", true, false)]);
    let changed_hash = changed.hash();
    assert!(matches!(d.receive(changed), DispatchStep::Idle));
    assert_eq!(d.last_processed().hash(), changed_hash);
}
