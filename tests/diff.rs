use std::collections::BTreeMap;

use vdpm::commands::Commands;
use vdpm::diff::{generate_operations, PluginOperation};
use vdpm::plugin::Plugin;
use vdpm::registry::Registry;

fn registry_of(plugins: &[(&str, bool, bool)]) -> Registry {
    let mut r = Registry::new();
    for (name, enabled, installed) in plugins {
        r.insert(Plugin::new(name.to_string(), *enabled, *installed));
    }
    r
}

fn texts(ops: &[PluginOperation]) -> Vec<String> {
    ops.iter().map(|o| o.command.describe()).collect()
}

type State = BTreeMap<String, (bool, bool)>;

fn state_of(r: &Registry) -> State {
    r.plugins().iter().map(|p| (p.name.clone(), (p.enabled, p.installed))).collect()
}

fn apply(mut state: State, ops: &[PluginOperation]) -> State {
    for op in ops {
        match &op.command {
            Commands::Install { name } => {
                state.insert(name.clone(), (op.plugin.enabled, op.plugin.installed));
            }
            Commands::Uninstall { name } => {
                state.remove(name);
            }
            Commands::Enable { name } => {
                state.get_mut(name).unwrap().0 = true;
            }
            Commands::Disable { name } => {
                state.get_mut(name).unwrap().0 = false;
            }
            _ => {}
        }
    }
    state
}

#[test]
fn removed_plugin_is_uninstalled() {
    let old = registry_of(&[("A", true, true)]);
    let new = registry_of(&[]);
    let ops = generate_operations(&old, &new);
    assert_eq!(texts(&ops), vec!["uninstall A"]);
    assert!(matches!(&ops[0].command, Commands::Uninstall { name } if name == "A"));
    assert_eq!(ops[0].plugin.name, "A");
}

#[test]
fn added_plugin_is_installed() {
    let old = registry_of(&[]);
    let new = registry_of(&[("B", true, true)]);
    let ops = generate_operations(&old, &new);
    assert_eq!(texts(&ops), vec!["install B"]);
    assert!(matches!(&ops[0].command, Commands::Install { name } if name == "B"));
    assert!(ops[0].plugin.enabled);
}

#[test]
fn switched_on_plugin_is_only_enabled() {
    let old = registry_of(&[("C", false, true)]);
    let new = registry_of(&[("C", true, true)]);
    let ops = generate_operations(&old, &new);
    assert_eq!(ops.len(), 1);
    assert!(matches!(&ops[0].command, Commands::Enable { name } if name == "C"));
}

#[test]
fn switched_off_plugin_is_disabled() {
    let old = registry_of(&[("C", true, true)]);
    let new = registry_of(&[("C", false, true)]);
    assert_eq!(texts(&generate_operations(&old, &new)), vec!["disable C"]);
}

#[test]
fn diff_of_a_registry_with_itself_is_empty() {
    let r = registry_of(&[("a", true, true), ("b", false, true), ("c", true, false)]);
    assert!(generate_operations(&r, &r).is_empty());
    let empty = registry_of(&[]);
    assert!(generate_operations(&empty, &empty).is_empty());
}

#[test]
fn installed_flag_change_alone_yields_nothing() {
    let old = registry_of(&[("a", true, true)]);
    let new = registry_of(&[("a", true, false)]);
    assert!(generate_operations(&old, &new).is_empty());
}

#[test]
fn batch_order_is_old_pass_then_installs_by_name() {
    let old = registry_of(&[("zeta", true, true), ("beta", false, true), ("alpha", true, true)]);
    let new = registry_of(&[("beta", true, true), ("delta", false, true), ("alpha", false, true), ("gamma", true, true)]);
    assert_eq!(
        texts(&generate_operations(&old, &new)),
        vec!["disable alpha", "enable beta", "uninstall zeta", "install delta", "install gamma"]
    );
}

#[test]
fn applying_the_diff_yields_the_new_state() {
    let old = registry_of(&[("a", true, true), ("b", false, true), ("c", true, true)]);
    let new = registry_of(&[("b", true, true), ("c", true, true), ("d", false, true)]);
    let ops = generate_operations(&old, &new);
    assert_eq!(apply(state_of(&old), &ops), state_of(&new));
}
