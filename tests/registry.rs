use vdpm::plugin::Plugin;
use vdpm::registry::Registry;
use vdpm::registry_snapshot::{canonical_text_of, fingerprint_of, RegistrySnapshot};
use vdpm::utils::hash;

#[test]
fn plugins_are_kept_in_name_order() {
    let mut r = Registry::new();
    r.insert(Plugin::new("pear".to_string(), true, true));
    r.insert(Plugin::new("apple".to_string(), false, true));
    r.insert(Plugin::new("fig".to_string(), true, false));
    let names: Vec<&str> = r.plugins().iter().map(|p| p.name.as_str()).collect();
    assert_eq!(names, vec!["apple", "fig", "pear"]);
    assert_eq!(r.len(), 3);
}

#[test]
fn insert_replaces_the_plugin_of_the_same_name() {
    let mut r = Registry::new();
    r.insert(Plugin::new("a".to_string(), false, true));
    r.insert(Plugin::new("a".to_string(), true, false));
    assert_eq!(r.len(), 1);
    let p = r.get(&"a".to_string()).unwrap();
    assert!(p.enabled);
    assert!(!p.installed);
    assert!(r.get(&"b".to_string()).is_none());
    assert!(r.contains(&"a".to_string()));
}

#[test]
fn fingerprint_ignores_insertion_order() {
    let mut x = Registry::new();
    x.insert(Plugin::new("one".to_string(), true, true));
    x.insert(Plugin::new("two".to_string(), false, true));
    x.insert(Plugin::new("three".to_string(), true, false));
    let mut y = Registry::new();
    y.insert(Plugin::new("three".to_string(), true, false));
    y.insert(Plugin::new("one".to_string(), true, true));
    y.insert(Plugin::new("two".to_string(), false, true));
    assert_eq!(fingerprint_of(&x), fingerprint_of(&y));
    assert_eq!(RegistrySnapshot::new(x).hash(), RegistrySnapshot::new(y).hash());
}

#[test]
fn canonical_text_lists_plugins_by_name() {
    let mut r = Registry::new();
    r.insert(Plugin::new("b".to_string(), false, true));
    r.insert(Plugin::new("a".to_string(), true, true));
    assert_eq!(canonical_text_of(&r), "a,true,true\nb,false,true\n");
    assert_eq!(fingerprint_of(&r), hash("a,true,true\nb,false,true\n"));
    assert_eq!(canonical_text_of(&Registry::new()), "");
}

#[test]
fn fingerprint_tells_flags_apart() {
    let mut x = Registry::new();
    x.insert(Plugin::new("a".to_string(), true, true));
    let mut y = Registry::new();
    y.insert(Plugin::new("a".to_string(), false, true));
    assert_ne!(fingerprint_of(&x), fingerprint_of(&y));
}

#[test]
fn generate_marks_imported_plugins_enabled() {
    let installed = vec!["viz".to_string(), "fmt".to_string(), "viz".to_string()];
    let rc = "import os\nimport plugins.viz\n# import plugins.fmt\n";
    let r = Registry::generate(&installed, rc);
    assert_eq!(r.len(), 2);
    let viz = r.get(&"viz".to_string()).unwrap();
    assert!(viz.enabled && viz.installed);
    let fmt = r.get(&"fmt".to_string()).unwrap();
    assert!(!fmt.enabled && fmt.installed);
}

#[test]
fn generate_includes_enabled_plugins_without_a_file() {
    let r = Registry::generate(&vec!["viz".to_string()], "import plugins.ghost\nimport plugins.viz");
    assert_eq!(r.len(), 2);
    let ghost = r.get(&"ghost".to_string()).unwrap();
    assert!(ghost.enabled && ghost.installed);
    let viz = r.get(&"viz".to_string()).unwrap();
    assert!(viz.enabled && viz.installed);
}

#[test]
fn generate_on_nothing_is_empty() {
    assert_eq!(Registry::generate(&vec![], "").len(), 0);
}
