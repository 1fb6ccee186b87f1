use vdpm::error::RegistryError;
use vdpm::plugin::Plugin;
use vdpm::registry::Registry;
use vdpm::watcher::{snapshot_from_csv, wants_reload, FileChange};

fn rows(v: &[&[&str]]) -> Vec<Vec<String>> {
    v.iter().map(|r| r.iter().map(|f| f.to_string()).collect()).collect()
}

#[test]
fn registry_is_written_as_csv_with_header() {
    let mut r = Registry::new();
    r.insert(Plugin::new("zed".to_string(), false, true));
    r.insert(Plugin::new("alpha".to_string(), true, true));
    let bytes = r.to_csv();
    assert_eq!(
        String::from_utf8(bytes).unwrap(),
        "name,enabled,installed\nalpha,true,true\nzed,false,true\n"
    );
}

#[test]
fn names_with_commas_are_quoted() {
    let mut r = Registry::new();
    r.insert(Plugin::new("a,b".to_string(), true, true));
    let bytes = r.to_csv();
    assert_eq!(String::from_utf8(bytes.clone()).unwrap(), "name,enabled,installed\n\"a,b\",true,true\n");
    let back = Registry::from_csv(&bytes).unwrap();
    assert!(back.contains(&"a,b".to_string()));
}

#[test]
fn csv_round_trip_keeps_plugins() {
    let mut r = Registry::new();
    r.insert(Plugin::new("one".to_string(), true, false));
    r.insert(Plugin::new("two".to_string(), false, true));
    let back = Registry::from_csv(&r.to_csv()).unwrap();
    assert_eq!(back.len(), 2);
    let one = back.get(&"one".to_string()).unwrap();
    assert!(one.enabled && !one.installed);
    let two = back.get(&"two".to_string()).unwrap();
    assert!(!two.enabled && two.installed);
}

#[test]
fn columns_are_found_by_header_label() {
    let text = "installed,extra,name,enabled\ntrue,x,foo,false\n";
    let r = Registry::from_csv(text.as_bytes()).unwrap();
    let foo = r.get(&"foo".to_string()).unwrap();
    assert!(!foo.enabled && foo.installed);
}

#[test]
fn later_row_replaces_earlier_one() {
    let r = Registry::from_records(&rows(&[
        &["name", "enabled", "installed"],
        &["a", "true", "true"],
        &["a", "false", "true"],
    ]))
    .unwrap();
    assert_eq!(r.len(), 1);
    assert!(!r.get(&"a".to_string()).unwrap().enabled);
}

#[test]
fn empty_file_has_no_header() {
    assert_eq!(Registry::from_csv(b"").err(), Some(RegistryError::MissingHeader));
    assert_eq!(Registry::from_records(&vec![]).err(), Some(RegistryError::MissingHeader));
}

#[test]
fn header_only_gives_empty_registry() {
    let r = Registry::from_csv(b"name,enabled,installed\n").unwrap();
    assert_eq!(r.len(), 0);
}

#[test]
fn missing_column_is_rejected() {
    let e = Registry::from_csv(b"name,enabled\nfoo,true\n").err();
    assert_eq!(e, Some(RegistryError::MissingColumn));
}

#[test]
fn short_row_is_rejected() {
    let e = Registry::from_records(&rows(&[&["name", "enabled", "installed"], &["foo", "true"]])).err();
    assert_eq!(e, Some(RegistryError::ShortRow));
}

#[test]
fn invalid_flag_is_rejected() {
    let e = Registry::from_csv(b"name,enabled,installed\nfoo,yes,true\n").err();
    assert_eq!(e, Some(RegistryError::InvalidFlag));
}

#[test]
fn unequal_row_lengths_are_malformed() {
    let e = Registry::from_csv(b"name,enabled,installed\nfoo,true\n").err();
    assert_eq!(e, Some(RegistryError::MalformedCsv));
}

#[test]
fn invalid_utf8_is_malformed() {
    let e = Registry::from_csv(b"name,enabled,installed\n\xff,true,true\n").err();
    assert_eq!(e, Some(RegistryError::MalformedCsv));
}

#[test]
fn only_content_writes_call_for_reload() {
    assert!(wants_reload(FileChange::DataModified));
    assert!(!wants_reload(FileChange::MetadataModified));
    assert!(!wants_reload(FileChange::Accessed));
    assert!(!wants_reload(FileChange::Other));
}

#[test]
fn snapshot_from_csv_carries_the_fingerprint() {
    let s = snapshot_from_csv(b"name,enabled,installed\nb,true,true\na,false,true\n").unwrap();
    let mut r = Registry::new();
    r.insert(Plugin::new("a".to_string(), false, true));
    r.insert(Plugin::new("b".to_string(), true, true));
    assert_eq!(s.hash(), vdpm::registry_snapshot::fingerprint_of(&r));
    assert_eq!(s.registry().len(), 2);
    assert_eq!(snapshot_from_csv(b"name\n").err(), Some(RegistryError::MissingColumn));
}
