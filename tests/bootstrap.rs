use vdpm::bootstrap::{enabled_plugins, installed_plugin_names, plugin_name_of};
use vdpm::commands::Commands;
use vdpm::config_loader::{get_plugin_manager_file_path, join_path, AppConfig, Settings};
use vdpm::text::{name_less, same_text};

#[test]
fn import_lines_name_enabled_plugins() {
    let rc = "import os\nimport plugins.viz\nimport plugins.fmt\nfrom plugins import x\n";
    assert_eq!(enabled_plugins(rc), vec!["viz", "fmt"]);
}

#[test]
fn last_line_without_newline_counts() {
    assert_eq!(enabled_plugins("import plugins.tail"), vec!["tail"]);
    assert!(enabled_plugins("").is_empty());
    assert!(enabled_plugins(" import plugins.indented").is_empty());
}

#[test]
fn plugin_files_are_picked_by_extension() {
    assert_eq!(plugin_name_of("viz.py", "py"), Some("viz".to_string()));
    assert_eq!(plugin_name_of("a.b.py", "py"), Some("a.b".to_string()));
    assert_eq!(plugin_name_of(".py", "py"), None);
    assert_eq!(plugin_name_of("viz.pyc", "py"), None);
    assert_eq!(plugin_name_of("viz", "py"), None);
    let files = vec!["viz.py".to_string(), "notes.txt".to_string(), "fmt.py".to_string()];
    assert_eq!(installed_plugin_names(&files, "py"), vec!["viz", "fmt"]);
}

#[test]
fn registry_file_path_joins_home_dir_and_file() {
    let settings = Settings {
        plugin_dir: ".vdpm".to_string(),
        plugin_file: "plugins.csv".to_string(),
        plugin_folder: ".visidata/plugins".to_string(),
        rc_file: ".visidatarc".to_string(),
        logs_dir: ".vdpm/logs".to_string(),
    };
    assert_eq!(get_plugin_manager_file_path("/home/u", &settings), "/home/u/.vdpm/plugins.csv");
    assert_eq!(get_plugin_manager_file_path("/home/u/", &settings), "/home/u/.vdpm/plugins.csv");
    assert_eq!(join_path("/home/u", "/etc/x"), "/etc/x");
    assert_eq!(join_path("", "rel"), "rel");
    assert_eq!(
        settings.describe(),
        "plugin_dir: .vdpm, plugin_file: plugins.csv, plugin_folder: .visidata/plugins, rc_file: .visidatarc, logs_dir: .vdpm/logs"
    );
    let config = AppConfig { settings };
    assert!(config.describe().starts_with("plugin_dir: .vdpm"));
}

#[test]
fn commands_are_shown_by_verb_and_name() {
    assert_eq!(Commands::Enable { name: "x".to_string() }.describe(), "enable x");
    assert_eq!(Commands::Uninstall { name: "y".to_string() }.describe(), "uninstall y");
    assert_eq!(Commands::List.describe(), "list");
    assert_eq!(Commands::Interactive.describe(), "interactive");
}

#[test]
fn names_are_ordered_by_code_point() {
    assert!(name_less("a", "b"));
    assert!(name_less("ab", "abc"));
    assert!(!name_less("abc", "ab"));
    assert!(!name_less("x", "x"));
    assert!(name_less("", "a"));
    assert!(name_less("Z", "a"));
    assert!(same_text("ok", "ok"));
    assert!(!same_text("ok", "oK"));
}
