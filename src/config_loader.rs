//! The tool's settings, and the paths derived from them.

use vstd::prelude::*;
use vstd::string::StringExecFns;

verus! {

/// Where the tool keeps its files, each path relative to the home directory.
#[derive(Debug, Clone)]
pub struct Settings {
    /// The directory that holds the registry file.
    pub plugin_dir: String,
    /// The registry file's name, within `plugin_dir`.
    pub plugin_file: String,
    /// The directory that holds one file per installed plugin.
    pub plugin_folder: String,
    /// The startup script.
    pub rc_file: String,
    /// The directory for log files.
    pub logs_dir: String,
}

/// The tool's configuration.
#[derive(Debug, Clone)]
pub struct AppConfig {
    pub settings: Settings,
}

/// The text by which the settings are shown.
pub open spec fn settings_text(s: Settings) -> Seq<char> {
    "plugin_dir: "@ + s.plugin_dir@ + ", plugin_file: "@ + s.plugin_file@ + ", plugin_folder: "@
        + s.plugin_folder@ + ", rc_file: "@ + s.rc_file@ + ", logs_dir: "@ + s.logs_dir@
}

impl Settings {
    /// The settings as text, each field after its name.
    pub fn describe(&self) -> (r: String)
        ensures
            r@ == settings_text(*self),
    {
        let mut s = String::from_str("plugin_dir: ");
        s.append(self.plugin_dir.as_str());
        s.append(", plugin_file: ");
        s.append(self.plugin_file.as_str());
        s.append(", plugin_folder: ");
        s.append(self.plugin_folder.as_str());
        s.append(", rc_file: ");
        s.append(self.rc_file.as_str());
        s.append(", logs_dir: ");
        s.append(self.logs_dir.as_str());
        s
    }
}

impl AppConfig {
    /// The configuration as text: that of its settings.
    pub fn describe(&self) -> (r: String)
        ensures
            r@ == settings_text(self.settings),
    {
        self.settings.describe()
    }
}

/// `part` taken relative to `base`, as a Unix path: an absolute `part`
/// stands alone; otherwise a `'/'` separates the two unless `base` is empty
/// or already ends with one.
pub open spec fn path_join(base: Seq<char>, part: Seq<char>) -> Seq<char> {
    if part.len() > 0 && part[0] == '/' {
        part
    } else if base.len() == 0 || base.last() == '/' {
        base + part
    } else {
        base + "/"@ + part
    }
}

/// `part` taken relative to `base`.
pub fn join_path(base: &str, part: &str) -> (r: String)
    ensures
        r@ == path_join(base@, part@),
{
    let b = crate::text::chars_of(base);
    let p = crate::text::chars_of(part);
    if p.len() > 0 && p[0] == '/' {
        return String::from_str(part);
    }
    let mut joined = String::from_str(base);
    if b.len() > 0 && b[b.len() - 1] != '/' {
        joined.append("/");
    }
    joined.append(part);
    joined
}

/// The path of the registry file: `plugin_file` within `plugin_dir`, within
/// the home directory `home`.
pub fn get_plugin_manager_file_path(home: &str, settings: &Settings) -> (r: String)
    ensures
        r@ == path_join(path_join(home@, settings.plugin_dir@), settings.plugin_file@),
{
    let dir = join_path(home, settings.plugin_dir.as_str());
    join_path(dir.as_str(), settings.plugin_file.as_str())
}

} // verus!
