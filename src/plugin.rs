//! A single plugin and its lifecycle flags.

use vstd::prelude::*;

verus! {

/// A named plugin: whether its file is present and whether the startup
/// script loads it.
#[derive(Debug, Clone)]
pub struct Plugin {
    pub name: String,
    pub enabled: bool,
    pub installed: bool,
}

/// The mathematical value of a [`Plugin`].
pub ghost struct PluginView {
    pub name: Seq<char>,
    pub enabled: bool,
    pub installed: bool,
}

/// The text of one flag.
pub open spec fn flag_text(b: bool) -> Seq<char> {
    if b {
        "true"@
    } else {
        "false"@
    }
}

impl View for Plugin {
    type V = PluginView;

    open spec fn view(&self) -> PluginView {
        PluginView { name: self.name@, enabled: self.enabled, installed: self.installed }
    }
}

impl Plugin {
    /// A plugin with the given name and flags.
    pub fn new(name: String, enabled: bool, installed: bool) -> (r: Plugin)
        ensures
            r@ == (PluginView { name: name@, enabled, installed }),
    {
        Plugin { name, enabled, installed }
    }

    /// A copy of this plugin, field for field.
    pub fn duplicate(&self) -> (r: Plugin)
        ensures
            r@ == self@,
    {
        Plugin { name: self.name.clone(), enabled: self.enabled, installed: self.installed }
    }
}

} // verus!
