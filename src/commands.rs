//! The lifecycle commands that the tool understands.

use vstd::prelude::*;
use vstd::string::StringExecFns;

verus! {

/// A command: list the plugins, act on one plugin, or run the interactive
/// session.
#[derive(Debug, Clone)]
pub enum Commands {
    List,
    Enable { name: String },
    Disable { name: String },
    Install { name: String },
    Uninstall { name: String },
    Interactive,
}

/// The mathematical value of a [`Commands`].
pub ghost enum CommandView {
    List,
    Enable { name: Seq<char> },
    Disable { name: Seq<char> },
    Install { name: Seq<char> },
    Uninstall { name: Seq<char> },
    Interactive,
}

impl View for Commands {
    type V = CommandView;

    open spec fn view(&self) -> CommandView {
        match self {
            Commands::List => CommandView::List,
            Commands::Enable { name } => CommandView::Enable { name: name@ },
            Commands::Disable { name } => CommandView::Disable { name: name@ },
            Commands::Install { name } => CommandView::Install { name: name@ },
            Commands::Uninstall { name } => CommandView::Uninstall { name: name@ },
            Commands::Interactive => CommandView::Interactive,
        }
    }
}

/// The text by which a command is shown: its verb, then the plugin's name.
pub open spec fn command_text(c: CommandView) -> Seq<char> {
    match c {
        CommandView::List => "list"@,
        CommandView::Enable { name } => "enable "@ + name,
        CommandView::Disable { name } => "disable "@ + name,
        CommandView::Install { name } => "install "@ + name,
        CommandView::Uninstall { name } => "uninstall "@ + name,
        CommandView::Interactive => "interactive"@,
    }
}

impl Commands {
    /// A copy of this command, field for field.
    pub fn duplicate(&self) -> (r: Commands)
        ensures
            r@ == self@,
    {
        match self {
            Commands::List => Commands::List,
            Commands::Enable { name } => Commands::Enable { name: name.clone() },
            Commands::Disable { name } => Commands::Disable { name: name.clone() },
            Commands::Install { name } => Commands::Install { name: name.clone() },
            Commands::Uninstall { name } => Commands::Uninstall { name: name.clone() },
            Commands::Interactive => Commands::Interactive,
        }
    }

    /// The command as text, such as `enable foo`.
    pub fn describe(&self) -> (r: String)
        ensures
            r@ == command_text(self@),
    {
        match self {
            Commands::List => String::from_str("list"),
            Commands::Enable { name } => {
                let mut s = String::from_str("enable ");
                s.append(name.as_str());
                s
            },
            Commands::Disable { name } => {
                let mut s = String::from_str("disable ");
                s.append(name.as_str());
                s
            },
            Commands::Install { name } => {
                let mut s = String::from_str("install ");
                s.append(name.as_str());
                s
            },
            Commands::Uninstall { name } => {
                let mut s = String::from_str("uninstall ");
                s.append(name.as_str());
                s
            },
            Commands::Interactive => String::from_str("interactive"),
        }
    }
}

} // verus!
