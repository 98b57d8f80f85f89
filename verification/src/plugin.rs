//! Plugin metadata and the built-in welcome plugin.
use vstd::prelude::*;
use crate::text::{owned, views};

verus! {

/// Plugin metadata shown by shell builtins.
#[derive(Debug, Clone, Copy, PartialEq, Eq)]
pub struct PluginInfo<'a> {
    pub name: &'a str,
    pub description: &'a str,
}

/// A plugin of the shell: a named handler of commands.
pub trait Plugin {
    /// The plugin's name as text.
    spec fn name_text(&self) -> Seq<char>;

    /// The plugin's description as text.
    spec fn description_text(&self) -> Seq<char>;

    /// The plugin's name.
    fn name(&self) -> (r: &str)
        ensures
            r@ == self.name_text(),
    ;

    /// What preparing the plugin answers: success, or the error's text.
    spec fn init_outcome(&self) -> Result<(), Seq<char>>;

    /// Prepares the plugin for use; an error keeps it from being loaded.
    /// A plugin keeps its name and description.
    fn init(&mut self) -> (r: Result<(), String>)
        ensures
            match (r, old(self).init_outcome()) {
                (Ok(_), Ok(_)) => true,
                (Err(e), Err(f)) => e@ == f,
                _ => false,
            },
            final(self).name_text() == old(self).name_text(),
            final(self).description_text() == old(self).description_text(),
    ;

    /// Handles a command: the lines it prints when it handles it, `None`
    /// when the command is not its own.
    fn execute(&self, args: &[String]) -> (r: Option<Vec<String>>);

    /// The plugin's description.
    fn description(&self) -> (r: &str)
        ensures
            r@ == self.description_text(),
    ;
}

/// The metadata a plugin list shows for each plugin.
pub open spec fn plugin_infos<P: Plugin>(plugins: Seq<P>) -> Seq<(Seq<char>, Seq<char>)> {
    plugins.map_values(|p: P| (p.name_text(), p.description_text()))
}

/// The plugins loaded in the shell, in the order they were added.
pub struct PluginManager<P: Plugin> {
    plugins: Vec<P>,
}

impl<P: Plugin> PluginManager<P> {
    /// The metadata of the loaded plugins, in order.
    pub closed spec fn infos(&self) -> Seq<(Seq<char>, Seq<char>)> {
        plugin_infos(self.plugins@)
    }

    /// A manager with no plugin.
    pub fn new() -> (r: Self)
        ensures
            r.infos() == Seq::<(Seq<char>, Seq<char>)>::empty(),
    {
        let r = PluginManager { plugins: Vec::new() };
        assert(r.infos() =~= Seq::<(Seq<char>, Seq<char>)>::empty());
        r
    }

    /// Initializes a plugin and, when that succeeds, adds it after the
    /// others; when it fails, its error is returned and nothing is added.
    pub fn add_plugin(&mut self, plugin: P) -> (r: Result<(), String>)
        ensures
            match (r, plugin.init_outcome()) {
                (Ok(_), Ok(_)) => true,
                (Err(e), Err(f)) => e@ == f,
                _ => false,
            },
            r is Ok ==> final(self).infos() == old(self).infos().push(
                (plugin.name_text(), plugin.description_text()),
            ),
            r is Err ==> final(self).infos() == old(self).infos(),
    {
        let ghost old_name = plugin.name_text();
        let ghost old_description = plugin.description_text();
        let mut plugin = plugin;
        match plugin.init() {
            Ok(()) => {},
            Err(e) => {
                return Err(e);
            },
        }
        let ghost before = self.plugins@;
        self.plugins.push(plugin);
        assert forall|k: int| 0 <= k < before.len() implies #[trigger] plugin_infos(self.plugins@)[k]
            == plugin_infos(before)[k] by {
            assert(self.plugins@[k] == before[k]);
        }
        assert(plugin_infos(self.plugins@) =~= plugin_infos(before).push(
            (old_name, old_description),
        ));
        Ok(())
    }

    /// The name and description of each loaded plugin, in order.
    pub fn list_plugins(&self) -> (r: Vec<PluginInfo<'_>>)
        ensures
            r@.len() == self.infos().len(),
            forall|i: int|
                0 <= i < r@.len() ==> (#[trigger] r@[i]).name@ == self.infos()[i].0
                    && r@[i].description@ == self.infos()[i].1,
    {
        let mut out: Vec<PluginInfo<'_>> = Vec::new();
        let mut i: usize = 0;
        while i < self.plugins.len()
            invariant
                i <= self.plugins@.len(),
                out@.len() == i,
                forall|k: int|
                    0 <= k < i ==> (#[trigger] out@[k]).name@ == self.infos()[k].0
                        && out@[k].description@ == self.infos()[k].1,
            decreases self.plugins.len() - i,
        {
            let p = &self.plugins[i];
            out.push(PluginInfo { name: p.name(), description: p.description() });
            i += 1;
        }
        out
    }

    /// The number of loaded plugins.
    pub fn plugin_count(&self) -> (r: usize)
        ensures
            r == self.infos().len(),
    {
        self.plugins.len()
    }
}

/// What the `plugin` builtin prints: `list` names every loaded plugin with
/// its description (or says none is loaded), `load NAME` reports that
/// loading is not there yet, anything else shows the subcommands.
pub open spec fn plugin_command_output(infos: Seq<(Seq<char>, Seq<char>)>, args: Seq<Seq<char>>) -> Seq<
    Seq<char>,
> {
    if args.len() == 0 {
        seq!["Plugin commands: list, load"@]
    } else if args[0] == "list"@ {
        seq!["Loaded plugins:"@] + infos.map_values(
            |i: (Seq<char>, Seq<char>)| "  - "@ + i.0 + ": "@ + i.1,
        ) + if infos.len() == 0 {
            seq!["  (No plugins loaded)"@]
        } else {
            Seq::empty()
        }
    } else if args[0] == "load"@ {
        if args.len() > 1 {
            seq!["Plugin '"@ + args[1] + "' not found (not implemented yet)"@]
        } else {
            Seq::empty()
        }
    } else {
        seq!["Plugin commands: list, load"@]
    }
}

impl<P: Plugin> PluginManager<P> {
    /// The lines the `plugin` builtin prints.
    pub fn handle_plugin_command(&self, args: &[String]) -> (r: Vec<String>)
        ensures
            views(r@) == plugin_command_output(self.infos(), views(args@)),
    {
        let mut out: Vec<String> = Vec::new();
        if args.len() == 0 {
            out.push(owned("Plugin commands: list, load"));
            assert(views(out@) =~= plugin_command_output(self.infos(), views(args@)));
            return out;
        }
        if crate::text::str_eq(args[0].as_str(), "list") {
            out.push(owned("Loaded plugins:"));
            let ghost shown = self.infos().map_values(
                |i: (Seq<char>, Seq<char>)| "  - "@ + i.0 + ": "@ + i.1,
            );
            let mut i: usize = 0;
            while i < self.plugins.len()
                invariant
                    i <= self.plugins@.len(),
                    shown == self.infos().map_values(
                        |i: (Seq<char>, Seq<char>)| "  - "@ + i.0 + ": "@ + i.1,
                    ),
                    views(out@) == seq!["Loaded plugins:"@] + shown.subrange(0, i as int),
                decreases self.plugins.len() - i,
            {
                let p = &self.plugins[i];
                let line = owned("  - ").concat(p.name()).concat(": ").concat(p.description());
                let ghost before = views(out@);
                out.push(line);
                assert(views(out@) =~= before.push(line@));
                assert(shown.subrange(0, i + 1) =~= shown.subrange(0, i as int).push(shown[i as int]));
                i += 1;
            }
            assert(shown.subrange(0, i as int) =~= shown);
            if self.plugins.len() == 0 {
                let ghost before = views(out@);
                out.push(owned("  (No plugins loaded)"));
                assert(views(out@) =~= before + seq!["  (No plugins loaded)"@]);
            } else {
                assert(views(out@) =~= views(out@) + Seq::<Seq<char>>::empty());
            }
            return out;
        }
        if crate::text::str_eq(args[0].as_str(), "load") {
            if args.len() > 1 {
                out.push(owned("Plugin '").concat(args[1].as_str()).concat("' not found (not implemented yet)"));
            }
            assert(views(out@) =~= plugin_command_output(self.infos(), views(args@)));
            return out;
        }
        out.push(owned("Plugin commands: list, load"));
        assert(views(out@) =~= plugin_command_output(self.infos(), views(args@)));
        out
    }
}

impl<P: Plugin> Default for PluginManager<P> {
    /// A manager with no plugin.
    fn default() -> (r: Self)
        ensures
            r.infos() == Seq::<(Seq<char>, Seq<char>)>::empty(),
    {
        Self::new()
    }
}

/// The welcome plugin: `welcome` prints a greeting.
#[derive(Debug)]
pub struct WelcomePlugin;

/// The greeting the welcome plugin prints.
pub open spec fn welcome_text() -> Seq<Seq<char>> {
    seq![
        "Welcome to WinSH MVP6!"@,
        "Type 'help' for available commands."@,
        "Type 'plugin list' to see loaded plugins."@,
    ]
}

impl Plugin for WelcomePlugin {
    open spec fn name_text(&self) -> Seq<char> {
        "welcome"@
    }

    open spec fn description_text(&self) -> Seq<char> {
        "Welcome message plugin"@
    }

    open spec fn init_outcome(&self) -> Result<(), Seq<char>> {
        Ok(())
    }

    fn name(&self) -> (r: &str) {
        "welcome"
    }

    /// Initializes the plugin; it needs nothing.
    fn init(&mut self) -> (r: Result<(), String>)
        ensures
            r is Ok,
    {
        Ok(())
    }

    /// Handles a command: `welcome` is handled by printing the greeting
    /// (the lines returned); any other command is not handled (`None`).
    fn execute(&self, args: &[String]) -> (r: Option<Vec<String>>)
        ensures
            args@.len() > 0 && args@[0]@ == "welcome"@ ==> r is Some && views(r->0@)
                == welcome_text(),
            !(args@.len() > 0 && args@[0]@ == "welcome"@) ==> r is None,
    {
        if args.len() > 0 && crate::text::str_eq(args[0].as_str(), "welcome") {
            let mut lines: Vec<String> = Vec::new();
            lines.push(owned("Welcome to WinSH MVP6!"));
            lines.push(owned("Type 'help' for available commands."));
            lines.push(owned("Type 'plugin list' to see loaded plugins."));
            assert(views(lines@) =~= welcome_text());
            Some(lines)
        } else {
            None
        }
    }

    fn description(&self) -> (r: &str) {
        "Welcome message plugin"
    }
}

impl WelcomePlugin {
    /// The plugin's metadata.
    pub fn info(&self) -> (r: PluginInfo<'static>)
        ensures
            r.name@ == "welcome"@,
            r.description@ == "Welcome message plugin"@,
    {
        PluginInfo { name: "welcome", description: "Welcome message plugin" }
    }
}


} // verus!
