//! The plugin registry: a collection of plugins keyed by name.
//!
//! The plugins are held in a vector kept strictly sorted by name, so that
//! names are unique and two registries with the same contents hold them in
//! the same order. That canonical order is what makes the fingerprint of a
//! registry independent of the order in which its plugins were added.

use vstd::prelude::*;

use crate::bootstrap::{enabled_names, enabled_plugins};
use crate::plugin::{Plugin, PluginView};
use crate::text::{
    lemma_precedes_irreflexive, lemma_precedes_total, lemma_precedes_transitive, name_less,
    name_precedes,
};

verus! {

/// Every name precedes the names after it.
pub open spec fn sorted_by_name(s: Seq<PluginView>) -> bool {
    forall|i: int, j: int|
        0 <= i < j < s.len() ==> name_precedes(#[trigger] s[i].name, #[trigger] s[j].name)
}

/// The map from name to plugin that a sequence of plugins describes; a later
/// entry overrides an earlier one of the same name.
pub open spec fn map_of(s: Seq<PluginView>) -> Map<Seq<char>, PluginView>
    decreases s.len(),
{
    if s.len() == 0 {
        Map::empty()
    } else {
        map_of(s.drop_last()).insert(s.last().name, s.last())
    }
}

/// In a sorted sequence the names are distinct.
pub proof fn lemma_sorted_distinct(s: Seq<PluginView>, i: int, j: int)
    requires
        sorted_by_name(s),
        0 <= i < s.len(),
        0 <= j < s.len(),
        i != j,
    ensures
        s[i].name != s[j].name,
{
    if i < j {
        assert(name_precedes(s[i].name, s[j].name));
        lemma_precedes_irreflexive(s[i].name);
    } else {
        assert(name_precedes(s[j].name, s[i].name));
        lemma_precedes_irreflexive(s[j].name);
    }
}

/// What the map of a sorted sequence holds: each entry under its name, and
/// nothing else.
pub proof fn lemma_map_of(s: Seq<PluginView>)
    requires
        sorted_by_name(s),
    ensures
        forall|j: int|
            0 <= j < s.len() ==> map_of(s).contains_key(#[trigger] s[j].name) && map_of(s)[s[j].name]
                == s[j],
        forall|k: Seq<char>|
            #[trigger] map_of(s).contains_key(k) ==> exists|j: int| 0 <= j < s.len() && s[j].name == k,
        map_of(s).dom().finite(),
    decreases s.len(),
{
    if s.len() > 0 {
        let t = s.drop_last();
        assert(sorted_by_name(t));
        lemma_map_of(t);
        assert forall|j: int| 0 <= j < s.len() implies map_of(s).contains_key(#[trigger] s[j].name)
            && map_of(s)[s[j].name] == s[j] by {
            if j < s.len() - 1 {
                lemma_sorted_distinct(s, j, s.len() - 1);
                assert(t[j] == s[j]);
            }
        }
        assert forall|k: Seq<char>| #[trigger] map_of(s).contains_key(k) implies exists|j: int|
            0 <= j < s.len() && s[j].name == k by {
            if k != s.last().name {
                let j = choose|j: int| 0 <= j < t.len() && t[j].name == k;
                assert(s[j] == t[j]);
            } else {
                assert(s[s.len() - 1].name == k);
            }
        }
    }
}

/// Two sorted sequences that describe the same map are the same sequence.
pub proof fn lemma_sorted_unique(s: Seq<PluginView>, t: Seq<PluginView>)
    requires
        sorted_by_name(s),
        sorted_by_name(t),
        map_of(s) == map_of(t),
    ensures
        s == t,
    decreases s.len(),
{
    lemma_map_of(s);
    lemma_map_of(t);
    if s.len() == 0 {
        if t.len() > 0 {
            assert(map_of(t).contains_key(t[0].name));
        }
        assert(s =~= t);
    } else if t.len() == 0 {
        assert(map_of(s).contains_key(s[0].name));
    } else {
        let a = s.last();
        let b = t.last();
        assert(map_of(s).contains_key(s[s.len() - 1].name));
        assert(map_of(t).contains_key(t[t.len() - 1].name));
        if a.name != b.name {
            let j = choose|j: int| 0 <= j < t.len() && t[j].name == a.name;
            let i = choose|i: int| 0 <= i < s.len() && s[i].name == b.name;
            assert(name_precedes(t[j].name, t[t.len() - 1].name));
            assert(name_precedes(s[i].name, s[s.len() - 1].name));
            lemma_precedes_transitive(a.name, b.name, a.name);
            lemma_precedes_irreflexive(a.name);
        }
        assert(a == b) by {
            assert(map_of(s)[s[s.len() - 1].name] == s[s.len() - 1]);
            assert(map_of(t)[t[t.len() - 1].name] == t[t.len() - 1]);
        }
        lemma_map_of_drop_last(s);
        lemma_map_of_drop_last(t);
        assert(sorted_by_name(s.drop_last()));
        assert(sorted_by_name(t.drop_last()));
        lemma_sorted_unique(s.drop_last(), t.drop_last());
        assert(s =~= s.drop_last().push(a));
        assert(t =~= t.drop_last().push(b));
    }
}

/// A sorted sequence has as many entries as its map has names.
pub proof fn lemma_map_of_len(s: Seq<PluginView>)
    requires
        sorted_by_name(s),
    ensures
        map_of(s).len() == s.len(),
    decreases s.len(),
{
    if s.len() > 0 {
        lemma_map_of_drop_last(s);
        assert(sorted_by_name(s.drop_last()));
        lemma_map_of_len(s.drop_last());
        lemma_map_of(s.drop_last());
        lemma_map_of(s);
        assert(map_of(s.drop_last()).dom() =~= map_of(s).dom().remove(s.last().name));
    }
}

/// Dropping the last entry of a sorted sequence drops its name from the map.
pub proof fn lemma_map_of_drop_last(s: Seq<PluginView>)
    requires
        sorted_by_name(s),
        s.len() > 0,
    ensures
        map_of(s.drop_last()) == map_of(s).remove(s.last().name),
{
    let u = s.drop_last();
    assert(sorted_by_name(u));
    lemma_map_of(u);
    if map_of(u).contains_key(s.last().name) {
        let j = choose|j: int| 0 <= j < u.len() && u[j].name == s.last().name;
        lemma_sorted_distinct(s, j, s.len() - 1);
    }
    assert(map_of(u) =~= map_of(s).remove(s.last().name));
}

/// The registry that bootstrap builds: one plugin per name in `installed`
/// or in `enabled`, each marked installed, and enabled when `enabled` lists
/// its name.
pub open spec fn generated(installed: Seq<Seq<char>>, enabled: Seq<Seq<char>>) -> Map<
    Seq<char>,
    PluginView,
> {
    plugins_named(installed, enabled, enabled)
}

/// One plugin per name in `first` or `second`, each marked installed, and
/// enabled when `enabled` lists its name.
pub open spec fn plugins_named(
    first: Seq<Seq<char>>,
    second: Seq<Seq<char>>,
    enabled: Seq<Seq<char>>,
) -> Map<Seq<char>, PluginView> {
    Map::new(
        |k: Seq<char>| first.contains(k) || second.contains(k),
        |k: Seq<char>| PluginView { name: k, enabled: enabled.contains(k), installed: true },
    )
}

/// A prefix one longer holds what the shorter one does, and its last name.
proof fn lemma_take_contains(names: Seq<Seq<char>>, i: int)
    requires
        0 <= i < names.len(),
    ensures
        forall|k: Seq<char>| #[trigger] names.take(i + 1).contains(k) == (names.take(i).contains(k)
            || k == names[i]),
{
    assert forall|k: Seq<char>| #[trigger] names.take(i + 1).contains(k) == (names.take(i).contains(
        k,
    ) || k == names[i]) by {
        if names.take(i + 1).contains(k) && k != names[i] {
            let j = choose|j: int| 0 <= j < i + 1 && #[trigger] names.take(i + 1)[j] == k;
            assert(names.take(i)[j] == k);
        }
        if names.take(i).contains(k) {
            let j = choose|j: int| 0 <= j < i && #[trigger] names.take(i)[j] == k;
            assert(names.take(i + 1)[j] == k);
        }
        if k == names[i] {
            assert(names.take(i + 1)[i] == k);
        }
    }
}

/// Whether `names` holds `name`.
pub fn contains_name(names: &Vec<String>, name: &String) -> (r: bool)
    ensures
        r == names.deep_view().contains(name@),
{
    let mut i: usize = 0;
    while i < names.len()
        invariant
            i <= names.len(),
            forall|j: int| 0 <= j < i ==> names.deep_view()[j] != name@,
        decreases names.len() - i,
    {
        if names[i] == *name {
            assert(names.deep_view()[i as int] == name@);
            return true;
        }
        i = i + 1;
    }
    false
}

/// A registry: at most one plugin per name.
#[derive(Debug, Clone)]
pub struct Registry {
    plugins: Vec<Plugin>,
}

impl View for Registry {
    type V = Map<Seq<char>, PluginView>;

    open spec fn view(&self) -> Map<Seq<char>, PluginView> {
        map_of(self.entries())
    }
}

impl Registry {
    /// The plugins in the order held: ascending by name.
    pub closed spec fn entries(&self) -> Seq<PluginView> {
        self.plugins@.map_values(|p: Plugin| p@)
    }

    /// Well-formed: the entries are strictly ascending by name.
    pub open spec fn wf(&self) -> bool {
        sorted_by_name(self.entries())
    }

    /// The registry with no plugin.
    pub fn new() -> (r: Registry)
        ensures
            r.wf(),
            r.entries().len() == 0,
            r@ == Map::<Seq<char>, PluginView>::empty(),
    {
        let r = Registry { plugins: Vec::new() };
        assert(r.entries() =~= Seq::<PluginView>::empty());
        r
    }

    /// The plugins, ascending by name.
    pub fn plugins(&self) -> (r: &Vec<Plugin>)
        ensures
            r@.map_values(|p: Plugin| p@) == self.entries(),
    {
        &self.plugins
    }

    /// How many plugins the registry holds.
    pub fn len(&self) -> (r: usize)
        ensures
            r == self.entries().len(),
            self.wf() ==> r == self@.len(),
    {
        proof {
            if self.wf() {
                lemma_map_of_len(self.entries());
            }
        }
        self.plugins.len()
    }

    /// The plugin at position `i` in name order.
    pub fn plugin_at(&self, i: usize) -> (r: &Plugin)
        requires
            i < self.entries().len(),
        ensures
            r@ == self.entries()[i as int],
    {
        &self.plugins[i]
    }

    /// The plugin named `name`, if the registry holds one.
    pub fn get(&self, name: &String) -> (r: Option<&Plugin>)
        requires
            self.wf(),
        ensures
            r is Some <==> self@.contains_key(name@),
            r is Some ==> r->Some_0@ == self@[name@],
    {
        let ghost s = self.entries();
        let mut i: usize = 0;
        while i < self.plugins.len()
            invariant
                s == self.entries(),
                sorted_by_name(s),
                i <= s.len(),
                forall|j: int| 0 <= j < i ==> #[trigger] s[j].name != name@,
            decreases s.len() - i,
        {
            assert(self.plugins@[i as int]@ == s[i as int]);
            if self.plugins[i].name == *name {
                proof {
                    lemma_map_of(s);
                }
                assert(map_of(s)[s[i as int].name] == s[i as int]);
                return Some(&self.plugins[i]);
            }
            i = i + 1;
        }
        proof {
            lemma_map_of(s);
        }
        None
    }

    /// Whether the registry holds a plugin named `name`.
    pub fn contains(&self, name: &String) -> (r: bool)
        requires
            self.wf(),
        ensures
            r == self@.contains_key(name@),
    {
        self.get(name).is_some()
    }

    /// The registry that bootstrap builds from the names of the installed
    /// plugins and the text of the startup script: every name that is
    /// installed or that the script imports, marked installed, and enabled
    /// when the script imports it.
    pub fn generate(installed_plugins: &Vec<String>, rc_content: &str) -> (r: Registry)
        ensures
            r.wf(),
            r@ == generated(installed_plugins.deep_view(), enabled_names(rc_content@)),
    {
        let enabled = enabled_plugins(rc_content);
        let ghost names = installed_plugins.deep_view();
        let ghost on = enabled.deep_view();
        let ghost none = Seq::<Seq<char>>::empty();
        let mut registry = Registry::new();
        let mut i: usize = 0;
        assert(registry@ =~= plugins_named(names.take(0), none, on));
        while i < installed_plugins.len()
            invariant
                names == installed_plugins.deep_view(),
                on == enabled.deep_view(),
                on == enabled_names(rc_content@),
                none == Seq::<Seq<char>>::empty(),
                i <= names.len(),
                registry.wf(),
                registry@ == plugins_named(names.take(i as int), none, on),
            decreases names.len() - i,
        {
            let name = &installed_plugins[i];
            let is_enabled = contains_name(&enabled, name);
            registry.insert(Plugin::new(name.clone(), is_enabled, true));
            proof {
                lemma_take_contains(names, i as int);
            }
            assert(registry@ =~= plugins_named(names.take(i + 1), none, on));
            i = i + 1;
        }
        assert(names.take(names.len() as int) =~= names);
        let mut j: usize = 0;
        assert(registry@ =~= plugins_named(names, on.take(0), on));
        while j < enabled.len()
            invariant
                names == installed_plugins.deep_view(),
                on == enabled.deep_view(),
                on == enabled_names(rc_content@),
                j <= on.len(),
                registry.wf(),
                registry@ == plugins_named(names, on.take(j as int), on),
            decreases on.len() - j,
        {
            let name = &enabled[j];
            assert(on[j as int] == name@);
            registry.insert(Plugin::new(name.clone(), true, true));
            proof {
                lemma_take_contains(on, j as int);
            }
            assert(registry@ =~= plugins_named(names, on.take(j + 1), on));
            j = j + 1;
        }
        assert(on.take(on.len() as int) =~= on);
        assert(registry@ =~= generated(names, on));
        registry
    }

    /// Adds `plugin`, replacing the plugin of the same name if there is one.
    pub fn insert(&mut self, plugin: Plugin)
        requires
            old(self).wf(),
        ensures
            final(self).wf(),
            final(self)@ == old(self)@.insert(plugin.name@, plugin@),
    {
        let ghost s = self.entries();
        let ghost p = plugin@;
        proof {
            lemma_map_of(s);
        }
        let mut i: usize = 0;
        while i < self.plugins.len() && name_less(self.plugins[i].name.as_str(), plugin.name.as_str())
            invariant
                self.entries() == s,
                sorted_by_name(s),
                plugin@ == p,
                i <= s.len(),
                forall|j: int| 0 <= j < i ==> name_precedes(#[trigger] s[j].name, p.name),
            decreases s.len() - i,
        {
            assert(self.plugins@[i as int]@ == s[i as int]);
            i = i + 1;
        }
        // Every name from position i on (bar an equal one at i) follows p's.
        assert forall|j: int| i < j < s.len() implies name_precedes(p.name, #[trigger] s[j].name) by {
            assert(!name_precedes(s[i as int].name, p.name));
            assert(name_precedes(s[i as int].name, s[j].name));
            if name_precedes(s[j].name, p.name) {
                lemma_precedes_transitive(s[i as int].name, s[j].name, p.name);
            }
            if s[j].name == p.name {
                assert(name_precedes(s[i as int].name, p.name));
            }
            lemma_precedes_total(p.name, s[j].name);
        }
        if i < self.plugins.len() && self.plugins[i].name == plugin.name {
            self.plugins.set(i, plugin);
            let ghost t = self.entries();
            assert(t =~= s.update(i as int, p));
            assert(sorted_by_name(t)) by {
                assert forall|a: int, b: int| 0 <= a < b < t.len() implies name_precedes(
                    #[trigger] t[a].name,
                    #[trigger] t[b].name,
                ) by {
                    assert(s[a].name == t[a].name || a == i);
                    assert(s[b].name == t[b].name || b == i);
                    assert(s[i as int].name == p.name);
                }
            }
            proof {
                lemma_map_of(t);
            }
            assert(map_of(t) =~= map_of(s).insert(p.name, p)) by {
                assert forall|k: Seq<char>| #[trigger] map_of(t).contains_key(k) implies map_of(
                    s,
                ).insert(p.name, p).contains_key(k) by {
                    let j = choose|j: int| 0 <= j < t.len() && t[j].name == k;
                    assert(s[j].name == k);
                }
                assert forall|k: Seq<char>| #[trigger] map_of(s).insert(
                    p.name,
                    p,
                ).contains_key(k) implies map_of(t).contains_key(k) && map_of(t)[k] == map_of(
                    s,
                ).insert(p.name, p)[k] by {
                    if k == p.name {
                        assert(t[i as int] == p);
                    } else {
                        let j = choose|j: int| 0 <= j < s.len() && s[j].name == k;
                        assert(j != i);
                        assert(t[j] == s[j]);
                    }
                }
            }
        } else {
            self.plugins.insert(i, plugin);
            let ghost t = self.entries();
            assert(t =~= s.insert(i as int, p));
            assert forall|j: int| i <= j < s.len() implies name_precedes(p.name, #[trigger] s[j].name) by {
                if j == i {
                    lemma_precedes_total(p.name, s[j].name);
                }
            }
            assert(sorted_by_name(t)) by {
                assert forall|a: int, b: int| 0 <= a < b < t.len() implies name_precedes(
                    #[trigger] t[a].name,
                    #[trigger] t[b].name,
                ) by {
                    if a < i && b > i {
                        assert(t[a] == s[a]);
                        assert(t[b] == s[b - 1]);
                    } else if a < i && b == i {
                        assert(t[a] == s[a]);
                    } else if a == i {
                        assert(t[b] == s[b - 1]);
                    } else if b < i {
                        assert(t[a] == s[a]);
                        assert(t[b] == s[b]);
                    } else {
                        assert(t[a] == s[a - 1]);
                        assert(t[b] == s[b - 1]);
                    }
                }
            }
            proof {
                lemma_map_of(t);
            }
            assert(map_of(t) =~= map_of(s).insert(p.name, p)) by {
                assert forall|k: Seq<char>| #[trigger] map_of(t).contains_key(k) implies map_of(
                    s,
                ).insert(p.name, p).contains_key(k) by {
                    let j = choose|j: int| 0 <= j < t.len() && t[j].name == k;
                    if j < i {
                        assert(s[j].name == k);
                    } else if j > i {
                        assert(s[j - 1].name == k);
                    }
                }
                assert forall|k: Seq<char>| #[trigger] map_of(s).insert(
                    p.name,
                    p,
                ).contains_key(k) implies map_of(t).contains_key(k) && map_of(t)[k] == map_of(
                    s,
                ).insert(p.name, p)[k] by {
                    if k == p.name {
                        assert(t[i as int] == p);
                    } else {
                        let j = choose|j: int| 0 <= j < s.len() && s[j].name == k;
                        if j < i {
                            assert(t[j] == s[j]);
                        } else {
                            assert(t[j + 1] == s[j]);
                        }
                    }
                }
            }
        }
    }
}

} // verus!
