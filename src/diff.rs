//! The difference between two registries, as an ordered batch of lifecycle
//! operations.
//!
//! The batch is built in two passes. The first walks the old registry in name
//! order: a plugin that is gone is uninstalled, one whose `enabled` flag was
//! switched on or off is enabled or disabled. The second walks the new
//! registry in name order and installs each plugin the old one lacked. A
//! change of the `installed` flag alone yields no operation.

use vstd::prelude::*;

use crate::commands::{CommandView, Commands};
use crate::plugin::{Plugin, PluginView};
use crate::registry::{Registry, lemma_map_of, map_of, sorted_by_name};

verus! {

/// One step of a batch: a command, with the plugin it is about.
#[derive(Debug, Clone)]
pub struct PluginOperation {
    pub command: Commands,
    pub plugin: Plugin,
}

impl PluginOperation {
    /// A copy of this operation, field for field.
    pub fn duplicate(&self) -> (r: PluginOperation)
        ensures
            r@ == self@,
    {
        PluginOperation { command: self.command.duplicate(), plugin: self.plugin.duplicate() }
    }
}

/// The mathematical value of a [`PluginOperation`].
pub ghost struct OperationView {
    pub command: CommandView,
    pub plugin: PluginView,
}

impl View for PluginOperation {
    type V = OperationView;

    open spec fn view(&self) -> OperationView {
        OperationView { command: self.command@, plugin: self.plugin@ }
    }
}

/// The values of a sequence of operations.
pub open spec fn operations_view(ops: Seq<PluginOperation>) -> Seq<OperationView> {
    ops.map_values(|o: PluginOperation| o@)
}

/// What the first pass emits for plugin `p` of the old registry, given the
/// new registry `new`.
pub open spec fn old_side_ops(p: PluginView, new: Map<Seq<char>, PluginView>) -> Seq<OperationView> {
    if !new.contains_key(p.name) {
        seq![OperationView { command: CommandView::Uninstall { name: p.name }, plugin: p }]
    } else if new[p.name].enabled && !p.enabled {
        seq![OperationView { command: CommandView::Enable { name: p.name }, plugin: p }]
    } else if !new[p.name].enabled && p.enabled {
        seq![OperationView { command: CommandView::Disable { name: p.name }, plugin: p }]
    } else {
        seq![]
    }
}

/// The first pass over the plugins `olds` of the old registry.
pub open spec fn removals_and_toggles(
    olds: Seq<PluginView>,
    new: Map<Seq<char>, PluginView>,
) -> Seq<OperationView>
    decreases olds.len(),
{
    if olds.len() == 0 {
        seq![]
    } else {
        removals_and_toggles(olds.drop_last(), new) + old_side_ops(olds.last(), new)
    }
}

/// What the second pass emits for plugin `p` of the new registry, given the
/// old registry `old`.
pub open spec fn new_side_ops(p: PluginView, old: Map<Seq<char>, PluginView>) -> Seq<OperationView> {
    if !old.contains_key(p.name) {
        seq![OperationView { command: CommandView::Install { name: p.name }, plugin: p }]
    } else {
        seq![]
    }
}

/// The second pass over the plugins `news` of the new registry.
pub open spec fn installs(news: Seq<PluginView>, old: Map<Seq<char>, PluginView>) -> Seq<
    OperationView,
>
    decreases news.len(),
{
    if news.len() == 0 {
        seq![]
    } else {
        installs(news.drop_last(), old) + new_side_ops(news.last(), old)
    }
}

/// The batch that turns `old` into `new`.
pub open spec fn diff(old: Registry, new: Registry) -> Seq<OperationView> {
    removals_and_toggles(old.entries(), new@) + installs(new.entries(), old@)
}

fn operation(command: Commands, plugin: &Plugin) -> (r: PluginOperation)
    ensures
        r@ == (OperationView { command: command@, plugin: plugin@ }),
{
    PluginOperation { command, plugin: plugin.duplicate() }
}

/// The batch of operations that turns `old_registry` into `new_registry`:
/// uninstalls, enables and disables in the old registry's name order, then
/// installs in the new registry's name order.
pub fn generate_operations(old_registry: &Registry, new_registry: &Registry) -> (r: Vec<
    PluginOperation,
>)
    requires
        old_registry.wf(),
        new_registry.wf(),
    ensures
        operations_view(r@) == diff(*old_registry, *new_registry),
{
    let mut operations: Vec<PluginOperation> = Vec::new();
    let ghost olds = old_registry.entries();
    let ghost news = new_registry.entries();
    let mut i: usize = 0;
    assert(operations_view(operations@) =~= removals_and_toggles(olds.take(0), new_registry@));
    while i < old_registry.len()
        invariant
            olds == old_registry.entries(),
            new_registry.wf(),
            i <= olds.len(),
            operations_view(operations@) == removals_and_toggles(olds.take(i as int), new_registry@),
        decreases olds.len() - i,
    {
        let old_plugin = old_registry.plugin_at(i);
        let ghost before = operations@;
        assert(olds.take(i + 1).drop_last() =~= olds.take(i as int));
        assert(olds.take(i + 1).last() == old_plugin@);
        match new_registry.get(&old_plugin.name) {
            None => {
                let name = old_plugin.name.clone();
                operations.push(operation(Commands::Uninstall { name }, old_plugin));
            },
            Some(new_plugin) => {
                if new_plugin.enabled && !old_plugin.enabled {
                    let name = old_plugin.name.clone();
                    operations.push(operation(Commands::Enable { name }, old_plugin));
                } else if !new_plugin.enabled && old_plugin.enabled {
                    let name = old_plugin.name.clone();
                    operations.push(operation(Commands::Disable { name }, old_plugin));
                }
            },
        }
        assert(operations_view(operations@) =~= operations_view(before) + old_side_ops(
            old_plugin@,
            new_registry@,
        ));
        i = i + 1;
    }
    assert(olds.take(olds.len() as int) =~= olds);
    let ghost first = operations_view(operations@);
    let mut j: usize = 0;
    assert(operations_view(operations@) =~= first + installs(news.take(0), old_registry@));
    while j < new_registry.len()
        invariant
            news == new_registry.entries(),
            old_registry.wf(),
            j <= news.len(),
            operations_view(operations@) == first + installs(news.take(j as int), old_registry@),
        decreases news.len() - j,
    {
        let new_plugin = new_registry.plugin_at(j);
        let ghost before = operations@;
        assert(news.take(j + 1).drop_last() =~= news.take(j as int));
        assert(news.take(j + 1).last() == new_plugin@);
        if !old_registry.contains(&new_plugin.name) {
            let name = new_plugin.name.clone();
            operations.push(operation(Commands::Install { name }, new_plugin));
        }
        assert(operations_view(operations@) =~= operations_view(before) + new_side_ops(
            new_plugin@,
            old_registry@,
        ));
        j = j + 1;
    }
    assert(news.take(news.len() as int) =~= news);
    operations
}

/// The state that one operation leaves, starting from `state`.
pub open spec fn apply_operation(
    state: Map<Seq<char>, PluginView>,
    op: OperationView,
) -> Map<Seq<char>, PluginView> {
    match op.command {
        CommandView::Install { name } => state.insert(name, op.plugin),
        CommandView::Uninstall { name } => state.remove(name),
        CommandView::Enable { name } => state.insert(
            name,
            PluginView { name: state[name].name, enabled: true, installed: state[name].installed },
        ),
        CommandView::Disable { name } => state.insert(
            name,
            PluginView { name: state[name].name, enabled: false, installed: state[name].installed },
        ),
        _ => state,
    }
}

/// The state that a batch leaves, its operations applied in order.
pub open spec fn apply_operations(
    state: Map<Seq<char>, PluginView>,
    ops: Seq<OperationView>,
) -> Map<Seq<char>, PluginView>
    decreases ops.len(),
{
    if ops.len() == 0 {
        state
    } else {
        apply_operation(apply_operations(state, ops.drop_last()), ops.last())
    }
}

/// The names that a sequence of plugins carries.
pub open spec fn names_of(s: Seq<PluginView>) -> Set<Seq<char>>
    decreases s.len(),
{
    if s.len() == 0 {
        Set::empty()
    } else {
        names_of(s.drop_last()).insert(s.last().name)
    }
}

/// `start` after the first pass over the plugins named in `done`: those
/// that `new` lacks are gone, the others carry `new`'s `enabled` flag.
pub open spec fn reconciled(
    start: Map<Seq<char>, PluginView>,
    new: Map<Seq<char>, PluginView>,
    done: Set<Seq<char>>,
) -> Map<Seq<char>, PluginView> {
    Map::new(
        |k: Seq<char>|
            if done.contains(k) {
                start.contains_key(k) && new.contains_key(k)
            } else {
                start.contains_key(k)
            },
        |k: Seq<char>|
            if done.contains(k) {
                PluginView {
                    name: start[k].name,
                    enabled: new[k].enabled,
                    installed: start[k].installed,
                }
            } else {
                start[k]
            },
    )
}

/// `state` after the second pass over the plugins named in `done`: those
/// that `old` lacked are added as `new` holds them.
pub open spec fn completed(
    state: Map<Seq<char>, PluginView>,
    old: Map<Seq<char>, PluginView>,
    new: Map<Seq<char>, PluginView>,
    done: Set<Seq<char>>,
) -> Map<Seq<char>, PluginView> {
    Map::new(
        |k: Seq<char>| state.contains_key(k) || (done.contains(k) && !old.contains_key(k)),
        |k: Seq<char>|
            if done.contains(k) && !old.contains_key(k) {
                new[k]
            } else {
                state[k]
            },
    )
}

proof fn lemma_apply_concat(
    state: Map<Seq<char>, PluginView>,
    a: Seq<OperationView>,
    b: Seq<OperationView>,
)
    ensures
        apply_operations(state, a + b) == apply_operations(apply_operations(state, a), b),
    decreases b.len(),
{
    if b.len() == 0 {
        assert(a + b =~= a);
    } else {
        assert((a + b).drop_last() =~= a + b.drop_last());
        lemma_apply_concat(state, a, b.drop_last());
    }
}

proof fn lemma_apply_single(state: Map<Seq<char>, PluginView>, op: OperationView)
    ensures
        apply_operations(state, seq![op]) == apply_operation(state, op),
{
    let ops = seq![op];
    assert(ops.drop_last() =~= Seq::<OperationView>::empty());
    assert(apply_operations(state, ops.drop_last()) == state);
    assert(ops.last() == op);
}

proof fn lemma_names_of(s: Seq<PluginView>)
    ensures
        names_of(s) == map_of(s).dom(),
        forall|k: Seq<char>| #[trigger] names_of(s).contains(k) ==> exists|j: int|
            0 <= j < s.len() && s[j].name == k,
    decreases s.len(),
{
    if s.len() > 0 {
        lemma_names_of(s.drop_last());
        assert(names_of(s) =~= map_of(s).dom());
        assert forall|k: Seq<char>| #[trigger] names_of(s).contains(k) implies exists|j: int|
            0 <= j < s.len() && s[j].name == k by {
            if k == s.last().name {
                assert(s[s.len() - 1].name == k);
            } else {
                let j = choose|j: int| 0 <= j < s.len() - 1 && s.drop_last()[j].name == k;
                assert(s[j].name == k);
            }
        }
    }
}

proof fn lemma_first_pass(
    start: Map<Seq<char>, PluginView>,
    new: Map<Seq<char>, PluginView>,
    t: Seq<PluginView>,
)
    requires
        sorted_by_name(t),
        forall|j: int|
            0 <= j < t.len() ==> start.contains_key(#[trigger] t[j].name) && start[t[j].name]
                == t[j],
    ensures
        apply_operations(start, removals_and_toggles(t, new)) == reconciled(
            start,
            new,
            names_of(t),
        ),
    decreases t.len(),
{
    if t.len() == 0 {
        assert(reconciled(start, new, names_of(t)) =~= start);
    } else {
        let u = t.drop_last();
        let p = t.last();
        assert(sorted_by_name(u));
        assert forall|j: int| 0 <= j < u.len() implies start.contains_key(#[trigger] u[j].name)
            && start[u[j].name] == u[j] by {
            assert(u[j] == t[j]);
        }
        lemma_first_pass(start, new, u);
        lemma_apply_concat(start, removals_and_toggles(u, new), old_side_ops(p, new));
        lemma_names_of(u);
        assert(!names_of(u).contains(p.name)) by {
            if names_of(u).contains(p.name) {
                let j = choose|j: int| 0 <= j < u.len() && u[j].name == p.name;
                crate::registry::lemma_sorted_distinct(t, j, t.len() - 1);
            }
        }
        assert(start[p.name] == p) by {
            assert(t[t.len() - 1] == p);
        }
        let mid = reconciled(start, new, names_of(u));
        let ops = old_side_ops(p, new);
        if ops.len() == 1 {
            lemma_apply_single(mid, ops[0]);
        } else {
            assert(ops =~= Seq::<OperationView>::empty());
        }
        assert(apply_operations(mid, ops) =~= reconciled(start, new, names_of(t)));
    }
}

proof fn lemma_second_pass(
    state: Map<Seq<char>, PluginView>,
    old: Map<Seq<char>, PluginView>,
    new: Map<Seq<char>, PluginView>,
    t: Seq<PluginView>,
)
    requires
        forall|j: int|
            0 <= j < t.len() ==> new.contains_key(#[trigger] t[j].name) && new[t[j].name] == t[j],
    ensures
        apply_operations(state, installs(t, old)) == completed(state, old, new, names_of(t)),
    decreases t.len(),
{
    if t.len() == 0 {
        assert(completed(state, old, new, names_of(t)) =~= state);
    } else {
        let u = t.drop_last();
        let p = t.last();
        assert forall|j: int| 0 <= j < u.len() implies new.contains_key(#[trigger] u[j].name)
            && new[u[j].name] == u[j] by {
            assert(u[j] == t[j]);
        }
        lemma_second_pass(state, old, new, u);
        lemma_apply_concat(state, installs(u, old), new_side_ops(p, old));
        assert(new[p.name] == p) by {
            assert(t[t.len() - 1] == p);
        }
        let mid = completed(state, old, new, names_of(u));
        let ops = new_side_ops(p, old);
        if ops.len() == 1 {
            lemma_apply_single(mid, ops[0]);
        } else {
            assert(ops =~= Seq::<OperationView>::empty());
        }
        assert(apply_operations(mid, ops) =~= completed(state, old, new, names_of(t)));
    }
}

proof fn lemma_first_pass_silent(t: Seq<PluginView>, new: Map<Seq<char>, PluginView>)
    requires
        forall|j: int|
            0 <= j < t.len() ==> new.contains_key(#[trigger] t[j].name) && new[t[j].name] == t[j],
    ensures
        removals_and_toggles(t, new) == Seq::<OperationView>::empty(),
    decreases t.len(),
{
    if t.len() > 0 {
        let u = t.drop_last();
        assert forall|j: int| 0 <= j < u.len() implies new.contains_key(#[trigger] u[j].name)
            && new[u[j].name] == u[j] by {
            assert(u[j] == t[j]);
        }
        lemma_first_pass_silent(u, new);
        assert(t[t.len() - 1] == t.last());
        assert(removals_and_toggles(t, new) =~= Seq::<OperationView>::empty());
    }
}

proof fn lemma_second_pass_silent(t: Seq<PluginView>, old: Map<Seq<char>, PluginView>)
    requires
        forall|j: int| 0 <= j < t.len() ==> old.contains_key(#[trigger] t[j].name),
    ensures
        installs(t, old) == Seq::<OperationView>::empty(),
    decreases t.len(),
{
    if t.len() > 0 {
        let u = t.drop_last();
        assert forall|j: int| 0 <= j < u.len() implies old.contains_key(#[trigger] u[j].name) by {
            assert(u[j] == t[j]);
        }
        lemma_second_pass_silent(u, old);
        assert(t[t.len() - 1] == t.last());
        assert(installs(t, old) =~= Seq::<OperationView>::empty());
    }
}

/// A registry compared with itself yields an empty batch.
pub proof fn lemma_diff_of_itself(r: Registry)
    requires
        r.wf(),
    ensures
        diff(r, r) == Seq::<OperationView>::empty(),
{
    lemma_map_of(r.entries());
    lemma_first_pass_silent(r.entries(), r@);
    lemma_second_pass_silent(r.entries(), r@);
    assert(diff(r, r) =~= Seq::<OperationView>::empty());
}

/// Applying the batch `diff(old, new)` to the state that `old` describes
/// yields a state with exactly `new`'s names, each with `new`'s `enabled`
/// flag, whatever the `installed` flags.
pub proof fn lemma_diff_applied_names_and_flags(old: Registry, new: Registry)
    requires
        old.wf(),
        new.wf(),
    ensures
        apply_operations(old@, diff(old, new)).dom() == new@.dom(),
        forall|k: Seq<char>|
            #[trigger] new@.contains_key(k) ==> apply_operations(old@, diff(old, new))[k].enabled
                == new@[k].enabled,
{
    let olds = old.entries();
    let news = new.entries();
    lemma_map_of(olds);
    lemma_map_of(news);
    lemma_names_of(olds);
    lemma_names_of(news);
    lemma_first_pass(old@, new@, olds);
    let mid = reconciled(old@, new@, names_of(olds));
    lemma_second_pass(mid, old@, new@, news);
    lemma_apply_concat(old@, removals_and_toggles(olds, new@), installs(news, old@));
    let fin = completed(mid, old@, new@, names_of(news));
    assert forall|k: Seq<char>| #[trigger] fin.contains_key(k) == new@.contains_key(k) by {
        assert(names_of(news).contains(k) == new@.contains_key(k));
        assert(names_of(olds).contains(k) == old@.contains_key(k));
    }
    assert(fin.dom() =~= new@.dom());
    assert forall|k: Seq<char>| #[trigger] new@.contains_key(k) implies fin[k].enabled
        == new@[k].enabled by {
        assert(names_of(news).contains(k));
        if old@.contains_key(k) {
            assert(names_of(olds).contains(k));
        }
    }
}

/// Applying the batch `diff(old, new)` to the state that `old` describes
/// yields the state that `new` describes, where no plugin present in both
/// changed its `installed` flag (such a change alone yields no operation).
pub proof fn lemma_diff_applied(old: Registry, new: Registry)
    requires
        old.wf(),
        new.wf(),
        forall|k: Seq<char>|
            old@.contains_key(k) && new@.contains_key(k) ==> #[trigger] old@[k].installed
                == #[trigger] new@[k].installed,
    ensures
        apply_operations(old@, diff(old, new)) == new@,
{
    let olds = old.entries();
    let news = new.entries();
    lemma_map_of(olds);
    lemma_map_of(news);
    lemma_names_of(olds);
    lemma_names_of(news);
    lemma_first_pass(old@, new@, olds);
    let mid = reconciled(old@, new@, names_of(olds));
    lemma_second_pass(mid, old@, new@, news);
    lemma_apply_concat(old@, removals_and_toggles(olds, new@), installs(news, old@));
    assert forall|k: Seq<char>| #[trigger] old@.contains_key(k) implies old@[k].name == k by {
        let j = choose|j: int| 0 <= j < olds.len() && olds[j].name == k;
    }
    assert forall|k: Seq<char>| #[trigger] new@.contains_key(k) implies new@[k].name == k by {
        let j = choose|j: int| 0 <= j < news.len() && news[j].name == k;
    }
    let fin = completed(mid, old@, new@, names_of(news));
    assert forall|k: Seq<char>| #[trigger] fin.contains_key(k) == new@.contains_key(k) by {
        assert(names_of(news).contains(k) == new@.contains_key(k));
        assert(names_of(olds).contains(k) == old@.contains_key(k));
    }
    assert forall|k: Seq<char>| #[trigger] new@.contains_key(k) implies fin[k] == new@[k] by {
        assert(names_of(news).contains(k));
        if old@.contains_key(k) {
            assert(names_of(olds).contains(k));
            assert(old@[k].installed == new@[k].installed);
            assert(mid[k] == PluginView {
                name: old@[k].name,
                enabled: new@[k].enabled,
                installed: old@[k].installed,
            });
        }
    }
    assert(fin =~= new@);
}

} // verus!
