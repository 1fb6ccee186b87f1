//! A registry paired with its fingerprint: a digest of the registry's
//! canonical text, the plugins listed in name order.

use vstd::prelude::*;
use vstd::string::StringExecFns;

use crate::plugin::{PluginView, flag_text};
use crate::registry::{Registry, lemma_sorted_unique};
use crate::utils::{hash, text_hash};

verus! {

/// One line of canonical text: name, `enabled` and `installed`, separated by
/// commas.
pub open spec fn plugin_line(p: PluginView) -> Seq<char> {
    p.name + ","@ + flag_text(p.enabled) + ","@ + flag_text(p.installed) + "\n"@
}

/// The lines of `s`, in order.
pub open spec fn canonical_text(s: Seq<PluginView>) -> Seq<char>
    decreases s.len(),
{
    if s.len() == 0 {
        Seq::empty()
    } else {
        canonical_text(s.drop_last()) + plugin_line(s.last())
    }
}

/// The fingerprint of a registry: the hash of its canonical text.
pub open spec fn fingerprint(r: Registry) -> u64 {
    text_hash(canonical_text(r.entries()))
}

/// Registries with the same plugins have the same fingerprint, whatever
/// order the plugins were added in.
pub proof fn lemma_fingerprint_order_independent(a: Registry, b: Registry)
    requires
        a.wf(),
        b.wf(),
        a@ == b@,
    ensures
        fingerprint(a) == fingerprint(b),
{
    lemma_sorted_unique(a.entries(), b.entries());
}

fn append_flag(text: &mut String, b: bool)
    ensures
        final(text)@ == old(text)@ + flag_text(b),
{
    if b {
        text.append("true");
    } else {
        text.append("false");
    }
}

/// The canonical text of `registry`.
pub fn canonical_text_of(registry: &Registry) -> (r: String)
    ensures
        r@ == canonical_text(registry.entries()),
{
    let mut text = String::new();
    let ghost s = registry.entries();
    let mut i: usize = 0;
    assert(s.take(0) =~= Seq::<PluginView>::empty());
    while i < registry.len()
        invariant
            s == registry.entries(),
            i <= s.len(),
            text@ == canonical_text(s.take(i as int)),
        decreases s.len() - i,
    {
        let p = registry.plugin_at(i);
        assert(s.take(i + 1).drop_last() =~= s.take(i as int));
        text.append(p.name.as_str());
        text.append(",");
        append_flag(&mut text, p.enabled);
        text.append(",");
        append_flag(&mut text, p.installed);
        text.append("\n");
        assert(text@ =~= canonical_text(s.take(i + 1)));
        i = i + 1;
    }
    assert(s.take(s.len() as int) =~= s);
    text
}

/// The fingerprint of `registry`.
pub fn fingerprint_of(registry: &Registry) -> (r: u64)
    ensures
        r == fingerprint(*registry),
{
    let text = canonical_text_of(registry);
    hash(text.as_str())
}

/// A registry with its fingerprint.
#[derive(Debug, Clone)]
pub struct RegistrySnapshot {
    registry: Registry,
    hash: u64,
}

impl RegistrySnapshot {
    /// The registry held.
    pub closed spec fn spec_registry(&self) -> Registry {
        self.registry
    }

    /// The fingerprint held.
    pub closed spec fn spec_hash(&self) -> u64 {
        self.hash
    }

    /// Well-formed: the registry is, and the fingerprint is its own.
    pub open spec fn wf(&self) -> bool {
        &&& self.spec_registry().wf()
        &&& self.spec_hash() == fingerprint(self.spec_registry())
    }

    /// Wraps `registry` with its fingerprint.
    pub fn new(registry: Registry) -> (r: RegistrySnapshot)
        requires
            registry.wf(),
        ensures
            r.wf(),
            r.spec_registry() == registry,
    {
        let hash = fingerprint_of(&registry);
        RegistrySnapshot { registry, hash }
    }

    /// The registry held.
    pub fn registry(&self) -> (r: &Registry)
        ensures
            *r == self.spec_registry(),
    {
        &self.registry
    }

    /// The fingerprint held.
    pub fn hash(&self) -> (r: u64)
        ensures
            r == self.spec_hash(),
    {
        self.hash
    }
}

} // verus!
