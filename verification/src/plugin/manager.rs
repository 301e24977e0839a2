//! The plugins that are loaded, by name, with what each says of itself.
//! Opening the shared libraries and calling into them is the terminal
//! program's part; this table decides which names may be loaded and
//! unloaded, and lists them.
use vstd::prelude::*;

use crate::collections::AssocList;
use crate::error::BitchYError;
use crate::text::{chars_of, push_str_chars, string_of};

verus! {

/// A loaded plugin: its name, version and description, and the path of
/// the library it was loaded from.
#[derive(Debug, Clone)]
pub struct PluginInfo {
    pub name: String,
    pub version: String,
    pub description: String,
    pub path: String,
}

/// The loaded plugins, by name, and the directory plugins are kept in.
#[derive(Debug)]
pub struct PluginManager {
    plugins: AssocList<PluginInfo>,
    plugin_dir: String,
}

impl View for PluginManager {
    type V = Map<Seq<char>, PluginInfo>;

    closed spec fn view(&self) -> Map<Seq<char>, PluginInfo> {
        self.plugins@
    }
}

/// `e` is a plugin error whose text is `msg`.
pub open spec fn plugin_error(e: BitchYError, msg: Seq<char>) -> bool {
    e matches BitchYError::Plugin(t) && t@ == msg
}

/// A plugin error saying `head`, the quoted name, then `tail`.
fn quoted_error(head: &str, name: &str, tail: &str) -> (r: BitchYError)
    ensures
        plugin_error(r, head@ + name@ + tail@),
{
    let mut out = chars_of(head);
    push_str_chars(&mut out, name);
    push_str_chars(&mut out, tail);
    BitchYError::Plugin(string_of(&out))
}

impl PluginManager {
    /// The table is well formed: each plugin is listed under its own name.
    pub closed spec fn wf(&self) -> bool {
        &&& self.plugins.wf()
        &&& forall|k: Seq<char>| #[trigger] self.plugins@.contains_key(k) ==> self.plugins@[k].name@ == k
    }

    /// The directory plugins are kept in.
    pub closed spec fn dir(&self) -> Seq<char> {
        self.plugin_dir@
    }

    /// No plugin loaded; plugins are kept in `plugin_dir`.
    pub fn new(plugin_dir: String) -> (r: PluginManager)
        ensures
            r.wf(),
            r@ == Map::<Seq<char>, PluginInfo>::empty(),
            r.dir() == plugin_dir@,
    {
        PluginManager { plugins: AssocList::new(), plugin_dir }
    }

    /// Whether a plugin called `name` may be loaded: not when one of that
    /// name is loaded already.
    pub fn may_load(&self, name: &str) -> (r: Result<(), BitchYError>)
        requires
            self.wf(),
        ensures
            match r {
                Ok(()) => !self@.contains_key(name@),
                Err(e) => self@.contains_key(name@) && plugin_error(
                    e,
                    "Plugin '"@ + name@ + "' is already loaded"@,
                ),
            },
    {
        if self.plugins.contains_key(name) {
            Err(quoted_error("Plugin '", name, "' is already loaded"))
        } else {
            Ok(())
        }
    }

    /// Records a plugin just loaded, under its name.
    pub fn register(&mut self, info: PluginInfo)
        requires
            old(self).wf(),
            !old(self)@.contains_key(info.name@),
        ensures
            final(self).wf(),
            final(self)@ == old(self)@.insert(info.name@, info),
            final(self).dir() == old(self).dir(),
    {
        let name = info.name.clone();
        self.plugins.insert(name, info);
    }

    /// Takes the plugin called `name` out of the table, to be unloaded; an
    /// error when no plugin of that name is loaded.
    pub fn unload(&mut self, name: &str) -> (r: Result<PluginInfo, BitchYError>)
        requires
            old(self).wf(),
        ensures
            final(self).wf(),
            final(self)@ == old(self)@.remove(name@),
            final(self).dir() == old(self).dir(),
            match r {
                Ok(p) => old(self)@.contains_key(name@) && p == old(self)@[name@],
                Err(e) => !old(self)@.contains_key(name@) && plugin_error(
                    e,
                    "Plugin '"@ + name@ + "' is not loaded"@,
                ),
            },
    {
        match self.plugins.remove(name) {
            Some(p) => Ok(p),
            None => Err(quoted_error("Plugin '", name, "' is not loaded")),
        }
    }

    /// The loaded plugins as (name, version, description, path), each
    /// once.
    pub fn list(&self) -> (r: Vec<(&str, &str, &str, &str)>)
        requires
            self.wf(),
        ensures
            r@.len() == self@.len(),
            forall|i: int|
                0 <= i < r@.len() ==> {
                    let (n, v, d, p) = #[trigger] r@[i];
                    &&& self@.contains_key(n@)
                    &&& self@[n@].name@ == n@
                    &&& self@[n@].version@ == v@
                    &&& self@[n@].description@ == d@
                    &&& self@[n@].path@ == p@
                },
            forall|i: int, j: int| 0 <= i < j < r@.len() ==> (#[trigger] r@[i]).0@ != (#[trigger] r@[j]).0@,
    {
        proof {
            self.plugins.lemma_order();
        }
        let n = self.plugins.len();
        let ghost keys = self.plugins.key_seq();
        let mut out: Vec<(&str, &str, &str, &str)> = Vec::new();
        let mut i: usize = 0;
        while i < n
            invariant
                self.wf(),
                n == keys.len() == self.plugins.value_seq().len(),
                keys == self.plugins.key_seq(),
                keys.no_duplicates(),
                forall|k: Seq<char>| self@.contains_key(k) <==> keys.contains(k),
                forall|j: int| 0 <= j < keys.len() ==> #[trigger] self@[keys[j]] == self.plugins.value_seq()[j],
                i <= n,
                out@.len() == i,
                forall|j: int| 0 <= j < i ==> (#[trigger] out@[j]).0@ == keys[j] && {
                    let (nm, v, d, p) = out@[j];
                    &&& self@[nm@].name@ == nm@
                    &&& self@[nm@].version@ == v@
                    &&& self@[nm@].description@ == d@
                    &&& self@[nm@].path@ == p@
                },
            decreases n - i,
        {
            let p = self.plugins.value_at(i);
            proof {
                assert(keys.contains(keys[i as int]));
                assert(self@[keys[i as int]] == *p);
            }
            out.push((p.name.as_str(), p.version.as_str(), p.description.as_str(), p.path.as_str()));
            i += 1;
        }
        proof {
            assert forall|j: int| 0 <= j < out@.len() implies self@.contains_key(#[trigger] out@[j].0@) by {
                assert(keys.contains(keys[j]));
            }
            assert forall|a: int, b: int| 0 <= a < b < out@.len() implies (#[trigger] out@[a]).0@
                != (#[trigger] out@[b]).0@ by {
                assert(out@[a].0@ == keys[a] && out@[b].0@ == keys[b]);
            }
        }
        out
    }

    /// The directory plugins are kept in.
    pub fn plugin_dir(&self) -> (r: &str)
        ensures
            r@ == self.dir(),
    {
        self.plugin_dir.as_str()
    }

    /// Whether a plugin called `name` is loaded.
    pub fn is_loaded(&self, name: &str) -> (r: bool)
        requires
            self.wf(),
        ensures
            r == self@.contains_key(name@),
    {
        self.plugins.contains_key(name)
    }

    /// How many plugins are loaded.
    pub fn count(&self) -> (r: usize)
        requires
            self.wf(),
        ensures
            r == self@.len(),
    {
        self.plugins.len()
    }
}

/// Loading a plugin under a name not taken and unloading it leaves the
/// table as it was, and gives back what was loaded.
pub proof fn lemma_register_then_unload(plugins: Map<Seq<char>, PluginInfo>, info: PluginInfo)
    requires
        !plugins.contains_key(info.name@),
    ensures
        plugins.insert(info.name@, info).remove(info.name@) == plugins,
        plugins.insert(info.name@, info)[info.name@] == info,
{
    assert(plugins.insert(info.name@, info).remove(info.name@) =~= plugins);
}

} // verus!
