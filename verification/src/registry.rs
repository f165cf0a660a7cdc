//! The plugin registry: the one shared map from plugin name to live
//! handle, plus each plugin's registered source instances. The registry is
//! the sole owner of plugin handles; whoever removes an entry receives the
//! process id back and must terminate that process, so no child outlives
//! its handle.

use vstd::prelude::*;

use crate::HostError;
use crate::keys::str_eq;
use crate::logging::{LogEvent, LogLevel};

verus! {

/// How plugin processes are kept: resident daemons, or spawned per call
/// to save memory.
#[derive(Clone, Copy, Debug, PartialEq, Eq, Structural)]
pub enum PluginHostMode {
    Daemon,
    LowRAM,
}

/// One registered source instance: its id and the opaque parameter blob
/// the owning plugin defined.
#[derive(Debug)]
pub struct InstanceEntry {
    pub id: String,
    pub params: Vec<u8>,
}

/// One live plugin: its name, the process that backs it, and its
/// registered instances.
#[derive(Debug)]
pub struct PluginEntry {
    /// The name the plugin reported in its handshake.
    pub name: String,
    /// The backing process; killed when the entry is removed.
    pub pid: u64,
    /// The instances registered against this plugin.
    pub instances: Vec<InstanceEntry>,
}

/// The instances as pairs of id characters and parameter bytes.
pub open spec fn inst_view(instances: Seq<InstanceEntry>) -> Seq<(Seq<char>, Seq<u8>)> {
    instances.map_values(|e: InstanceEntry| (e.id@, e.params@))
}

/// Some instance carries this id.
pub open spec fn has_key(v: Seq<(Seq<char>, Seq<u8>)>, id: Seq<char>) -> bool {
    exists|i: int| 0 <= i < v.len() && (#[trigger] v[i]).0 == id
}

/// The parameters stored under an id, first match.
pub open spec fn lookup(v: Seq<(Seq<char>, Seq<u8>)>, id: Seq<char>) -> Option<Seq<u8>>
    decreases v.len(),
{
    if v.len() == 0 {
        None
    } else if v[0].0 == id {
        Some(v[0].1)
    } else {
        lookup(v.drop_first(), id)
    }
}

/// Registering an instance: the first entry under the id is replaced, or
/// a new entry is appended; reports whether an entry was overwritten.
pub open spec fn spec_register(
    v: Seq<(Seq<char>, Seq<u8>)>,
    id: Seq<char>,
    params: Seq<u8>,
) -> (Seq<(Seq<char>, Seq<u8>)>, bool)
    decreases v.len(),
{
    if v.len() == 0 {
        (seq![(id, params)], false)
    } else if v[0].0 == id {
        (seq![(id, params)] + v.drop_first(), true)
    } else {
        let rest = spec_register(v.drop_first(), id, params);
        (seq![v[0]] + rest.0, rest.1)
    }
}

/// Deregistering an instance: the first entry under the id goes; nothing
/// changes when there is none.
pub open spec fn spec_deregister(
    v: Seq<(Seq<char>, Seq<u8>)>,
    id: Seq<char>,
) -> Seq<(Seq<char>, Seq<u8>)>
    decreases v.len(),
{
    if v.len() == 0 {
        v
    } else if v[0].0 == id {
        v.drop_first()
    } else {
        seq![v[0]] + spec_deregister(v.drop_first(), id)
    }
}

/// The shared registry of live plugins, keyed by plugin name.
pub struct Registry {
    plugins: Vec<PluginEntry>,
}

/// The plugin names, in registry order.
pub open spec fn plugin_names(plugins: Seq<PluginEntry>) -> Seq<Seq<char>> {
    plugins.map_values(|p: PluginEntry| p.name@)
}

impl View for Registry {
    type V = Seq<PluginEntry>;

    closed spec fn view(&self) -> Seq<PluginEntry> {
        self.plugins@
    }
}

impl Registry {
    /// The registry's invariant: one entry per plugin name.
    pub open spec fn wf(&self) -> bool {
        forall|i: int, j: int|
            0 <= i < j < self@.len()
                ==> (#[trigger] self@[i]).name@ != (#[trigger] self@[j]).name@
    }

    /// An empty registry; no plugin processes exist yet.
    pub fn new() -> (r: Registry)
        ensures
            r@ == Seq::<PluginEntry>::empty(),
            r.wf(),
    {
        Registry { plugins: Vec::new() }
    }

    /// The position of the plugin with this name, if it is loaded.
    pub fn find(&self, name: &str) -> (r: Option<usize>)
        ensures
            match r {
                Some(i) => 0 <= i < self@.len() && self@[i as int].name@ == name@,
                None => forall|j: int|
                    0 <= j < self@.len() ==> (#[trigger] self@[j]).name@ != name@,
            },
    {
        let n = self.plugins.len();
        let mut i: usize = 0;
        while i < n
            invariant
                0 <= i <= n,
                n == self@.len(),
                forall|j: int| 0 <= j < i ==> (#[trigger] self@[j]).name@ != name@,
            decreases n - i,
        {
            if str_eq(self.plugins[i].name.as_str(), name) {
                return Some(i);
            }
            i = i + 1;
        }
        None
    }

    /// The names of every loaded plugin, what the shell lists as the
    /// available source plugins.
    pub fn list_plugin_names(&self) -> (r: Vec<String>)
        ensures
            r.deep_view() == plugin_names(self@),
    {
        let n = self.plugins.len();
        let mut out: Vec<String> = Vec::new();
        let mut i: usize = 0;
        proof {
            assert(out.deep_view() =~= plugin_names(self@.take(0)));
        }
        while i < n
            invariant
                0 <= i <= n,
                n == self@.len(),
                out.deep_view() == plugin_names(self@.take(i as int)),
            decreases n - i,
        {
            let ghost prev = out.deep_view();
            out.push(self.plugins[i].name.clone());
            proof {
                assert(out.deep_view() =~= prev.push(self@[i as int].name@));
                assert(plugin_names(self@.take(i + 1)) =~= prev.push(self@[i as int].name@));
            }
            i = i + 1;
        }
        proof {
            assert(self@.take(n as int) =~= self@);
        }
        out
    }

    /// The instances registered against a plugin, or not-found for an
    /// unknown plugin name; registering never creates a placeholder.
    pub fn instances_of(&self, plugin: &str) -> (r: Result<&Vec<InstanceEntry>, HostError>)
        ensures
            match r {
                Ok(v) => exists|i: int|
                    0 <= i < self@.len() && (#[trigger] self@[i]).name@ == plugin@
                        && v@ == self@[i].instances@,
                Err(e) => e == HostError::NotFound && forall|j: int|
                    0 <= j < self@.len() ==> (#[trigger] self@[j]).name@ != plugin@,
            },
    {
        match self.find(plugin) {
            Some(i) => Ok(&self.plugins[i].instances),
            None => Err(HostError::NotFound),
        }
    }

    /// Registers (or re-registers) an instance against a loaded plugin;
    /// reports whether an existing instance was overwritten. An unknown
    /// plugin name is not-found and creates nothing.
    pub fn register_instance(&mut self, plugin: &str, instance: &str, params: Vec<u8>) -> (r:
        Result<bool, HostError>)
        requires
            old(self).wf(),
        ensures
            final(self).wf(),
            final(self)@.len() == old(self)@.len(),
            match r {
                Ok(overwrote) => exists|i: int|
                    {
                        &&& 0 <= i < old(self)@.len()
                        &&& (#[trigger] old(self)@[i]).name@ == plugin@
                        &&& {
                            let reg = spec_register(
                                inst_view(old(self)@[i].instances@),
                                instance@,
                                params@,
                            );
                            &&& inst_view(final(self)@[i].instances@) == reg.0
                            &&& overwrote == reg.1
                            &&& final(self)@[i].name@ == old(self)@[i].name@
                            &&& final(self)@[i].pid == old(self)@[i].pid
                        }
                        &&& forall|j: int|
                            0 <= j < old(self)@.len() && j != i
                                ==> #[trigger] final(self)@[j] == old(self)@[j]
                    },
                Err(e) => {
                    &&& e == HostError::NotFound
                    &&& final(self)@ == old(self)@
                    &&& forall|j: int|
                        0 <= j < old(self)@.len() ==> (#[trigger] old(self)@[j]).name@ != plugin@
                },
            },
    {
        let at = match self.find(plugin) {
            Some(i) => i,
            None => {
                return Err(HostError::NotFound);
            },
        };
        let entry = &self.plugins[at];
        let n = entry.instances.len();
        let mut k: usize = 0;
        while k < n
            invariant
                0 <= k <= n,
                at < self@.len(),
                n == self@[at as int].instances@.len(),
                self@ == old(self)@,
                old(self).wf(),
                self@[at as int].name@ == plugin@,
                forall|x: int|
                    0 <= x < k ==> (#[trigger] self@[at as int].instances@[x]).id@ != instance@,
            decreases n - k,
        {
            if str_eq(self.plugins[at].instances[k].id.as_str(), instance) {
                let fresh = InstanceEntry { id: instance.to_owned(), params };
                let ghost old_insts = self@[at as int].instances@;
                let plugin_entry = &mut self.plugins[at];
                plugin_entry.instances.set(k, fresh);
                proof {
                    lemma_register_at(
                        inst_view(old_insts),
                        instance@,
                        params@,
                        k as int,
                    );
                    assert(inst_view(self@[at as int].instances@) =~= inst_view(
                        old_insts,
                    ).update(k as int, (instance@, params@)));
                    assert(forall|j: int|
                        0 <= j < self@.len() && j != at as int
                            ==> #[trigger] self@[j] == old(self)@[j]);
                    assert(forall|i: int|
                        0 <= i < self@.len()
                            ==> (#[trigger] self@[i]).name@ == old(self)@[i].name@);
                    lemma_wf_same_names(old(self)@, self@);
                }
                return Ok(true);
            }
            k = k + 1;
        }
        let fresh = InstanceEntry { id: instance.to_owned(), params };
        let ghost old_insts = self@[at as int].instances@;
        let plugin_entry = &mut self.plugins[at];
        plugin_entry.instances.push(fresh);
        proof {
            lemma_register_missing(inst_view(old_insts), instance@, params@);
            assert(inst_view(self@[at as int].instances@) =~= inst_view(old_insts).push(
                (instance@, params@),
            ));
            assert(forall|j: int|
                0 <= j < self@.len() && j != at as int
                    ==> #[trigger] self@[j] == old(self)@[j]);
            assert(forall|i: int|
                0 <= i < self@.len() ==> (#[trigger] self@[i]).name@ == old(self)@[i].name@);
            lemma_wf_same_names(old(self)@, self@);
        }
        Ok(false)
    }

    /// Removes an instance from a loaded plugin; not-found for an unknown
    /// plugin or an instance that was never registered.
    pub fn deregister_instance(&mut self, plugin: &str, instance: &str) -> (r: Result<
        (),
        HostError,
    >)
        requires
            old(self).wf(),
        ensures
            final(self).wf(),
            final(self)@.len() == old(self)@.len(),
            match r {
                Ok(_) => exists|i: int|
                    {
                        &&& 0 <= i < old(self)@.len()
                        &&& (#[trigger] old(self)@[i]).name@ == plugin@
                        &&& has_key(inst_view(old(self)@[i].instances@), instance@)
                        &&& inst_view(final(self)@[i].instances@) == spec_deregister(
                            inst_view(old(self)@[i].instances@),
                            instance@,
                        )
                        &&& final(self)@[i].name@ == old(self)@[i].name@
                        &&& final(self)@[i].pid == old(self)@[i].pid
                        &&& forall|j: int|
                            0 <= j < old(self)@.len() && j != i
                                ==> #[trigger] final(self)@[j] == old(self)@[j]
                    },
                Err(e) => {
                    &&& e == HostError::NotFound
                    &&& final(self)@ == old(self)@
                },
            },
    {
        let at = match self.find(plugin) {
            Some(i) => i,
            None => {
                return Err(HostError::NotFound);
            },
        };
        let n = self.plugins[at].instances.len();
        let mut k: usize = 0;
        while k < n
            invariant
                0 <= k <= n,
                at < self@.len(),
                n == self@[at as int].instances@.len(),
                self@ == old(self)@,
                old(self).wf(),
                self@[at as int].name@ == plugin@,
                forall|x: int|
                    0 <= x < k ==> (#[trigger] self@[at as int].instances@[x]).id@ != instance@,
            decreases n - k,
        {
            if str_eq(self.plugins[at].instances[k].id.as_str(), instance) {
                let ghost old_insts = self@[at as int].instances@;
                let plugin_entry = &mut self.plugins[at];
                plugin_entry.instances.remove(k);
                proof {
                    lemma_deregister_at(inst_view(old_insts), instance@, k as int);
                    assert(inst_view(self@[at as int].instances@) =~= inst_view(
                        old_insts,
                    ).remove(k as int));
                    assert(inst_view(old_insts)[k as int].0 == instance@);
                    assert(has_key(inst_view(old_insts), instance@));
                    assert(forall|j: int|
                        0 <= j < self@.len() && j != at as int
                            ==> #[trigger] self@[j] == old(self)@[j]);
                    assert(forall|i: int|
                        0 <= i < self@.len()
                            ==> (#[trigger] self@[i]).name@ == old(self)@[i].name@);
                    lemma_wf_same_names(old(self)@, self@);
                }
                return Ok(());
            }
            k = k + 1;
        }
        Err(HostError::NotFound)
    }

    /// Removes a plugin entirely and hands back the process id of its
    /// child, which the caller must terminate: removing the handle and
    /// killing the process go together.
    pub fn remove_plugin(&mut self, name: &str) -> (r: Option<u64>)
        requires
            old(self).wf(),
        ensures
            final(self).wf(),
            match r {
                Some(pid) => exists|i: int|
                    {
                        &&& 0 <= i < old(self)@.len()
                        &&& (#[trigger] old(self)@[i]).name@ == name@
                        &&& pid == old(self)@[i].pid
                        &&& final(self)@ == old(self)@.remove(i)
                    },
                None => {
                    &&& final(self)@ == old(self)@
                    &&& forall|j: int|
                        0 <= j < old(self)@.len() ==> (#[trigger] old(self)@[j]).name@ != name@
                },
            },
    {
        match self.find(name) {
            Some(i) => {
                let entry = self.plugins.remove(i);
                proof {
                    assert forall|a: int, b: int| 0 <= a < b < self@.len() implies
                        (#[trigger] self@[a]).name@ != (#[trigger] self@[b]).name@ by {
                        if b < i {
                            assert(self@[a] == old(self)@[a] && self@[b] == old(self)@[b]);
                        } else if a < i {
                            assert(self@[a] == old(self)@[a] && self@[b] == old(self)@[b + 1]);
                        } else {
                            assert(self@[a] == old(self)@[a + 1] && self@[b] == old(self)@[b + 1]);
                        }
                    }
                }
                Some(entry.pid)
            },
            None => None,
        }
    }

    /// Installs a freshly handshaken plugin. A plugin of the same name is
    /// replaced, and its process id comes back for the caller to kill.
    pub fn insert_plugin(&mut self, entry: PluginEntry) -> (r: Option<u64>)
        requires
            old(self).wf(),
        ensures
            final(self).wf(),
            contains_plugin(final(self)@, entry.name@),
            forall|nm: Seq<char>|
                contains_plugin(old(self)@, nm) ==> #[trigger] contains_plugin(final(self)@, nm),
            match r {
                Some(pid) => exists|i: int|
                    {
                        &&& 0 <= i < old(self)@.len()
                        &&& (#[trigger] old(self)@[i]).name@ == entry.name@
                        &&& pid == old(self)@[i].pid
                        &&& final(self)@ == old(self)@.update(i, entry)
                    },
                None => {
                    &&& final(self)@ == old(self)@.push(entry)
                    &&& forall|j: int|
                        0 <= j < old(self)@.len()
                            ==> (#[trigger] old(self)@[j]).name@ != entry.name@
                },
            },
    {
        match self.find(entry.name.as_str()) {
            Some(i) => {
                let old_pid = self.plugins[i].pid;
                let ghost slot = i as int;
                self.plugins.set(i, entry);
                proof {
                    assert forall|a: int, b: int| 0 <= a < b < self@.len() implies
                        (#[trigger] self@[a]).name@ != (#[trigger] self@[b]).name@ by {
                        assert(old(self)@[a].name@ != old(self)@[b].name@);
                    }
                    assert(self@[slot].name@ == old(self)@[slot].name@);
                    assert forall|nm: Seq<char>|
                        contains_plugin(old(self)@, nm) implies #[trigger] contains_plugin(
                        self@,
                        nm,
                    ) by {
                        let w = choose|w: int|
                            0 <= w < old(self)@.len() && (#[trigger] old(self)@[w]).name@ == nm;
                        assert(self@[w].name@ == nm);
                    }
                }
                Some(old_pid)
            },
            None => {
                self.plugins.push(entry);
                proof {
                    assert forall|a: int, b: int| 0 <= a < b < self@.len() implies
                        (#[trigger] self@[a]).name@ != (#[trigger] self@[b]).name@ by {
                        if b < self@.len() - 1 {
                            assert(old(self)@[a].name@ != old(self)@[b].name@);
                        } else {
                            assert(self@[b].name@ == entry.name@);
                            assert(old(self)@[a].name@ != entry.name@);
                        }
                    }
                    assert(self@[self@.len() - 1].name@ == entry.name@);
                    assert forall|nm: Seq<char>|
                        contains_plugin(old(self)@, nm) implies #[trigger] contains_plugin(
                        self@,
                        nm,
                    ) by {
                        let w = choose|w: int|
                            0 <= w < old(self)@.len() && (#[trigger] old(self)@[w]).name@ == nm;
                        assert(self@[w].name@ == nm);
                    }
                }
                None
            },
        }
    }
}

/// What became of one discovered plugin file: skipped before spawning for
/// want of the execute bit, failed to spawn, failed its handshake (the
/// spawned process must then be killed and never registered), or ready
/// after a successful handshake.
#[derive(Debug)]
pub enum PluginLoadResult {
    /// The file lacks execute permission; nothing was spawned.
    NotExecutable { file: String },
    /// Spawning the executable failed.
    SpawnFailed { file: String },
    /// The version/name handshake failed; the caller kills this process.
    HandshakeFailed { file: String, pid: u64 },
    /// Handshake done: the plugin told us its name.
    Ready { name: String, pid: u64 },
}

/// Whether a discovery outcome failed (anything short of a handshake).
pub open spec fn load_failed(r: PluginLoadResult) -> bool {
    !(r is Ready)
}

/// The files of the failed outcomes among the first `upto`, in order.
pub open spec fn failed_files(results: Seq<PluginLoadResult>, upto: int) -> Seq<Seq<char>>
    decreases upto,
{
    if upto <= 0 {
        Seq::empty()
    } else {
        let rest = failed_files(results, upto - 1);
        match results[upto - 1] {
            PluginLoadResult::NotExecutable { file } => rest.push(file@),
            PluginLoadResult::SpawnFailed { file } => rest.push(file@),
            PluginLoadResult::HandshakeFailed { file, .. } => rest.push(file@),
            PluginLoadResult::Ready { .. } => rest,
        }
    }
}

/// The names of the ready outcomes among the first `upto`, in order.
pub open spec fn ready_names(results: Seq<PluginLoadResult>, upto: int) -> Seq<Seq<char>>
    decreases upto,
{
    if upto <= 0 {
        Seq::empty()
    } else {
        let rest = ready_names(results, upto - 1);
        match results[upto - 1] {
            PluginLoadResult::Ready { name, .. } => rest.push(name@),
            _ => rest,
        }
    }
}

/// `e` is one of the registry's entries, exactly as it stands.
pub open spec fn has_entry(plugins: Seq<PluginEntry>, e: PluginEntry) -> bool {
    exists|i: int| 0 <= i < plugins.len() && plugins[i] == e
}

/// Some registry entry carries this plugin name.
pub open spec fn contains_plugin(plugins: Seq<PluginEntry>, name: Seq<char>) -> bool {
    exists|i: int| 0 <= i < plugins.len() && (#[trigger] plugins[i]).name@ == name
}

impl Registry {
    /// Folds a whole discovery pass into the registry: every ready plugin
    /// is installed (a name collision replaces the old entry, whose
    /// process id lands in the second result for the caller to kill, as a
    /// handshake-failed process does), and every failure yields one
    /// error-severity log event naming the file. Failures are per-plugin
    /// and never abort the pass.
    pub fn load_all(&mut self, results: Vec<PluginLoadResult>) -> (r: (Vec<LogEvent>, Vec<u64>))
        requires
            old(self).wf(),
        ensures
            final(self).wf(),
            r.0@.map_values(|e: LogEvent| e.message@) == failed_files(
                results@,
                results@.len() as int,
            ),
            forall|e: int| 0 <= e < r.0@.len() ==> (#[trigger] r.0@[e]).level == LogLevel::Error,
            forall|k: int|
                0 <= k < results@.len() ==> ((#[trigger] results@[k]) matches
                    PluginLoadResult::Ready { name, .. }
                    ==> contains_plugin(final(self)@, name@)),
            forall|k: int|
                0 <= k < results@.len() ==> ((#[trigger] results@[k]) matches
                    PluginLoadResult::HandshakeFailed { pid, .. } ==> r.1@.contains(pid)),
            forall|x: int|
                0 <= x < final(self)@.len() ==> contains_plugin(
                    old(self)@,
                    (#[trigger] final(self)@[x]).name@,
                ) || ready_names(results@, results@.len() as int).contains(
                    final(self)@[x].name@,
                ),
            forall|x: int|
                0 <= x < final(self)@.len() && !ready_names(
                    results@,
                    results@.len() as int,
                ).contains((#[trigger] final(self)@[x]).name@) ==> has_entry(
                    old(self)@,
                    final(self)@[x],
                ),
            forall|j: int|
                0 <= j < old(self)@.len() && !ready_names(
                    results@,
                    results@.len() as int,
                ).contains((#[trigger] old(self)@[j]).name@) ==> has_entry(
                    final(self)@,
                    old(self)@[j],
                ),
            ready_names(results@, results@.len() as int).len() == 0 ==> final(self)@ == old(
                self,
            )@,
    {
        let ghost all = results@;
        let mut rest = results;
        let mut events: Vec<LogEvent> = Vec::new();
        let mut stale_pids: Vec<u64> = Vec::new();
        let n = rest.len();
        let mut i: usize = 0;
        proof {
            assert(events@.map_values(|e: LogEvent| e.message@) =~= failed_files(all, 0));
            assert(rest@ =~= all.subrange(0, n as int));
        }
        while i < n
            invariant
                0 <= i <= n,
                n == all.len(),
                rest@ == all.subrange(i as int, n as int),
                self.wf(),
                events@.map_values(|e: LogEvent| e.message@) == failed_files(all, i as int),
                forall|e: int|
                    0 <= e < events@.len() ==> (#[trigger] events@[e]).level == LogLevel::Error,
                forall|k: int|
                    0 <= k < i ==> ((#[trigger] all[k]) matches PluginLoadResult::Ready {
                        name,
                        ..
                    } ==> contains_plugin(self@, name@)),
                forall|k: int|
                    0 <= k < i ==> ((#[trigger] all[k]) matches
                        PluginLoadResult::HandshakeFailed { pid, .. } ==> stale_pids@.contains(
                        pid,
                    )),
                forall|x: int|
                    0 <= x < self@.len() ==> contains_plugin(
                        old(self)@,
                        (#[trigger] self@[x]).name@,
                    ) || ready_names(all, i as int).contains(self@[x].name@),
                forall|x: int|
                    0 <= x < self@.len() && !ready_names(all, i as int).contains(
                        (#[trigger] self@[x]).name@,
                    ) ==> has_entry(old(self)@, self@[x]),
                forall|j: int|
                    0 <= j < old(self)@.len() && !ready_names(all, i as int).contains(
                        (#[trigger] old(self)@[j]).name@,
                    ) ==> has_entry(self@, old(self)@[j]),
                ready_names(all, i as int).len() == 0 ==> self@ == old(self)@,
            decreases n - i,
        {
            let ghost prev_msgs = events@.map_values(|e: LogEvent| e.message@);
            let result = rest.remove(0);
            proof {
                assert(result == all[i as int]);
                assert(rest@ =~= all.subrange(i + 1, n as int));
            }
            match result {
                PluginLoadResult::NotExecutable { file } => {
                    events.push(LogEvent { message: file, level: LogLevel::Error });
                },
                PluginLoadResult::SpawnFailed { file } => {
                    events.push(LogEvent { message: file, level: LogLevel::Error });
                },
                PluginLoadResult::HandshakeFailed { file, pid } => {
                    let ghost prev_stale = stale_pids@;
                    stale_pids.push(pid);
                    proof {
                        assert(stale_pids@.contains(pid)) by {
                            assert(stale_pids@[stale_pids@.len() - 1] == pid);
                        }
                        assert forall|p: u64| prev_stale.contains(p) implies
                            stale_pids@.contains(p) by {
                            let w = choose|w: int|
                                0 <= w < prev_stale.len() && prev_stale[w] == p;
                            assert(stale_pids@[w] == p);
                        }
                    }
                    events.push(LogEvent { message: file, level: LogLevel::Error });
                },
                PluginLoadResult::Ready { name, pid } => {
                    let ghost before = self@;
                    let ghost fresh_name = name@;
                    let replaced = self.insert_plugin(
                        PluginEntry { name, pid, instances: Vec::new() },
                    );
                    if let Some(old_pid) = replaced {
                        let ghost prev_stale = stale_pids@;
                        stale_pids.push(old_pid);
                        proof {
                            assert forall|p: u64| prev_stale.contains(p) implies
                                stale_pids@.contains(p) by {
                                let w = choose|w: int|
                                    0 <= w < prev_stale.len() && prev_stale[w] == p;
                                assert(stale_pids@[w] == p);
                            }
                        }
                    }
                    proof {
                        assert(contains_plugin(self@, fresh_name));
                        let rn = ready_names(all, i as int);
                        let rn2 = ready_names(all, i + 1);
                        assert(rn2 =~= rn.push(fresh_name));
                        assert forall|nm: Seq<char>| rn.contains(nm) implies rn2.contains(
                            nm,
                        ) by {
                            let w = choose|w: int| 0 <= w < rn.len() && rn[w] == nm;
                            assert(rn2[w] == nm);
                        }
                        assert(rn2[rn2.len() - 1] == fresh_name);
                        assert forall|x: int|
                            0 <= x < self@.len() && !rn2.contains(
                                (#[trigger] self@[x]).name@,
                            ) implies has_entry(old(self)@, self@[x]) by {
                            assert(self@[x].name@ != fresh_name);
                            match replaced {
                                Some(_) => {
                                    let w = choose|w: int|
                                        {
                                            &&& 0 <= w < before.len()
                                            &&& (#[trigger] before[w]).name@ == fresh_name
                                            &&& self@ == before.update(
                                                w,
                                                PluginEntry {
                                                    name: self@[w].name,
                                                    pid: self@[w].pid,
                                                    instances: self@[w].instances,
                                                },
                                            )
                                        };
                                    assert(x != w);
                                    assert(self@[x] == before[x]);
                                },
                                None => {
                                    assert(self@[self@.len() - 1].name@ == fresh_name);
                                    assert(x < self@.len() - 1);
                                    assert(self@[x] == before[x]);
                                },
                            }
                        }
                        assert forall|j: int|
                            0 <= j < old(self)@.len() && !rn2.contains(
                                (#[trigger] old(self)@[j]).name@,
                            ) implies has_entry(self@, old(self)@[j]) by {
                            assert(!rn.contains(old(self)@[j].name@));
                            assert(has_entry(before, old(self)@[j]));
                            let x = choose|x: int|
                                0 <= x < before.len() && before[x] == old(self)@[j];
                            assert(before[x].name@ != fresh_name);
                            assert(self@[x] == before[x]);
                        }
                    }
                },
            }
            proof {
                assert(events@.map_values(|e: LogEvent| e.message@) =~= failed_files(
                    all,
                    i + 1,
                ));
                if !(all[i as int] is Ready) {
                    assert(ready_names(all, i + 1) =~= ready_names(all, i as int));
                }
            }
            i = i + 1;
        }
        (events, stale_pids)
    }
}

/// On unix, a file can be run when any execute bit of its mode is set;
/// discovery skips the rest.
pub fn mode_grants_execute(mode: u32) -> (r: bool)
    ensures
        r == (mode & 0o111 != 0),
{
    mode & 0o111 != 0
}

/// Replacing names nowhere keeps the registry invariant.
proof fn lemma_wf_same_names(before: Seq<PluginEntry>, after: Seq<PluginEntry>)
    requires
        before.len() == after.len(),
        forall|i: int, j: int|
            0 <= i < j < before.len() ==> (#[trigger] before[i]).name@ != (
            #[trigger] before[j]).name@,
        forall|i: int| 0 <= i < after.len() ==> (#[trigger] after[i]).name@ == before[i].name@,
    ensures
        forall|i: int, j: int|
            0 <= i < j < after.len() ==> (#[trigger] after[i]).name@ != (#[trigger] after[j]).name@,
{
}

/// Registering over the first matching entry is an update in place.
pub proof fn lemma_register_at(v: Seq<(Seq<char>, Seq<u8>)>, id: Seq<char>, params: Seq<u8>, k: int)
    requires
        0 <= k < v.len(),
        v[k].0 == id,
        forall|x: int| 0 <= x < k ==> (#[trigger] v[x]).0 != id,
    ensures
        spec_register(v, id, params) == (v.update(k, (id, params)), true),
    decreases k,
{
    if k == 0 {
        assert(seq![(id, params)] + v.drop_first() =~= v.update(0, (id, params)));
    } else {
        assert(forall|x: int|
            0 <= x < k - 1 ==> (#[trigger] v.drop_first()[x]).0 == v[x + 1].0);
        lemma_register_at(v.drop_first(), id, params, k - 1);
        assert(seq![v[0]] + v.drop_first().update(k - 1, (id, params)) =~= v.update(
            k,
            (id, params),
        ));
    }
}

/// Registering an id that is absent appends a fresh entry.
pub proof fn lemma_register_missing(v: Seq<(Seq<char>, Seq<u8>)>, id: Seq<char>, params: Seq<u8>)
    requires
        forall|x: int| 0 <= x < v.len() ==> (#[trigger] v[x]).0 != id,
    ensures
        spec_register(v, id, params) == (v.push((id, params)), false),
    decreases v.len(),
{
    if v.len() == 0 {
        assert(seq![(id, params)] =~= v.push((id, params)));
    } else {
        assert(forall|x: int|
            0 <= x < v.len() - 1 ==> (#[trigger] v.drop_first()[x]).0 == v[x + 1].0);
        lemma_register_missing(v.drop_first(), id, params);
        assert(seq![v[0]] + v.drop_first().push((id, params)) =~= v.push((id, params)));
    }
}

/// Deregistering the first matching entry removes it in place.
pub proof fn lemma_deregister_at(v: Seq<(Seq<char>, Seq<u8>)>, id: Seq<char>, k: int)
    requires
        0 <= k < v.len(),
        v[k].0 == id,
        forall|x: int| 0 <= x < k ==> (#[trigger] v[x]).0 != id,
    ensures
        spec_deregister(v, id) == v.remove(k),
    decreases k,
{
    if k == 0 {
        assert(v.drop_first() =~= v.remove(0));
    } else {
        assert(forall|x: int|
            0 <= x < k - 1 ==> (#[trigger] v.drop_first()[x]).0 == v[x + 1].0);
        lemma_deregister_at(v.drop_first(), id, k - 1);
        assert(seq![v[0]] + v.drop_first().remove(k - 1) =~= v.remove(k));
    }
}


/// Deregistering an absent id changes nothing.
pub proof fn lemma_deregister_missing(v: Seq<(Seq<char>, Seq<u8>)>, id: Seq<char>)
    requires
        forall|x: int| 0 <= x < v.len() ==> (#[trigger] v[x]).0 != id,
    ensures
        spec_deregister(v, id) == v,
    decreases v.len(),
{
    if v.len() > 0 {
        assert(forall|x: int|
            0 <= x < v.len() - 1 ==> (#[trigger] v.drop_first()[x]).0 == v[x + 1].0);
        lemma_deregister_missing(v.drop_first(), id);
        assert(seq![v[0]] + v.drop_first() =~= v);
    }
}

/// Registering reports an overwrite exactly when the id was present.
pub proof fn lemma_register_reports(v: Seq<(Seq<char>, Seq<u8>)>, id: Seq<char>, params: Seq<u8>)
    ensures
        spec_register(v, id, params).1 == has_key(v, id),
    decreases v.len(),
{
    if v.len() > 0 && v[0].0 != id {
        lemma_register_reports(v.drop_first(), id, params);
        assert(forall|x: int|
            0 <= x < v.len() - 1 ==> #[trigger] v.drop_first()[x] == v[x + 1]);
        if has_key(v.drop_first(), id) {
            let w = choose|i: int| 0 <= i < v.drop_first().len() && (#[trigger] v.drop_first()[i]).0 == id;
            assert(v[w + 1].0 == id);
        } else if has_key(v, id) {
            let w = choose|i: int| 0 <= i < v.len() && (#[trigger] v[i]).0 == id;
            assert(v.drop_first()[w - 1].0 == id);
        }
    }
}

/// After registering, the stored parameters under the id are the ones
/// just given.
pub proof fn lemma_register_stores(v: Seq<(Seq<char>, Seq<u8>)>, id: Seq<char>, params: Seq<u8>)
    ensures
        lookup(spec_register(v, id, params).0, id) == Some(params),
        has_key(spec_register(v, id, params).0, id),
    decreases v.len(),
{
    let out = spec_register(v, id, params).0;
    if v.len() == 0 {
        assert(out[0].0 == id);
    } else if v[0].0 == id {
        assert(out[0] == (id, params));
        assert(out[0].0 == id);
    } else {
        lemma_register_stores(v.drop_first(), id, params);
        let rest = spec_register(v.drop_first(), id, params).0;
        assert(out[0] == v[0]);
        assert(out.drop_first() =~= rest);
        let w = choose|i: int| 0 <= i < rest.len() && (#[trigger] rest[i]).0 == id;
        assert(out[w + 1].0 == id);
    }
}

/// Re-registering the same instance twice reports no overwrite the first
/// time and an overwrite the second, and the stored parameters reflect
/// the latest call.
pub proof fn lemma_reregister_twice(
    v: Seq<(Seq<char>, Seq<u8>)>,
    id: Seq<char>,
    params1: Seq<u8>,
    params2: Seq<u8>,
)
    requires
        !has_key(v, id),
    ensures
        !spec_register(v, id, params1).1,
        spec_register(spec_register(v, id, params1).0, id, params2).1,
        lookup(spec_register(spec_register(v, id, params1).0, id, params2).0, id) == Some(
            params2,
        ),
{
    lemma_register_reports(v, id, params1);
    let v1 = spec_register(v, id, params1).0;
    lemma_register_stores(v, id, params1);
    lemma_register_reports(v1, id, params2);
    lemma_register_stores(v1, id, params2);
}

} // verus!
