//! The config reactor. External configuration writes are debounced into
//! settled changes; a settled change is diffed against the previous
//! configuration, and the differences become registry, queue and
//! scheduler work: removed instances are deregistered and purged, added
//! or changed instances are re-registered (an overwrite purging the
//! source's staged rows), and interval changes go to the scheduler.
//! Malformed source keys are skipped with a log event, never fatal to the
//! pass.

use vstd::prelude::*;

use crate::HostError;
use crate::keys::{has_separator, split_key, splits_key};
use crate::logging::LogBehaviour;
use crate::registry::{PluginHostMode, has_key, lookup, spec_register, spec_deregister, lemma_register_at, lemma_register_missing, lemma_deregister_at, lemma_deregister_missing};

verus! {

/// One configured source instance: the composite key and the opaque
/// parameter blob owned by the plugin.
#[derive(Debug)]
pub struct SourceEntry {
    /// `pluginName_instanceId`.
    pub key: String,
    /// The plugin-defined parameters, as an opaque blob.
    pub params: Vec<u8>,
}

/// The sources as pairs of key characters and parameter bytes.
pub open spec fn src_view(sources: Seq<SourceEntry>) -> Seq<(Seq<char>, Seq<u8>)> {
    sources.map_values(|e: SourceEntry| (e.key@, e.params@))
}

/// The application configuration the reactor watches.
#[derive(Debug)]
pub struct AppConfig {
    /// Whether the shell shows a window background.
    pub display_background: bool,
    /// The configured source instances, one entry per key.
    pub sources: Vec<SourceEntry>,
    /// How often to rotate, in milliseconds; zero disables rotation.
    pub interval_ms: u64,
    /// Where downloaded wallpapers are cached.
    pub cache_dir: String,
    /// How plugin processes are kept.
    pub plugin_host_mode: PluginHostMode,
    /// The cache byte budget, in whole mebibytes.
    pub cache_size_mib: u64,
    /// Where plugin executables are discovered, if set.
    pub plugins_dir: Option<String>,
    /// How many shown rows trimming keeps per source.
    pub history_amount: u64,
    /// The shell theme name.
    pub theme: String,
    /// Where log events go.
    pub logging: Vec<LogBehaviour>,
}

impl Default for AppConfig {
    /// The configuration a fresh installation starts from: no sources,
    /// hourly rotation, a hundred-mebibyte cache, ten rows of history.
    fn default() -> (r: AppConfig)
        ensures
            r.display_background == true,
            r.sources@.len() == 0,
            r.interval_ms == 3_600_000,
            r.cache_dir@.len() == 0,
            r.plugin_host_mode == PluginHostMode::Daemon,
            r.cache_size_mib == 100,
            r.plugins_dir is None,
            r.history_amount == 10,
            r.theme@ == "default"@,
            r.logging@.len() == 0,
    {
        proof {
            reveal_strlit("default");
        }
        AppConfig {
            display_background: true,
            sources: Vec::new(),
            interval_ms: 3_600_000,
            cache_dir: String::new(),
            plugin_host_mode: PluginHostMode::Daemon,
            cache_size_mib: 100,
            plugins_dir: None,
            history_amount: 10,
            theme: String::from_str("default"),
            logging: Vec::new(),
        }
    }
}

/// Debounces rapid configuration writes into one settled change. A write
/// arms a deadline one window after it; a poll at or past the deadline
/// fires the settled change and disarms. Writes inside the window only
/// push the deadline out, so a burst fires once.
#[derive(Clone, Copy, Debug, PartialEq, Eq, Structural)]
pub struct Debouncer {
    /// The debounce window in milliseconds.
    pub window_ms: u64,
    /// When the pending change settles, if one is pending.
    pub deadline_ms: Option<u64>,
}

/// A poll at `now_ms` fires when a pending deadline has been reached.
pub open spec fn debounce_fires(d: Debouncer, now_ms: u64) -> bool {
    match d.deadline_ms {
        Some(t) => now_ms >= t,
        None => false,
    }
}

impl Debouncer {
    /// A debouncer with this window and nothing pending.
    pub fn new(window_ms: u64) -> (r: Debouncer)
        ensures
            r.window_ms == window_ms,
            r.deadline_ms is None,
    {
        Debouncer { window_ms, deadline_ms: None }
    }

    /// Notes one configuration write at `now_ms`: the pending change now
    /// settles a full window later, however many writes came before.
    pub fn note_write(&mut self, now_ms: u64)
        requires
            now_ms + old(self).window_ms <= u64::MAX,
        ensures
            final(self).window_ms == old(self).window_ms,
            final(self).deadline_ms == Some((now_ms + old(self).window_ms) as u64),
    {
        self.deadline_ms = Some(now_ms + self.window_ms);
    }

    /// Polls at `now_ms`: reports whether the pending change has settled,
    /// and disarms when it has. One settled change is reported exactly
    /// once.
    pub fn poll(&mut self, now_ms: u64) -> (fire: bool)
        ensures
            fire == debounce_fires(*old(self), now_ms),
            final(self).window_ms == old(self).window_ms,
            final(self).deadline_ms == if fire {
                Option::<u64>::None
            } else {
                old(self).deadline_ms
            },
    {
        match self.deadline_ms {
            Some(t) => {
                if now_ms >= t {
                    self.deadline_ms = None;
                    true
                } else {
                    false
                }
            },
            None => false,
        }
    }
}

/// Three configuration writes inside one debounce window settle into
/// exactly one pass: no poll between the writes fires, the first poll a
/// full window after the last write fires, and the poll after that does
/// not fire again.
pub proof fn lemma_burst_settles_once(
    window_ms: u64,
    t1: u64,
    t2: u64,
    t3: u64,
    settled: u64,
    later: u64,
)
    requires
        t1 <= t2 <= t3,
        t2 < t1 + window_ms,
        t3 < t2 + window_ms,
        t3 + window_ms <= settled <= later,
        t3 + window_ms <= u64::MAX,
    ensures
        ({
            let after_first = Debouncer {
                window_ms,
                deadline_ms: Some((t1 + window_ms) as u64),
            };
            let after_second = Debouncer {
                window_ms,
                deadline_ms: Some((t2 + window_ms) as u64),
            };
            let after_third = Debouncer {
                window_ms,
                deadline_ms: Some((t3 + window_ms) as u64),
            };
            let quiet = Debouncer { window_ms, deadline_ms: None };
            &&& !debounce_fires(after_first, t2)
            &&& !debounce_fires(after_second, t3)
            &&& debounce_fires(after_third, settled)
            &&& !debounce_fires(quiet, later)
        }),
{
}

/// The keys of `before` that `after` no longer holds, in order: the
/// instances a settled change removed.
pub open spec fn spec_removed(
    before: Seq<(Seq<char>, Seq<u8>)>,
    after: Seq<(Seq<char>, Seq<u8>)>,
    upto: int,
) -> Seq<Seq<char>>
    decreases upto,
{
    if upto <= 0 {
        Seq::empty()
    } else {
        let rest = spec_removed(before, after, upto - 1);
        if !has_key(after, before[upto - 1].0) {
            rest.push(before[upto - 1].0)
        } else {
            rest
        }
    }
}

/// The keys of `after` that `before` lacked or stored other parameters
/// under, in order: the instances a settled change added or changed.
pub open spec fn spec_changed(
    before: Seq<(Seq<char>, Seq<u8>)>,
    after: Seq<(Seq<char>, Seq<u8>)>,
    upto: int,
) -> Seq<Seq<char>>
    decreases upto,
{
    if upto <= 0 {
        Seq::empty()
    } else {
        let rest = spec_changed(before, after, upto - 1);
        if lookup(before, after[upto - 1].0) != Some(after[upto - 1].1) {
            rest.push(after[upto - 1].0)
        } else {
            rest
        }
    }
}

/// The parameters stored under a key, first match; `None` for an absent
/// key.
pub fn find_params<'a>(sources: &'a Vec<SourceEntry>, key: &str) -> (r: Option<&'a Vec<u8>>)
    ensures
        match r {
            Some(p) => lookup(src_view(sources@), key@) == Some(p@),
            None => lookup(src_view(sources@), key@) is None,
        },
{
    let n = sources.len();
    let mut i: usize = 0;
    proof {
        assert(src_view(sources@).skip(0) =~= src_view(sources@));
    }
    while i < n
        invariant
            0 <= i <= n,
            n == sources@.len(),
            lookup(src_view(sources@), key@) == lookup(
                src_view(sources@).skip(i as int),
                key@,
            ),
        decreases n - i,
    {
        proof {
            assert(src_view(sources@).skip(i as int)[0] == (
                sources@[i as int].key@,
                sources@[i as int].params@,
            ));
            assert(src_view(sources@).skip(i as int).drop_first() =~= src_view(
                sources@,
            ).skip(i + 1));
        }
        if crate::keys::str_eq(sources[i].key.as_str(), key) {
            return Some(&sources[i].params);
        }
        i = i + 1;
    }
    proof {
        assert(src_view(sources@).skip(n as int) =~= Seq::<(Seq<char>, Seq<u8>)>::empty());
    }
    None
}

/// Byte-for-byte equality of two parameter blobs.
pub fn bytes_eq(a: &Vec<u8>, b: &Vec<u8>) -> (r: bool)
    ensures
        r == (a@ == b@),
{
    let n = a.len();
    if n != b.len() {
        return false;
    }
    let mut i: usize = 0;
    while i < n
        invariant
            0 <= i <= n,
            n == a@.len(),
            n == b@.len(),
            forall|j: int| 0 <= j < i ==> a@[j] == b@[j],
        decreases n - i,
    {
        if a[i] != b[i] {
            return false;
        }
        i = i + 1;
    }
    proof {
        assert(a@ =~= b@);
    }
    true
}

/// Whether any entry of `sources` carries this key.
fn sources_have_key(sources: &Vec<SourceEntry>, key: &str) -> (r: bool)
    ensures
        r == has_key(src_view(sources@), key@),
{
    let n = sources.len();
    let mut i: usize = 0;
    while i < n
        invariant
            0 <= i <= n,
            n == sources@.len(),
            forall|j: int| 0 <= j < i ==> (#[trigger] src_view(sources@)[j]).0 != key@,
        decreases n - i,
    {
        proof {
            assert(src_view(sources@)[i as int].0 == sources@[i as int].key@);
        }
        if crate::keys::str_eq(sources[i].key.as_str(), key) {
            return true;
        }
        i = i + 1;
    }
    false
}

/// Diffs the previous source map against a settled one: the keys removed,
/// and the keys added or stored under different parameters.
pub fn diff_sources(before: &Vec<SourceEntry>, after: &Vec<SourceEntry>) -> (r: (
    Vec<String>,
    Vec<String>,
))
    ensures
        r.0.deep_view() == spec_removed(
            src_view(before@),
            src_view(after@),
            before@.len() as int,
        ),
        r.1.deep_view() == spec_changed(
            src_view(before@),
            src_view(after@),
            after@.len() as int,
        ),
{
    let mut removed: Vec<String> = Vec::new();
    let n_before = before.len();
    let mut i: usize = 0;
    proof {
        assert(removed.deep_view() =~= spec_removed(src_view(before@), src_view(after@), 0));
    }
    while i < n_before
        invariant
            0 <= i <= n_before,
            n_before == before@.len(),
            removed.deep_view() == spec_removed(src_view(before@), src_view(after@), i as int),
        decreases n_before - i,
    {
        proof {
            assert(src_view(before@)[i as int] == (before@[i as int].key@, before@[i as int].params@));
        }
        if !sources_have_key(after, before[i].key.as_str()) {
            let ghost prev = removed.deep_view();
            removed.push(before[i].key.clone());
            proof {
                assert(removed.deep_view() =~= prev.push(before@[i as int].key@));
            }
        }
        i = i + 1;
    }
    let mut changed: Vec<String> = Vec::new();
    let n_after = after.len();
    let mut k: usize = 0;
    proof {
        assert(changed.deep_view() =~= spec_changed(src_view(before@), src_view(after@), 0));
    }
    while k < n_after
        invariant
            0 <= k <= n_after,
            n_after == after@.len(),
            changed.deep_view() == spec_changed(src_view(before@), src_view(after@), k as int),
        decreases n_after - k,
    {
        proof {
            assert(src_view(after@)[k as int] == (after@[k as int].key@, after@[k as int].params@));
        }
        let is_same = match find_params(before, after[k].key.as_str()) {
            Some(p) => bytes_eq(p, &after[k].params),
            None => false,
        };
        if !is_same {
            let ghost prev = changed.deep_view();
            changed.push(after[k].key.clone());
            proof {
                assert(changed.deep_view() =~= prev.push(after@[k as int].key@));
            }
        }
        k = k + 1;
    }
    (removed, changed)
}

/// One change a settled configuration write asks for.
#[derive(Debug)]
pub enum ConfigUpdate {
    /// Register (or re-register) this instance with these parameters.
    AddSource { key: String, params: Vec<u8> },
    /// Remove this instance.
    RemoveSource { key: String },
    /// Rotate at this pace from now on; zero disables rotation.
    ChangeInterval { interval_ms: u64 },
    /// Settings that need no special handling; the source map and the
    /// interval of the running configuration stay as they are.
    Other { config: AppConfig },
}

/// What the driver must do to carry a configuration update out. The
/// register call reports whether it overwrote an existing instance; the
/// purge-if-overwrote action applies exactly when it did.
#[derive(Debug)]
pub enum ReactorAction {
    /// Register the instance against its plugin, with the update's
    /// parameters.
    RegisterInstance { plugin: String, instance: String },
    /// If the registration overwrote an existing instance, purge the
    /// source's not-yet-shown queue rows (the queue's `purge_unshown`);
    /// its shown history stays.
    PurgeIfOverwrote { key: String },
    /// Deregister the instance from its plugin.
    DeregisterInstance { plugin: String, instance: String },
    /// Purge the source's queue rows.
    PurgeSource { key: String },
    /// Hand the new interval to the scheduler.
    SetInterval { interval_ms: u64 },
}

/// Replaces the entry under the entry's key, or appends it.
fn upsert_source(sources: &mut Vec<SourceEntry>, entry: SourceEntry)
    ensures
        src_view(final(sources)@) == spec_register(
            src_view(old(sources)@),
            entry.key@,
            entry.params@,
        ).0,
{
    let n = sources.len();
    let mut k: usize = 0;
    while k < n
        invariant
            0 <= k <= n,
            n == sources@.len(),
            sources@ == old(sources)@,
            forall|x: int| 0 <= x < k ==> (#[trigger] src_view(sources@)[x]).0 != entry.key@,
        decreases n - k,
    {
        proof {
            assert(src_view(sources@)[k as int].0 == sources@[k as int].key@);
        }
        if crate::keys::str_eq(sources[k].key.as_str(), entry.key.as_str()) {
            let ghost before = src_view(sources@);
            let ghost id = entry.key@;
            let ghost params = entry.params@;
            sources.set(k, entry);
            proof {
                lemma_register_at(before, id, params, k as int);
                assert(src_view(sources@) =~= before.update(k as int, (id, params)));
            }
            return ;
        }
        k = k + 1;
    }
    let ghost before = src_view(sources@);
    let ghost id = entry.key@;
    let ghost params = entry.params@;
    sources.push(entry);
    proof {
        lemma_register_missing(before, id, params);
        assert(src_view(sources@) =~= before.push((id, params)));
    }
}

/// Removes the first entry under `key`; an absent key removes nothing.
fn remove_source_entry(sources: &mut Vec<SourceEntry>, key: &str)
    ensures
        src_view(final(sources)@) == spec_deregister(src_view(old(sources)@), key@),
{
    let n = sources.len();
    let mut k: usize = 0;
    while k < n
        invariant
            0 <= k <= n,
            n == sources@.len(),
            sources@ == old(sources)@,
            forall|x: int| 0 <= x < k ==> (#[trigger] src_view(sources@)[x]).0 != key@,
        decreases n - k,
    {
        proof {
            assert(src_view(sources@)[k as int].0 == sources@[k as int].key@);
        }
        if crate::keys::str_eq(sources[k].key.as_str(), key) {
            let ghost before = src_view(sources@);
            sources.remove(k);
            proof {
                lemma_deregister_at(before, key@, k as int);
                assert(src_view(sources@) =~= before.remove(k as int));
            }
            return ;
        }
        k = k + 1;
    }
    proof {
        lemma_deregister_missing(src_view(sources@), key@);
    }
}

/// Applies one configuration update to the running configuration: the
/// new configuration, and the registry, queue and scheduler work the
/// driver owes for it. A source key without a separator is malformed and
/// rejected as not-found, the configuration coming back untouched so the
/// pass can skip the entry and go on.
pub fn update_config(config: AppConfig, update: ConfigUpdate) -> (r: Result<
    (AppConfig, Vec<ReactorAction>),
    (AppConfig, HostError),
>)
    ensures
        match r {
            Ok(out) => match update {
                ConfigUpdate::AddSource { key, params } => {
                    &&& src_view(out.0.sources@) == spec_register(
                        src_view(config.sources@),
                        key@,
                        params@,
                    ).0
                    &&& out.0.interval_ms == config.interval_ms
                    &&& out.0.cache_dir == config.cache_dir
                    &&& out.0.cache_size_mib == config.cache_size_mib
                    &&& out.0.plugins_dir == config.plugins_dir
                    &&& out.0.history_amount == config.history_amount
                    &&& out.0.theme == config.theme
                    &&& out.0.display_background == config.display_background
                    &&& out.0.plugin_host_mode == config.plugin_host_mode
                    &&& out.0.logging@ == config.logging@
                    &&& out.1@.len() == 2
                    &&& (out.1@[0] matches ReactorAction::RegisterInstance { plugin, instance }
                        && splits_key(key@, plugin@, instance@))
                    &&& (out.1@[1] matches ReactorAction::PurgeIfOverwrote { key: k }
                        && k@ == key@)
                },
                ConfigUpdate::RemoveSource { key } => {
                    &&& src_view(out.0.sources@) == spec_deregister(
                        src_view(config.sources@),
                        key@,
                    )
                    &&& out.0.interval_ms == config.interval_ms
                    &&& out.0.cache_dir == config.cache_dir
                    &&& out.0.cache_size_mib == config.cache_size_mib
                    &&& out.0.plugins_dir == config.plugins_dir
                    &&& out.0.history_amount == config.history_amount
                    &&& out.0.theme == config.theme
                    &&& out.0.display_background == config.display_background
                    &&& out.0.plugin_host_mode == config.plugin_host_mode
                    &&& out.0.logging@ == config.logging@
                    &&& out.1@.len() == 2
                    &&& (out.1@[0] matches ReactorAction::DeregisterInstance { plugin, instance }
                        && splits_key(key@, plugin@, instance@))
                    &&& (out.1@[1] matches ReactorAction::PurgeSource { key: k } && k@ == key@)
                },
                ConfigUpdate::ChangeInterval { interval_ms } => {
                    &&& out.0.interval_ms == interval_ms
                    &&& out.0.sources@ == config.sources@
                    &&& out.0.cache_dir == config.cache_dir
                    &&& out.0.cache_size_mib == config.cache_size_mib
                    &&& out.0.plugins_dir == config.plugins_dir
                    &&& out.0.history_amount == config.history_amount
                    &&& out.0.theme == config.theme
                    &&& out.0.display_background == config.display_background
                    &&& out.0.plugin_host_mode == config.plugin_host_mode
                    &&& out.0.logging@ == config.logging@
                    &&& out.1@ == seq![ReactorAction::SetInterval { interval_ms }]
                },
                ConfigUpdate::Other { config: fresh } => {
                    &&& out.0.sources@ == config.sources@
                    &&& out.0.interval_ms == config.interval_ms
                    &&& out.0.cache_dir == fresh.cache_dir
                    &&& out.0.cache_size_mib == fresh.cache_size_mib
                    &&& out.0.plugins_dir == fresh.plugins_dir
                    &&& out.0.history_amount == fresh.history_amount
                    &&& out.0.theme == fresh.theme
                    &&& out.0.display_background == fresh.display_background
                    &&& out.0.plugin_host_mode == fresh.plugin_host_mode
                    &&& out.0.logging@ == fresh.logging@
                    &&& out.1@.len() == 0
                },
            },
            Err(e) => {
                &&& e.1 == HostError::NotFound
                &&& e.0 == config
                &&& match update {
                    ConfigUpdate::AddSource { key, .. } => !has_separator(key@),
                    ConfigUpdate::RemoveSource { key } => !has_separator(key@),
                    _ => false,
                }
            },
        },
{
    match update {
        ConfigUpdate::AddSource { key, params } => {
            let (plugin, instance) = match split_key(key.as_str()) {
                Some(parts) => parts,
                None => {
                    return Err((config, HostError::NotFound));
                },
            };
            let mut config = config;
            let action_key = key.clone();
            upsert_source(&mut config.sources, SourceEntry { key, params });
            let mut actions: Vec<ReactorAction> = Vec::new();
            actions.push(ReactorAction::RegisterInstance { plugin, instance });
            actions.push(ReactorAction::PurgeIfOverwrote { key: action_key });
            Ok((config, actions))
        },
        ConfigUpdate::RemoveSource { key } => {
            let (plugin, instance) = match split_key(key.as_str()) {
                Some(parts) => parts,
                None => {
                    return Err((config, HostError::NotFound));
                },
            };
            let mut config = config;
            remove_source_entry(&mut config.sources, key.as_str());
            let mut actions: Vec<ReactorAction> = Vec::new();
            actions.push(ReactorAction::DeregisterInstance { plugin, instance });
            actions.push(ReactorAction::PurgeSource { key });
            Ok((config, actions))
        },
        ConfigUpdate::ChangeInterval { interval_ms } => {
            let mut config = config;
            config.interval_ms = interval_ms;
            let mut actions: Vec<ReactorAction> = Vec::new();
            actions.push(ReactorAction::SetInterval { interval_ms });
            proof {
                assert(actions@ =~= seq![ReactorAction::SetInterval { interval_ms }]);
            }
            Ok((config, actions))
        },
        ConfigUpdate::Other { config: fresh } => {
            let updated = AppConfig {
                sources: config.sources,
                interval_ms: config.interval_ms,
                ..fresh
            };
            Ok((updated, Vec::new()))
        },
    }
}

/// The changed entries themselves: each key of `after` that `before`
/// lacked or stored other parameters under, with its new parameters.
pub open spec fn spec_changed_entries(
    before: Seq<(Seq<char>, Seq<u8>)>,
    after: Seq<(Seq<char>, Seq<u8>)>,
    upto: int,
) -> Seq<(Seq<char>, Seq<u8>)>
    decreases upto,
{
    if upto <= 0 {
        Seq::empty()
    } else {
        let rest = spec_changed_entries(before, after, upto - 1);
        if lookup(before, after[upto - 1].0) != Some(after[upto - 1].1) {
            rest.push(after[upto - 1])
        } else {
            rest
        }
    }
}

/// Turns one settled configuration change into the updates the reactor
/// applies: one removal per vanished key, one addition per new or changed
/// key carrying its fresh parameters, and an interval change where the
/// pace changed. Each update is applied on its own, so a malformed entry
/// skips only itself.
pub fn plan_settled_change(before: &AppConfig, after: &AppConfig) -> (r: Vec<ConfigUpdate>)
    ensures
        ({
            let bv = src_view(before.sources@);
            let av = src_view(after.sources@);
            let removed = spec_removed(bv, av, bv.len() as int);
            let changed = spec_changed_entries(bv, av, av.len() as int);
            &&& r@.len() == removed.len() + changed.len() + (
            if before.interval_ms != after.interval_ms {
                1int
            } else {
                0int
            })
            &&& forall|k: int|
                0 <= k < removed.len() ==> ((#[trigger] r@[k]) matches ConfigUpdate::RemoveSource {
                    key,
                } && key@ == removed[k])
            &&& forall|k: int|
                0 <= k < changed.len() ==> ((#[trigger] r@[removed.len() + k])
                    matches ConfigUpdate::AddSource { key, params } && key@ == changed[k].0
                    && params@ == changed[k].1)
            &&& (before.interval_ms != after.interval_ms ==> (r@.last()
                matches ConfigUpdate::ChangeInterval { interval_ms } && interval_ms
                == after.interval_ms))
        }),
{
    let ghost bv = src_view(before.sources@);
    let ghost av = src_view(after.sources@);
    let mut out: Vec<ConfigUpdate> = Vec::new();
    let n_before = before.sources.len();
    let mut i: usize = 0;
    while i < n_before
        invariant
            0 <= i <= n_before,
            n_before == before.sources@.len(),
            bv == src_view(before.sources@),
            av == src_view(after.sources@),
            out@.len() == spec_removed(bv, av, i as int).len(),
            forall|k: int|
                0 <= k < out@.len() ==> ((#[trigger] out@[k]) matches ConfigUpdate::RemoveSource {
                    key,
                } && key@ == spec_removed(bv, av, i as int)[k]),
        decreases n_before - i,
    {
        proof {
            assert(bv[i as int] == (before.sources@[i as int].key@, before.sources@[i as int].params@));
        }
        if !sources_have_key(&after.sources, before.sources[i].key.as_str()) {
            let ghost prev = out@;
            out.push(ConfigUpdate::RemoveSource { key: before.sources[i].key.clone() });
            proof {
                assert(out@ =~= prev.push(
                    ConfigUpdate::RemoveSource { key: before.sources[i as int].key },
                ));
            }
        }
        i = i + 1;
    }
    let ghost n_removed = out@.len() as int;
    let n_after = after.sources.len();
    let mut k: usize = 0;
    while k < n_after
        invariant
            0 <= k <= n_after,
            n_after == after.sources@.len(),
            bv == src_view(before.sources@),
            av == src_view(after.sources@),
            n_removed == spec_removed(bv, av, bv.len() as int).len(),
            out@.len() == n_removed + spec_changed_entries(bv, av, k as int).len(),
            forall|x: int|
                0 <= x < n_removed ==> ((#[trigger] out@[x]) matches ConfigUpdate::RemoveSource {
                    key,
                } && key@ == spec_removed(bv, av, bv.len() as int)[x]),
            forall|x: int|
                0 <= x < spec_changed_entries(bv, av, k as int).len() ==> ((
                #[trigger] out@[n_removed + x]) matches ConfigUpdate::AddSource { key, params }
                    && key@ == spec_changed_entries(bv, av, k as int)[x].0 && params@
                    == spec_changed_entries(bv, av, k as int)[x].1),
        decreases n_after - k,
    {
        proof {
            assert(av[k as int] == (after.sources@[k as int].key@, after.sources@[k as int].params@));
        }
        let is_same = match find_params(&before.sources, after.sources[k].key.as_str()) {
            Some(p) => bytes_eq(p, &after.sources[k].params),
            None => false,
        };
        if !is_same {
            let ghost prev = out@;
            let key = after.sources[k].key.clone();
            let params = vstd::slice::slice_to_vec(after.sources[k].params.as_slice());
            out.push(ConfigUpdate::AddSource { key, params });
            proof {
                assert(out@.len() == prev.len() + 1);
                assert(forall|x: int| 0 <= x < prev.len() ==> #[trigger] out@[x] == prev[x]);
                assert(spec_changed_entries(bv, av, k + 1) =~= spec_changed_entries(
                    bv,
                    av,
                    k as int,
                ).push(av[k as int]));
            }
        } else {
            proof {
                assert(spec_changed_entries(bv, av, k + 1) =~= spec_changed_entries(
                    bv,
                    av,
                    k as int,
                ));
            }
        }
        k = k + 1;
    }
    if before.interval_ms != after.interval_ms {
        out.push(ConfigUpdate::ChangeInterval { interval_ms: after.interval_ms });
    }
    out
}

} // verus!
