use reddw_core::reactor::{
    diff_sources, update_config, AppConfig, ConfigUpdate, Debouncer, ReactorAction, SourceEntry,
};
use reddw_core::HostError;

fn entry(key: &str, params: &[u8]) -> SourceEntry {
    SourceEntry { key: key.to_string(), params: params.to_vec() }
}

#[test]
fn three_writes_in_one_window_settle_once() {
    // Three config writes inside the debounce window coalesce into
    // exactly one settled change.
    let mut d = Debouncer::new(25);
    d.note_write(0);
    assert!(!d.poll(10));
    d.note_write(10);
    assert!(!d.poll(20));
    d.note_write(20);
    assert!(!d.poll(30));
    let mut fires = 0;
    for t in [45u64, 46, 50, 100] {
        if d.poll(t) {
            fires += 1;
        }
    }
    assert_eq!(fires, 1);
}

#[test]
fn spaced_writes_settle_separately() {
    let mut d = Debouncer::new(25);
    d.note_write(0);
    assert!(d.poll(25));
    d.note_write(100);
    assert!(!d.poll(110));
    assert!(d.poll(125));
}

#[test]
fn diff_reports_removed_and_changed_sources() {
    let before = vec![entry("a_1", b"one"), entry("b_2", b"two"), entry("c_3", b"three")];
    let after = vec![entry("b_2", b"two"), entry("c_3", b"new"), entry("d_4", b"four")];
    let (removed, changed) = diff_sources(&before, &after);
    assert_eq!(removed, vec!["a_1".to_string()]);
    assert_eq!(changed, vec!["c_3".to_string(), "d_4".to_string()]);
}

#[test]
fn diff_of_identical_maps_is_empty() {
    let sources = vec![entry("a_1", b"one")];
    let same = vec![entry("a_1", b"one")];
    let (removed, changed) = diff_sources(&sources, &same);
    assert!(removed.is_empty());
    assert!(changed.is_empty());
}

#[test]
fn add_source_updates_the_map_and_plans_the_register() {
    let mut config = AppConfig::default();
    config.sources.push(entry("a_1", b"old"));
    let (config, actions) = update_config(
        config,
        ConfigUpdate::AddSource { key: "wallhaven_pc".to_string(), params: b"tags".to_vec() },
    )
    .unwrap();
    assert_eq!(config.sources.len(), 2);
    assert_eq!(config.sources[1].key, "wallhaven_pc");
    assert_eq!(config.sources[1].params, b"tags".to_vec());
    assert_eq!(actions.len(), 2);
    match &actions[0] {
        ReactorAction::RegisterInstance { plugin, instance } => {
            assert_eq!(plugin, "wallhaven");
            assert_eq!(instance, "pc");
        },
        other => panic!("expected the register action, got {other:?}"),
    }
    assert!(matches!(&actions[1], ReactorAction::PurgeIfOverwrote { .. }));
    // Every field the update does not speak of stays as it was.
    assert_eq!(config.theme, "default");
    assert_eq!(config.cache_size_mib, 100);
    assert_eq!(config.history_amount, 10);
    assert!(config.display_background);
}

#[test]
fn re_adding_a_source_overwrites_its_parameters() {
    let mut config = AppConfig::default();
    config.sources.push(entry("a_1", b"old"));
    let (config, _) = update_config(
        config,
        ConfigUpdate::AddSource { key: "a_1".to_string(), params: b"new".to_vec() },
    )
    .unwrap();
    assert_eq!(config.sources.len(), 1);
    assert_eq!(config.sources[0].params, b"new".to_vec());
}

#[test]
fn remove_source_deletes_and_plans_deregister_and_purge() {
    let mut config = AppConfig::default();
    config.sources.push(entry("a_1", b"one"));
    config.sources.push(entry("b_2", b"two"));
    let (config, actions) = update_config(
        config,
        ConfigUpdate::RemoveSource { key: "a_1".to_string() },
    )
    .unwrap();
    assert_eq!(config.sources.len(), 1);
    assert_eq!(config.sources[0].key, "b_2");
    assert_eq!(actions.len(), 2);
    assert!(matches!(&actions[0], ReactorAction::DeregisterInstance { .. }));
    match &actions[1] {
        ReactorAction::PurgeSource { key } => assert_eq!(key, "a_1"),
        other => panic!("expected the purge action, got {other:?}"),
    }
}

#[test]
fn malformed_keys_are_rejected_not_fatal() {
    let config = AppConfig::default();
    let r = update_config(
        config,
        ConfigUpdate::AddSource { key: "noseparator".to_string(), params: Vec::new() },
    );
    match r {
        Err((unchanged, err)) => {
            assert_eq!(err, HostError::NotFound);
            // The configuration comes back untouched for the pass to go on.
            assert!(unchanged.sources.is_empty());
            assert_eq!(unchanged.interval_ms, 3_600_000);
        },
        Ok(_) => panic!("a key without a separator must be rejected"),
    }
}

#[test]
fn interval_change_reaches_the_scheduler() {
    let config = AppConfig::default();
    let (config, actions) = update_config(
        config,
        ConfigUpdate::ChangeInterval { interval_ms: 90_000 },
    )
    .unwrap();
    assert_eq!(config.interval_ms, 90_000);
    assert_eq!(actions.len(), 1);
    assert!(matches!(&actions[0], ReactorAction::SetInterval { interval_ms: 90_000 }));
}

#[test]
fn other_updates_keep_sources_and_interval() {
    let mut running = AppConfig::default();
    running.sources.push(entry("a_1", b"one"));
    running.interval_ms = 5000;
    let mut fresh = AppConfig::default();
    fresh.theme = "dark".to_string();
    fresh.cache_size_mib = 250;
    let (config, actions) = update_config(running, ConfigUpdate::Other { config: fresh }).unwrap();
    assert_eq!(config.sources.len(), 1);
    assert_eq!(config.interval_ms, 5000);
    assert_eq!(config.theme, "dark");
    assert_eq!(config.cache_size_mib, 250);
    assert!(actions.is_empty());
}

#[test]
fn default_config_matches_a_fresh_installation() {
    let c = AppConfig::default();
    assert!(c.sources.is_empty());
    assert_eq!(c.interval_ms, 3_600_000);
    assert_eq!(c.cache_size_mib, 100);
    assert_eq!(c.history_amount, 10);
    assert_eq!(c.theme, "default");
    assert!(c.display_background);
    assert!(c.plugins_dir.is_none());
}

#[test]
fn settled_change_becomes_ordered_updates() {
    let mut before = AppConfig::default();
    before.sources.push(entry("a_1", b"one"));
    before.sources.push(entry("b_2", b"two"));
    before.interval_ms = 1000;
    let mut after = AppConfig::default();
    after.sources.push(entry("b_2", b"changed"));
    after.sources.push(entry("c_3", b"three"));
    after.interval_ms = 2000;
    let plan = reddw_core::reactor::plan_settled_change(&before, &after);
    assert_eq!(plan.len(), 4);
    assert!(matches!(&plan[0], ConfigUpdate::RemoveSource { key } if key == "a_1"));
    assert!(
        matches!(&plan[1], ConfigUpdate::AddSource { key, params } if key == "b_2" && params == b"changed")
    );
    assert!(
        matches!(&plan[2], ConfigUpdate::AddSource { key, params } if key == "c_3" && params == b"three")
    );
    assert!(matches!(&plan[3], ConfigUpdate::ChangeInterval { interval_ms: 2000 }));
}

#[test]
fn settled_change_without_differences_plans_nothing() {
    let mut before = AppConfig::default();
    before.sources.push(entry("a_1", b"one"));
    let mut after = AppConfig::default();
    after.sources.push(entry("a_1", b"one"));
    let plan = reddw_core::reactor::plan_settled_change(&before, &after);
    assert!(plan.is_empty());
}
