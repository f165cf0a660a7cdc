use reddw_core::logging::{LogBehaviour, LogLevel, log_routes};
use reddw_core::registry::{
    mode_grants_execute, PluginEntry, PluginLoadResult, Registry,
};
use reddw_core::HostError;

fn plugin(name: &str, pid: u64) -> PluginEntry {
    PluginEntry { name: name.to_string(), pid, instances: Vec::new() }
}

#[test]
fn register_twice_reports_overwrote_false_then_true() {
    // Re-registering the same (plugin, instance, params) reports no
    // overwrite the first time and an overwrite the second, and the
    // stored parameters reflect the latest call.
    let mut r = Registry::new();
    r.insert_plugin(plugin("wallhaven", 1));
    assert_eq!(r.register_instance("wallhaven", "a", b"first".to_vec()), Ok(false));
    assert_eq!(r.register_instance("wallhaven", "a", b"second".to_vec()), Ok(true));
    let instances = r.instances_of("wallhaven").unwrap();
    assert_eq!(instances.len(), 1);
    assert_eq!(instances[0].id, "a");
    assert_eq!(instances[0].params, b"second".to_vec());
}

#[test]
fn registering_against_an_unknown_plugin_is_not_found() {
    let mut r = Registry::new();
    assert_eq!(
        r.register_instance("nosuch", "a", Vec::new()),
        Err(HostError::NotFound)
    );
    // No placeholder was created.
    assert!(r.list_plugin_names().is_empty());
}

#[test]
fn deregister_removes_the_instance() {
    let mut r = Registry::new();
    r.insert_plugin(plugin("wallhaven", 1));
    r.register_instance("wallhaven", "a", Vec::new()).unwrap();
    assert_eq!(r.deregister_instance("wallhaven", "a"), Ok(()));
    assert!(r.instances_of("wallhaven").unwrap().is_empty());
    assert_eq!(r.deregister_instance("wallhaven", "a"), Err(HostError::NotFound));
}

#[test]
fn removing_a_plugin_hands_back_its_process() {
    let mut r = Registry::new();
    r.insert_plugin(plugin("one", 11));
    r.insert_plugin(plugin("two", 22));
    assert_eq!(r.remove_plugin("one"), Some(11));
    assert_eq!(r.remove_plugin("one"), None);
    assert_eq!(r.list_plugin_names(), vec!["two".to_string()]);
}

#[test]
fn reinserting_a_plugin_surrenders_the_old_process() {
    let mut r = Registry::new();
    assert_eq!(r.insert_plugin(plugin("one", 11)), None);
    assert_eq!(r.insert_plugin(plugin("one", 33)), Some(11));
    assert_eq!(r.list_plugin_names(), vec!["one".to_string()]);
}

#[test]
fn startup_skips_a_non_executable_file_with_one_error_event() {
    // A plugin directory holding one non-executable file: startup
    // completes, the plugin is absent from the registry, and exactly one
    // error-severity log event is emitted.
    assert!(!mode_grants_execute(0o644));
    let mut r = Registry::new();
    let (events, stale) = r.load_all(vec![PluginLoadResult::NotExecutable {
        file: "broken-plugin".to_string(),
    }]);
    assert_eq!(events.len(), 1);
    assert_eq!(events[0].level, LogLevel::Error);
    assert_eq!(events[0].message, "broken-plugin");
    assert!(stale.is_empty());
    assert!(r.list_plugin_names().is_empty());
}

#[test]
fn startup_is_per_plugin_and_non_fatal() {
    let mut r = Registry::new();
    let (events, stale) = r.load_all(vec![
        PluginLoadResult::SpawnFailed { file: "bad1".to_string() },
        PluginLoadResult::Ready { name: "good".to_string(), pid: 7 },
        PluginLoadResult::HandshakeFailed { file: "bad2".to_string(), pid: 9 },
    ]);
    assert_eq!(events.len(), 2);
    assert!(events.iter().all(|e| e.level == LogLevel::Error));
    // The half-initialized process must be killed, never registered.
    assert_eq!(stale, vec![9]);
    assert_eq!(r.list_plugin_names(), vec!["good".to_string()]);
}

#[test]
fn execute_bit_check() {
    assert!(mode_grants_execute(0o755));
    assert!(mode_grants_execute(0o100));
    assert!(!mode_grants_execute(0o600));
    assert!(!mode_grants_execute(0o000));
}

#[test]
fn log_routes_filter_by_severity() {
    let behaviours = vec![
        LogBehaviour::StdErr(LogLevel::Error),
        LogBehaviour::StdOut(LogLevel::Debug),
        LogBehaviour::UIToast(LogLevel::Info),
    ];
    assert_eq!(log_routes(&behaviours, &LogLevel::Debug), vec![1]);
    assert_eq!(log_routes(&behaviours, &LogLevel::Info), vec![1, 2]);
    assert_eq!(log_routes(&behaviours, &LogLevel::Error), vec![0, 1, 2]);
}

#[test]
fn failed_discovery_leaves_the_registry_untouched() {
    let mut r = Registry::new();
    r.insert_plugin(plugin("existing", 5));
    let (events, stale) = r.load_all(vec![
        PluginLoadResult::NotExecutable { file: "one".to_string() },
        PluginLoadResult::SpawnFailed { file: "two".to_string() },
    ]);
    assert_eq!(events.len(), 2);
    assert!(stale.is_empty());
    assert_eq!(r.list_plugin_names(), vec!["existing".to_string()]);
    assert_eq!(r.remove_plugin("existing"), Some(5));
}
