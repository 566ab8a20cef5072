use plugin_registry::retry::{ConnectStep, CONNECT_ATTEMPTS};
use plugin_registry::registry::{
    rendezvous_path, DispenseError, DispensePlan, LoadError, PluginRegistry, ReapError, Reaping,
};

type Registry = PluginRegistry<u32, u64>;

fn name(s: &str) -> String {
    s.to_string()
}

fn loaded(entries: &[(&str, &str)]) -> Registry {
    let mut r = Registry::new();
    for (n, path) in entries {
        let out = format!("{}|1.0.0\n", n).into_bytes();
        assert_eq!(r.load_plugin(path.to_string(), Some(out)), Ok(None));
    }
    r
}

/// Spawns and connects `n` with the given process and client.
fn start(r: &mut Registry, n: &str, process: u32, client: u64) {
    match r.dispense(name(n)) {
        Ok(DispensePlan::Spawn(_)) => {}
        other => panic!("expected a spawn, got {:?}", other),
    }
    assert_eq!(r.connected(name(n), process, client), Ok(()));
}

#[test]
fn load_registers_announced_name_and_version() {
    let mut r = Registry::new();
    let out = b"echo-plugin|1.0.0".to_vec();
    assert_eq!(r.load_plugin("/opt/plugins/echo".to_string(), Some(out)), Ok(None));
    let p = r.get(&name("echo-plugin")).unwrap();
    assert_eq!(p.name(), "echo-plugin");
    assert_eq!(p.version(), "1.0.0");
    assert_eq!(p.path(), "/opt/plugins/echo");
    assert_eq!(p.plugin_type(), "execution");
    assert!(!p.is_active());
    assert_eq!(r.len(), 1);
}

#[test]
fn load_without_bar_is_rejected() {
    let mut r = Registry::new();
    let out = b"echo-plugin 1.0.0\n".to_vec();
    assert_eq!(r.load_plugin("/bin/x".to_string(), Some(out)), Err(LoadError::InvalidHandshake));
    assert_eq!(r.len(), 0);
    assert!(r.get(&name("echo-plugin 1.0.0")).is_none());
}

#[test]
fn load_of_invalid_utf8_is_rejected() {
    let mut r = Registry::new();
    let out = vec![0xff, b'|', b'1'];
    assert_eq!(r.load_plugin("/bin/x".to_string(), Some(out)), Err(LoadError::InvalidHandshake));
    assert_eq!(r.len(), 0);
}

#[test]
fn load_decodes_multibyte_text() {
    let mut r = Registry::new();
    let out = "plügin|1.0".as_bytes().to_vec();
    assert_eq!(r.load_plugin("/bin/p".to_string(), Some(out)), Ok(None));
    assert_eq!(r.get(&name("plügin")).unwrap().version(), "1.0");
}

#[test]
fn load_that_cannot_launch_fails() {
    let mut r = Registry::new();
    assert_eq!(r.load_plugin("/nope".to_string(), None), Err(LoadError::SpawnFailed));
    assert_eq!(r.len(), 0);
}

#[test]
fn reload_replaces_entry_and_hands_back_process() {
    let mut r = loaded(&[("a", "/old/a")]);
    start(&mut r, "a", 7, 70);
    let out = b"a|2.0".to_vec();
    let displaced = r.load_plugin("/new/a".to_string(), Some(out)).unwrap().unwrap();
    assert_eq!(displaced.name, "a");
    assert_eq!(displaced.process, 7);
    let p = r.get(&name("a")).unwrap();
    assert_eq!(p.path(), "/new/a");
    assert_eq!(p.version(), "2.0");
    assert!(!p.is_active());
    assert_eq!(r.cached_client(&name("a")), None);
    assert_eq!(r.len(), 1);
    assert_eq!(r.dispense(name("a")), Ok(DispensePlan::Spawn("/new/a".to_string())));
}

#[test]
fn reload_withdraws_a_claim_in_progress() {
    let mut r = loaded(&[("a", "/bin/a")]);
    assert!(matches!(r.dispense(name("a")), Ok(DispensePlan::Spawn(_))));
    assert_eq!(r.load_plugin("/bin/a2".to_string(), Some(b"a|3".to_vec())), Ok(None));
    assert!(!r.get(&name("a")).unwrap().is_starting());
    assert_eq!(r.connected(name("a"), 4, 40), Err(4));
}

#[test]
fn unknown_name_is_not_found() {
    let mut r = loaded(&[("a", "/a")]);
    assert_eq!(r.dispense(name("nope")), Err(DispenseError::NotFound));
    assert_eq!(r.reap(name("nope")), Err(ReapError::NotFound));
    assert_eq!(r.len(), 1);
    assert!(!r.get(&name("a")).unwrap().is_active());
    assert!(!r.get(&name("a")).unwrap().is_starting());
}

#[test]
fn first_dispense_spawns_from_path() {
    let mut r = loaded(&[("a", "/bin/a")]);
    assert_eq!(r.dispense(name("a")), Ok(DispensePlan::Spawn("/bin/a".to_string())));
    assert!(r.get(&name("a")).unwrap().is_starting());
}

#[test]
fn concurrent_dispenses_spawn_once() {
    let mut r = loaded(&[("a", "/bin/a")]);
    let mut spawns = 0;
    for _ in 0..5 {
        match r.dispense(name("a")) {
            Ok(DispensePlan::Spawn(_)) => spawns += 1,
            Ok(DispensePlan::Wait) => {}
            other => panic!("unexpected {:?}", other),
        }
    }
    assert_eq!(spawns, 1);
    assert_eq!(r.connected(name("a"), 11, 110), Ok(()));
    for _ in 0..5 {
        assert_eq!(r.dispense(name("a")), Ok(DispensePlan::Reuse));
        assert_eq!(r.cached_client(&name("a")), Some(&110));
    }
}

#[test]
fn second_dispense_reuses() {
    let mut r = loaded(&[("a", "/bin/a")]);
    start(&mut r, "a", 5, 50);
    assert_eq!(r.dispense(name("a")), Ok(DispensePlan::Reuse));
    assert_eq!(r.dispense(name("a")), Ok(DispensePlan::Reuse));
    assert_eq!(r.cached_client(&name("a")), Some(&50));
}

#[test]
fn reap_then_dispense_spawns_again() {
    let mut r = loaded(&[("a", "/bin/a")]);
    start(&mut r, "a", 5, 50);
    assert_eq!(r.reap(name("a")), Ok(Reaping::Stopped(5)));
    assert_eq!(r.cached_client(&name("a")), None);
    assert_eq!(r.dispense(name("a")), Ok(DispensePlan::Spawn("/bin/a".to_string())));
    assert_eq!(r.connected(name("a"), 6, 60), Ok(()));
    assert_eq!(r.reap(name("a")), Ok(Reaping::Stopped(6)));
}

#[test]
fn reap_of_idle_is_inactive() {
    let mut r = loaded(&[("a", "/bin/a")]);
    assert_eq!(r.reap(name("a")), Err(ReapError::Inactive));
}

#[test]
fn reap_while_starting_waits() {
    let mut r = loaded(&[("a", "/bin/a")]);
    assert!(matches!(r.dispense(name("a")), Ok(DispensePlan::Spawn(_))));
    assert_eq!(r.reap(name("a")), Ok(Reaping::Wait));
    assert!(r.get(&name("a")).unwrap().is_starting());
    assert_eq!(r.connected(name("a"), 2, 20), Ok(()));
    assert_eq!(r.reap(name("a")), Ok(Reaping::Stopped(2)));
}

#[test]
fn failed_start_makes_plugin_idle() {
    let mut r = loaded(&[("a", "/bin/a")]);
    assert!(matches!(r.dispense(name("a")), Ok(DispensePlan::Spawn(_))));
    r.start_failed(name("a"));
    assert!(!r.get(&name("a")).unwrap().is_starting());
    assert!(matches!(r.dispense(name("a")), Ok(DispensePlan::Spawn(_))));
}

#[test]
fn start_failed_leaves_running_plugin() {
    let mut r = loaded(&[("a", "/bin/a")]);
    start(&mut r, "a", 1, 10);
    r.start_failed(name("a"));
    assert!(r.get(&name("a")).unwrap().is_active());
}

#[test]
fn connect_without_claim_hands_process_back() {
    let mut r = loaded(&[("a", "/bin/a")]);
    assert_eq!(r.connected(name("a"), 9, 90), Err(9));
    assert_eq!(r.connected(name("zzz"), 8, 80), Err(8));
    assert!(!r.get(&name("a")).unwrap().is_active());
}

#[test]
fn reap_all_takes_only_running_processes() {
    let mut r = loaded(&[("a", "/bin/a"), ("b", "/bin/b"), ("c", "/bin/c")]);
    start(&mut r, "a", 1, 10);
    start(&mut r, "c", 3, 30);
    let out = b"d|1".to_vec();
    assert_eq!(r.load_plugin("/bin/d".to_string(), Some(out)), Ok(None));
    assert!(matches!(r.dispense(name("d")), Ok(DispensePlan::Spawn(_))));
    let mut taken: Vec<(String, u32)> =
        r.reap_all().into_iter().map(|p| (p.name, p.process)).collect();
    taken.sort();
    assert_eq!(taken, vec![("a".to_string(), 1), ("c".to_string(), 3)]);
    for n in ["a", "b", "c", "d"] {
        let p = r.get(&name(n)).unwrap();
        assert!(!p.is_active());
        assert!(!p.is_starting());
    }
    assert_eq!(r.len(), 4);
    assert_eq!(r.connected(name("d"), 4, 40), Err(4));
    assert!(r.reap_all().is_empty());
}

#[test]
fn rendezvous_path_is_per_name() {
    assert_eq!(rendezvous_path(&name("my_plugin")), "/tmp/tonic/my_plugin");
    assert_eq!(rendezvous_path(&name("")), "/tmp/tonic/");
}

#[test]
fn unreachable_plugin_gives_up_after_all_attempts() {
    let mut r = loaded(&[("a", "/bin/a")]);
    assert!(matches!(r.dispense(name("a")), Ok(DispensePlan::Spawn(_))));
    let mut attempts: u32 = 1;
    let mut waited: u64 = 0;
    loop {
        match r.connect_failed(name("a")) {
            ConnectStep::RetryAfter(ms) => {
                assert_eq!(ms, 500);
                assert!(r.get(&name("a")).unwrap().is_starting());
                waited += ms;
                attempts += 1;
            }
            ConnectStep::GiveUp => break,
        }
    }
    assert_eq!(attempts, CONNECT_ATTEMPTS);
    assert_eq!(attempts, 10);
    assert_eq!(waited, 4500);
    let p = r.get(&name("a")).unwrap();
    assert!(!p.is_starting());
    assert!(!p.is_active());
    assert!(matches!(r.dispense(name("a")), Ok(DispensePlan::Spawn(_))));
}

#[test]
fn late_connection_after_failures_succeeds() {
    let mut r = loaded(&[("a", "/bin/a")]);
    assert!(matches!(r.dispense(name("a")), Ok(DispensePlan::Spawn(_))));
    for _ in 0..3 {
        assert_eq!(r.connect_failed(name("a")), ConnectStep::RetryAfter(500));
    }
    assert_eq!(r.connected(name("a"), 1, 10), Ok(()));
    assert_eq!(r.dispense(name("a")), Ok(DispensePlan::Reuse));
}

#[test]
fn connect_failure_without_claim_gives_up() {
    let mut r = loaded(&[("a", "/bin/a")]);
    assert_eq!(r.connect_failed(name("a")), ConnectStep::GiveUp);
    assert_eq!(r.connect_failed(name("zzz")), ConnectStep::GiveUp);
    start(&mut r, "a", 1, 10);
    assert_eq!(r.connect_failed(name("a")), ConnectStep::GiveUp);
    assert!(r.get(&name("a")).unwrap().is_active());
}
