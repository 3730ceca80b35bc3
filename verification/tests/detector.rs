use knock::command::Dispatch;
use knock::config::{Config, Rule};
use knock::sequence::{PortSequenceDetector, SequenceDetector};

fn rule(name: &str, sequence: Vec<i32>, command: &str) -> Rule {
    Rule { name: name.to_string(), sequence, command: command.to_string() }
}

fn create_config() -> Config {
    Config {
        interface: "enp3s0".to_string(),
        timeout: 2,
        rules: vec![
            rule("enable ssh", vec![1, 2, 3], "ls -lh"),
            rule("disable ssh", vec![3, 5, 6], "free -g"),
        ],
    }
}

fn create_config_with_timeout(timeout: u64) -> Config {
    Config {
        interface: "enp3s0".to_string(),
        timeout,
        rules: vec![
            rule("enable ssh", vec![1, 2, 3], "ls -lh"),
            rule("disable ssh", vec![3, 5, 6], "du -sh *"),
        ],
    }
}

fn ssh_config() -> Config {
    Config {
        interface: "eth0".to_string(),
        timeout: 5,
        rules: vec![rule(
            "enable-ssh",
            vec![7000, 8000, 9000],
            "iptables -A INPUT -s %IP% -p tcp --dport 22 -j ACCEPT",
        )],
    }
}

fn commands(due: &[Dispatch]) -> Vec<String> {
    due.iter().map(|d| d.command.clone()).collect()
}

#[test]
fn test_new() {
    let config = create_config();
    let detector = PortSequenceDetector::new(config);
    assert_eq!(detector.port_count(), 5);
    assert_eq!(detector.rule_count(), 2);
    assert_eq!(detector.timeout(), 2);
}

#[test]
fn port_sequence_test_new() {
    let config = create_config_with_timeout(5);
    let detector = PortSequenceDetector::new(config);
    assert_eq!(detector.port_count(), 5);
    assert_eq!(detector.rule_count(), 2);
}

#[test]
fn test_add_sequence() {
    let config = create_config();
    let mut detector = PortSequenceDetector::new(config);
    detector.add_sequence("127.0.0.1".to_owned(), 3);
    assert_eq!(detector.observed("127.0.0.1"), Some(vec![3]));
}

#[test]
fn port_sequence_test_add_sequence() {
    let config = create_config_with_timeout(5);
    let mut detector = PortSequenceDetector::new(config);
    detector.add_sequence("127.0.0.1".to_owned(), 3);
    assert_eq!(detector.observed("127.0.0.1"), Some(vec![3]));
}

#[test]
fn test_add_none_existing_sequence() {
    let config = create_config();
    let mut detector = PortSequenceDetector::new(config);
    detector.add_sequence("127.0.0.1".to_owned(), 9);
    assert_eq!(detector.observed("127.0.0.1"), None);
}

#[test]
fn port_sequence_test_add_none_existing_sequence() {
    let config = create_config_with_timeout(5);
    let mut detector = PortSequenceDetector::new(config);
    detector.add_sequence("127.0.0.1".to_owned(), 9);
    assert_eq!(detector.observed("127.0.0.1"), None);
}

#[test]
fn test_match_sequence() {
    let config = create_config();
    let mut detector = PortSequenceDetector::new(config);
    detector.add_sequence("127.0.0.1".to_owned(), 1);
    detector.add_sequence("127.0.0.1".to_owned(), 3);
    detector.add_sequence("127.0.0.1".to_owned(), 5);
    detector.add_sequence("127.0.0.1".to_owned(), 6);
    assert_eq!(detector.match_sequence("127.0.0.1"), false);
    assert_eq!(detector.observed("127.0.0.1").unwrap().len(), 0);
}

#[test]
fn test_add_sequence_with_timeout() {
    let config = create_config();
    let mut detector = PortSequenceDetector::new(config);
    assert!(!detector.observe("127.0.0.1", 3, 100));
    assert_eq!(detector.observed("127.0.0.1"), Some(vec![3]));
    assert_eq!(detector.sweep(104), 1);
    assert_eq!(detector.observed("127.0.0.1"), None);
}

#[test]
fn matched_suffix_fires_the_second_rule_once() {
    let mut detector = PortSequenceDetector::new(create_config());
    assert!(!detector.observe("127.0.0.1", 1, 10));
    assert!(!detector.observe("127.0.0.1", 3, 10));
    assert!(!detector.observe("127.0.0.1", 5, 11));
    assert!(detector.observe("127.0.0.1", 6, 11));
    let due = detector.take_dispatches();
    assert_eq!(due.len(), 1);
    assert_eq!(due[0].rule, "disable ssh");
    assert_eq!(due[0].client_address, "127.0.0.1");
    assert_eq!(due[0].command, "free -g");
    assert_eq!(detector.pending_count(), 0);
}

#[test]
fn exact_knock_fires_once_and_clears() {
    let mut detector = PortSequenceDetector::new(create_config());
    assert!(!detector.observe("10.1.1.1", 1, 50));
    assert!(!detector.observe("10.1.1.1", 2, 51));
    assert_eq!(detector.pending_count(), 0);
    assert!(detector.observe("10.1.1.1", 3, 52));
    assert_eq!(detector.pending_count(), 1);
    assert_eq!(detector.observed("10.1.1.1"), Some(vec![]));
    assert_eq!(detector.last_observed_at("10.1.1.1"), Some(52));
    assert_eq!(detector.client_count(), 1);
    let due = detector.drain();
    assert_eq!(due.len(), 1);
    assert_eq!(due[0].rule, "enable ssh");
    assert!(!detector.evaluate("10.1.1.1", 52));
    assert_eq!(detector.pending_count(), 0);
}

#[test]
fn irrelevant_ports_are_not_recorded() {
    let config = Config {
        interface: "lo".to_string(),
        timeout: 5,
        rules: vec![rule("r", vec![1, 2, 3], "true")],
    };
    let mut detector = PortSequenceDetector::new(config);
    assert!(!detector.listens_on(9));
    assert!(detector.listens_on(2));
    assert!(!detector.observe("c", 9, 1));
    assert_eq!(detector.observed("c"), None);
    assert_eq!(detector.client_count(), 0);
    assert!(!detector.observe("c", 1, 1));
    assert!(!detector.observe("c", 9, 1));
    assert!(!detector.observe("c", 2, 2));
    assert_eq!(detector.observed("c"), Some(vec![1, 2]));
    assert!(detector.observe("c", 3, 2));
    assert_eq!(detector.observed("c"), Some(vec![]));
    assert_eq!(detector.drain().len(), 1);
}

#[test]
fn irrelevant_port_does_not_refresh_the_entry() {
    let mut detector = PortSequenceDetector::new(create_config());
    detector.observe("c", 1, 10);
    detector.observe("c", 9, 12);
    assert_eq!(detector.last_observed_at("c"), Some(10));
    assert_eq!(detector.sweep(13), 1);
}

#[test]
fn shared_port_is_consumed_by_the_first_rule() {
    let mut detector = PortSequenceDetector::new(create_config_with_timeout(5));
    let mut fired = Vec::new();
    for (i, port) in [1, 2, 3, 5, 6].iter().enumerate() {
        fired.push(detector.observe("192.168.0.7", *port, 100 + i as u64));
    }
    assert_eq!(fired, vec![false, false, true, false, false]);
    assert_eq!(detector.observed("192.168.0.7"), Some(vec![5, 6]));
    let due = detector.drain();
    assert_eq!(due.len(), 1);
    assert_eq!(due[0].rule, "enable ssh");
    assert_eq!(due[0].command, "ls -lh");
}

#[test]
fn declaration_order_breaks_ties() {
    let config = Config {
        interface: "lo".to_string(),
        timeout: 5,
        rules: vec![
            rule("long", vec![4, 5, 6], "long %IP%"),
            rule("short", vec![6], "short %IP%"),
        ],
    };
    let mut detector = PortSequenceDetector::new(config);
    detector.observe("h", 4, 0);
    detector.observe("h", 5, 0);
    assert!(detector.observe("h", 6, 0));
    assert_eq!(commands(&detector.drain()), vec!["long h".to_string()]);
    assert!(detector.observe("h", 6, 0));
    assert_eq!(commands(&detector.drain()), vec!["short h".to_string()]);

    let config = Config {
        interface: "lo".to_string(),
        timeout: 5,
        rules: vec![
            rule("short", vec![6], "short %IP%"),
            rule("long", vec![4, 5, 6], "long %IP%"),
        ],
    };
    let mut detector = PortSequenceDetector::new(config);
    detector.observe("h", 4, 0);
    detector.observe("h", 5, 0);
    assert!(detector.observe("h", 6, 0));
    assert_eq!(commands(&detector.drain()), vec!["short h".to_string()]);
}

#[test]
fn earlier_rule_keeps_a_longer_one_from_firing() {
    let config = Config {
        interface: "lo".to_string(),
        timeout: 5,
        rules: vec![rule("a", vec![1, 2], "a"), rule("b", vec![1, 2, 3], "b")],
    };
    let mut detector = PortSequenceDetector::new(config);
    assert!(!detector.observe("h", 1, 0));
    assert!(detector.observe("h", 2, 0));
    assert!(!detector.observe("h", 3, 0));
    assert_eq!(commands(&detector.drain()), vec!["a".to_string()]);
    assert_eq!(detector.observed("h"), Some(vec![3]));
}

#[test]
fn stale_partial_knock_restarts() {
    let config = Config {
        interface: "lo".to_string(),
        timeout: 5,
        rules: vec![rule("r", vec![1, 2, 3], "true")],
    };
    let mut detector = PortSequenceDetector::new(config);
    detector.observe("c", 1, 100);
    detector.observe("c", 2, 101);
    assert_eq!(detector.sweep(107), 1);
    assert_eq!(detector.observed("c"), None);
    assert!(!detector.observe("c", 3, 107));
    assert_eq!(detector.observed("c"), Some(vec![3]));
    assert_eq!(detector.pending_count(), 0);
}

#[test]
fn stale_partial_knock_restarts_without_a_sweep() {
    let config = Config {
        interface: "lo".to_string(),
        timeout: 5,
        rules: vec![rule("r", vec![1, 2, 3], "true")],
    };
    let mut detector = PortSequenceDetector::new(config);
    detector.observe("c", 1, 100);
    detector.observe("c", 2, 101);
    assert!(!detector.observe("c", 3, 107));
    assert_eq!(detector.observed("c"), Some(vec![3]));
    assert_eq!(detector.last_observed_at("c"), Some(107));
    assert_eq!(detector.pending_count(), 0);
}

#[test]
fn pause_of_exactly_the_timeout_still_counts() {
    let config = Config {
        interface: "lo".to_string(),
        timeout: 5,
        rules: vec![rule("r", vec![1, 2], "true")],
    };
    let mut detector = PortSequenceDetector::new(config);
    detector.observe("c", 1, 100);
    assert_eq!(detector.sweep(105), 0);
    assert!(detector.observe("c", 2, 105));
}

#[test]
fn clock_running_backwards_expires_nothing() {
    let mut detector = PortSequenceDetector::new(create_config());
    detector.observe("c", 1, 100);
    assert_eq!(detector.sweep(50), 0);
    assert!(!detector.observe("c", 2, 40));
    assert_eq!(detector.observed("c"), Some(vec![1, 2]));
    assert_eq!(detector.last_observed_at("c"), Some(40));
}

#[test]
fn dead_entry_completes_nothing_on_evaluation() {
    let config = Config {
        interface: "lo".to_string(),
        timeout: 5,
        rules: vec![rule("r", vec![1, 2], "true"), rule("s", vec![1], "true")],
    };
    let mut detector = PortSequenceDetector::new(config);
    assert!(detector.observe("c", 1, 0));
    detector.drain();
    assert!(!detector.evaluate("c", 3));
    assert!(!detector.evaluate("nobody", 3));
    assert_eq!(detector.pending_count(), 0);
}

#[test]
fn clients_do_not_disturb_one_another() {
    let mut detector = PortSequenceDetector::new(create_config_with_timeout(5));
    detector.observe("a", 1, 0);
    detector.observe("b", 3, 1);
    detector.observe("a", 2, 1);
    detector.observe("c", 1, 2);
    detector.observe("b", 5, 2);
    assert_eq!(detector.observed("a"), Some(vec![1, 2]));
    assert_eq!(detector.observed("b"), Some(vec![3, 5]));
    assert_eq!(detector.observed("c"), Some(vec![1]));
    assert_eq!(detector.last_observed_at("a"), Some(1));
    assert_eq!(detector.last_observed_at("b"), Some(2));
    assert!(detector.observe("a", 3, 3));
    assert!(detector.observe("b", 6, 3));
    assert_eq!(detector.observed("a"), Some(vec![]));
    assert_eq!(detector.observed("b"), Some(vec![]));
    assert_eq!(detector.observed("c"), Some(vec![1]));
    let due = detector.drain();
    assert_eq!(due.len(), 2);
    assert_eq!((due[0].rule.as_str(), due[0].client_address.as_str()), ("enable ssh", "a"));
    assert_eq!((due[1].rule.as_str(), due[1].client_address.as_str()), ("disable ssh", "b"));
    assert_eq!(detector.client_count(), 3);
}

#[test]
fn interleaving_gives_what_each_client_alone_gives() {
    let mut together = PortSequenceDetector::new(create_config_with_timeout(5));
    together.observe("a", 1, 0);
    together.observe("b", 1, 0);
    together.observe("a", 2, 1);
    together.sweep(2);
    together.observe("b", 9, 2);
    together.observe("b", 2, 3);
    together.observe("a", 3, 3);
    let mut alone = PortSequenceDetector::new(create_config_with_timeout(5));
    alone.observe("a", 1, 0);
    alone.observe("a", 2, 1);
    alone.sweep(2);
    alone.observe("a", 3, 3);
    assert_eq!(together.observed("a"), alone.observed("a"));
    assert_eq!(together.last_observed_at("a"), alone.last_observed_at("a"));
    let mine: Vec<String> = together
        .drain()
        .into_iter()
        .filter(|d| d.client_address == "a")
        .map(|d| d.rule)
        .collect();
    let only: Vec<String> = alone.drain().into_iter().map(|d| d.rule).collect();
    assert_eq!(mine, only);
    assert_eq!(only, vec!["enable ssh".to_string()]);
}

#[test]
fn sweep_removes_only_the_dead() {
    let mut detector = PortSequenceDetector::new(create_config());
    detector.observe("old", 1, 10);
    detector.observe("older", 1, 5);
    detector.observe("new", 1, 12);
    assert_eq!(detector.client_count(), 3);
    assert_eq!(detector.sweep(13), 2);
    assert_eq!(detector.client_count(), 1);
    assert_eq!(detector.observed("new"), Some(vec![1]));
    assert_eq!(detector.observed("old"), None);
    assert_eq!(detector.sweep(13), 0);
    assert_eq!(detector.sweep(15), 1);
    assert_eq!(detector.client_count(), 0);
}

#[test]
fn enable_ssh_within_a_second() {
    let mut detector = PortSequenceDetector::new(ssh_config());
    assert!(!detector.observe("10.0.0.5", 7000, 1000));
    assert!(!detector.observe("10.0.0.5", 8000, 1000));
    assert!(detector.observe("10.0.0.5", 9000, 1001));
    let due = detector.take_dispatches();
    assert_eq!(due.len(), 1);
    assert_eq!(due[0].rule, "enable-ssh");
    assert_eq!(due[0].client_address, "10.0.0.5");
    assert_eq!(due[0].command, "iptables -A INPUT -s 10.0.0.5 -p tcp --dport 22 -j ACCEPT");
    assert_eq!(detector.observed("10.0.0.5"), Some(vec![]));
}

#[test]
fn enable_ssh_with_a_pause_of_six_seconds() {
    let mut detector = PortSequenceDetector::new(ssh_config());
    assert!(!detector.observe("10.0.0.5", 7000, 1000));
    assert!(!detector.observe("10.0.0.5", 8000, 1000));
    assert!(!detector.observe("10.0.0.5", 9000, 1006));
    assert_eq!(detector.take_dispatches().len(), 0);
    assert_eq!(detector.observed("10.0.0.5"), Some(vec![9000]));

    let mut swept = PortSequenceDetector::new(ssh_config());
    swept.observe("10.0.0.5", 7000, 1000);
    swept.observe("10.0.0.5", 8000, 1000);
    assert_eq!(swept.sweep(1006), 1);
    assert!(!swept.observe("10.0.0.5", 9000, 1006));
    assert_eq!(swept.pending_count(), 0);
}

#[test]
fn only_the_first_of_two_sharing_rules_fires() {
    let mut detector = PortSequenceDetector::new(create_config_with_timeout(5));
    for port in [1, 2, 3, 5, 6] {
        detector.add_sequence("172.16.0.9".to_owned(), port);
    }
    let due = detector.take_dispatches();
    let rules: Vec<&str> = due.iter().map(|d| d.rule.as_str()).collect();
    assert_eq!(rules, vec!["enable ssh"]);
    assert_eq!(detector.observed("172.16.0.9"), Some(vec![5, 6]));
    assert!(!detector.match_sequence("172.16.0.9"));
}

#[test]
fn expire_through_the_clock_keeps_fresh_clients() {
    let config = Config {
        interface: "lo".to_string(),
        timeout: 3600,
        rules: vec![rule("r", vec![1, 2], "true")],
    };
    let mut detector = PortSequenceDetector::new(config);
    detector.add_sequence("c".to_owned(), 1);
    assert_eq!(detector.expire(), 0);
    assert_eq!(detector.observed("c"), Some(vec![1]));
    assert!(detector.last_observed_at("c").unwrap() > 1_600_000_000);
}

#[test]
fn sweep_before_or_after_an_observation_is_the_same() {
    let build = || {
        let mut detector = PortSequenceDetector::new(create_config());
        detector.observe("a", 1, 10);
        detector.observe("b", 1, 10);
        detector.observe("b", 2, 12);
        detector.observe("c", 3, 13);
        detector
    };
    let mut first = build();
    first.sweep(14);
    let fired_first = first.observe("a", 2, 14);
    let mut second = build();
    let fired_second = second.observe("a", 2, 14);
    second.sweep(14);
    assert_eq!(fired_first, fired_second);
    for client in ["a", "b", "c", "d"] {
        assert_eq!(first.observed(client), second.observed(client));
        assert_eq!(first.last_observed_at(client), second.last_observed_at(client));
    }
    assert_eq!(first.observed("a"), Some(vec![2]));
    assert_eq!(first.observed("c"), Some(vec![3]));
    assert_eq!(first.client_count(), 3);
    assert_eq!(first.pending_count(), second.pending_count());
}

#[test]
fn cleared_record_needs_the_whole_knock_again() {
    let mut detector = PortSequenceDetector::new(create_config_with_timeout(5));
    for port in [1, 2, 3] {
        detector.observe("h", port, 0);
    }
    assert_eq!(detector.drain().len(), 1);
    assert!(!detector.observe("h", 5, 1));
    assert!(!detector.observe("h", 6, 1));
    assert!(!detector.observe("h", 3, 2));
    assert!(!detector.observe("h", 5, 2));
    assert!(detector.observe("h", 6, 2));
    assert_eq!(commands(&detector.drain()), vec!["du -sh *".to_string()]);
}
