use knock::command::{dispatch, format_command, is_whitespace, parse_command, split_command};
use knock::config::{Config, Rule};
use knock::matching::{ends_with, find_match};

fn rule(name: &str, sequence: Vec<i32>, command: &str) -> Rule {
    Rule { name: name.to_string(), sequence, command: command.to_string() }
}

#[test]
fn placeholder_is_replaced_everywhere() {
    assert_eq!(format_command("allow %IP%", "10.0.0.5"), "allow 10.0.0.5");
    assert_eq!(format_command("%IP%", "h"), "h");
    assert_eq!(format_command("%IP%%IP%", "ab"), "abab");
    assert_eq!(format_command("a %IP% b %IP% c", "1.2.3.4"), "a 1.2.3.4 b 1.2.3.4 c");
    assert_eq!(format_command("", "x"), "");
    assert_eq!(format_command("ls -lh", "x"), "ls -lh");
}

#[test]
fn placeholder_matches_are_leftmost_and_do_not_overlap() {
    assert_eq!(format_command("%IP%IP%", "x"), "xIP%");
    assert_eq!(format_command("%%IP%", "x"), "%x");
    assert_eq!(format_command("%IP", "x"), "%IP");
    assert_eq!(format_command("%ip%", "x"), "%ip%");
    assert_eq!(format_command("%I%IP%P%", "x"), "%IxP%");
}

#[test]
fn inserted_address_is_not_scanned_again() {
    assert_eq!(format_command("a%IP%b", "%IP%"), "a%IP%b");
    assert_eq!(format_command("%IP%", "%I"), "%I");
    assert_eq!(format_command("%IP%P%", "%I"), "%IP%");
}

#[test]
fn address_is_inserted_verbatim() {
    assert_eq!(format_command("echo %IP%", "1.1.1.1; reboot"), "echo 1.1.1.1; reboot");
    assert_eq!(format_command("é%IP%ü", "ß"), "éßü");
}

#[test]
fn format_agrees_with_replace() {
    for template in ["x %IP% y", "%%IP%%", "%IP%IP%IP%", "%I%P%IP%", "日本%IP%語"] {
        for address in ["", "::1", "%", "%IP%"] {
            assert_eq!(format_command(template, address), template.replace("%IP%", address));
        }
    }
}

#[test]
fn dispatch_names_rule_client_and_command() {
    let r = rule("open", vec![1], "fw allow %IP% --for %IP%");
    let due = dispatch(&r, "192.0.2.1");
    assert_eq!(due.rule, "open");
    assert_eq!(due.client_address, "192.0.2.1");
    assert_eq!(due.command, "fw allow 192.0.2.1 --for 192.0.2.1");
}

#[test]
fn command_splits_at_white_space() {
    assert_eq!(split_command("ls -lh ./"), vec!["ls", "-lh", "./"]);
    assert_eq!(split_command("  free   -g\t\n"), vec!["free", "-g"]);
    assert_eq!(split_command("one"), vec!["one"]);
    assert_eq!(split_command(""), Vec::<String>::new());
    assert_eq!(split_command(" \t "), Vec::<String>::new());
    assert_eq!(split_command("a\u{a0}b\u{3000}c"), vec!["a", "b", "c"]);
    assert_eq!(split_command("é ü"), vec!["é", "ü"]);
}

#[test]
fn split_agrees_with_split_whitespace() {
    for line in ["iptables -A INPUT -s 10.0.0.5 -j ACCEPT", " x", "x ", "\u{2003}a\u{85}b", "a\u{200b}b"] {
        let expected: Vec<String> = line.split_whitespace().map(|w| w.to_string()).collect();
        assert_eq!(split_command(line), expected);
    }
}

#[test]
fn white_space_is_what_unicode_says() {
    for code in 0u32..0x3100 {
        if let Some(c) = char::from_u32(code) {
            assert_eq!(is_whitespace(c), c.is_whitespace(), "U+{:04X}", code);
        }
    }
    assert!(!is_whitespace('\u{feff}'));
}

#[test]
fn suffix_match_is_exact() {
    assert!(ends_with(&[1, 2, 3], &[1, 2, 3]));
    assert!(ends_with(&[9, 1, 2, 3], &[1, 2, 3]));
    assert!(ends_with(&[1, 2, 3], &[3]));
    assert!(ends_with(&[1, 2, 3], &[]));
    assert!(ends_with(&[], &[]));
    assert!(!ends_with(&[2, 3], &[1, 2, 3]));
    assert!(!ends_with(&[1, 2, 3, 4], &[1, 2, 3]));
    assert!(!ends_with(&[1, 3, 2], &[1, 2, 3]));
    assert!(!ends_with(&[], &[1]));
}

#[test]
fn first_declared_match_wins() {
    let rules = vec![
        rule("a", vec![1, 2, 3], ""),
        rule("b", vec![3], ""),
        rule("c", vec![2, 3], ""),
    ];
    assert_eq!(find_match(&rules, &[1, 2, 3]), Some(0));
    assert_eq!(find_match(&rules, &[2, 3]), Some(1));
    assert_eq!(find_match(&rules, &[3, 2]), None);
    assert_eq!(find_match(&rules, &[]), None);
    assert_eq!(find_match(&Vec::new(), &[1]), None);
}

#[test]
fn config_validity() {
    let good = Config {
        interface: "eth0".to_string(),
        timeout: 5,
        rules: vec![rule("a", vec![1], "x"), rule("b", vec![1], "x")],
    };
    assert!(good.is_valid());
    let twice = Config {
        interface: "eth0".to_string(),
        timeout: 5,
        rules: vec![rule("a", vec![1], "x"), rule("b", vec![2], "y"), rule("a", vec![3], "z")],
    };
    assert!(!twice.is_valid());
    let empty = Config {
        interface: "eth0".to_string(),
        timeout: 5,
        rules: vec![rule("a", vec![1], "x"), rule("b", vec![], "y")],
    };
    assert!(!empty.is_valid());
    let none = Config { interface: String::new(), timeout: 0, rules: vec![] };
    assert!(none.is_valid());
}

#[test]
fn clones_are_equal_in_every_field() {
    let config = Config {
        interface: "eth0".to_string(),
        timeout: 5,
        rules: vec![rule("a", vec![1, 2], "x %IP%")],
    };
    let copy = config.clone();
    assert_eq!(copy.interface, "eth0");
    assert_eq!(copy.timeout, 5);
    assert_eq!(copy.rules.len(), 1);
    assert_eq!(copy.rules[0].name, "a");
    assert_eq!(copy.rules[0].sequence, vec![1, 2]);
    assert_eq!(copy.rules[0].command, "x %IP%");
}

#[test]
fn command_line_is_program_and_arguments() {
    let line = parse_command("ls -lh ./").unwrap();
    assert_eq!(line.program, "ls");
    assert_eq!(line.arguments, vec!["-lh", "./"]);
    let line = parse_command("  reboot ").unwrap();
    assert_eq!(line.program, "reboot");
    assert_eq!(line.arguments, Vec::<String>::new());
    assert!(parse_command("").is_none());
    assert!(parse_command(" \n\t").is_none());
}

#[test]
fn words_hold_no_white_space() {
    for line in ["a b", " \u{a0}x\u{2028}y z\t", "iptables -I INPUT 1 -s 10.0.0.5 -j ACCEPT"] {
        for word in split_command(line) {
            assert!(!word.is_empty());
            assert!(word.chars().all(|c| !is_whitespace(c)));
        }
    }
}
