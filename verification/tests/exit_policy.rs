use root::addr::Ipv4Addr;
use root::exit_policy::{ExitPolicy, PolicyErrorKind};

#[test]
fn test_exit_policy_reject_all_default() {
    let policy = ExitPolicy::reject_all();
    assert!(!policy.is_allowed(Ipv4Addr::new(8, 8, 8, 8), 443));
}

#[test]
fn test_exit_policy_parse_and_evaluate() {
    let text = "\
        # comment line\n\
        reject 127.0.0.0/8:*\n\
        reject *:25\n\
        accept *:*\n\
    ";
    let policy = ExitPolicy::parse(text).unwrap();
    // Loopback rejected regardless of port.
    assert!(!policy.is_allowed(Ipv4Addr::new(127, 0, 0, 1), 80));
    // SMTP rejected everywhere.
    assert!(!policy.is_allowed(Ipv4Addr::new(93, 184, 216, 34), 25));
    // Everything else accepted by the trailing wildcard.
    assert!(policy.is_allowed(Ipv4Addr::new(93, 184, 216, 34), 443));
}

#[test]
fn test_exit_policy_implicit_final_reject() {
    let policy = ExitPolicy::parse("accept 10.0.0.0/8:*\n").unwrap();
    assert!(policy.is_allowed(Ipv4Addr::new(10, 1, 2, 3), 22));
    assert!(!policy.is_allowed(Ipv4Addr::new(8, 8, 8, 8), 22));
}

#[test]
fn test_exit_policy_rejects_bad_syntax() {
    assert!(ExitPolicy::parse("maybe *:*\n").is_err());
    assert!(ExitPolicy::parse("accept not-an-ip:80\n").is_err());
    assert!(ExitPolicy::parse("accept *:notaport\n").is_err());
}

fn error(text: &str) -> (usize, PolicyErrorKind, String) {
    let e = ExitPolicy::parse(text).unwrap_err();
    (e.line, e.kind, e.message())
}

#[test]
fn every_syntax_error_is_reported_with_its_line() {
    assert_eq!(
        error("\n# fine\nMaybe *:*\n"),
        (
            3,
            PolicyErrorKind::UnknownAction,
            "exit-policy line 3: unknown action 'maybe' (expected accept/reject)".to_string()
        )
    );
    assert_eq!(
        error("accept   # nothing"),
        (
            1,
            PolicyErrorKind::MissingTarget,
            "exit-policy line 1: missing <ip-or-cidr>:<port-or-*>".to_string()
        )
    );
    assert_eq!(
        error("accept 1.2.3.4"),
        (
            1,
            PolicyErrorKind::MissingPort,
            "exit-policy line 1: expected '<ip-or-cidr>:<port-or-*>', got '1.2.3.4'".to_string()
        )
    );
    assert_eq!(
        error("accept *:*\r\nreject 1.2.3.4/256:80\r\n"),
        (
            2,
            PolicyErrorKind::BadPrefix,
            "exit-policy line 2: bad CIDR prefix '256'".to_string()
        )
    );
    assert_eq!(
        error("reject 1.2.3.04:80"),
        (
            1,
            PolicyErrorKind::BadAddress,
            "exit-policy line 1: bad IPv4 address '1.2.3.04'".to_string()
        )
    );
    assert_eq!(
        error("reject 1.2.3.4:65536"),
        (1, PolicyErrorKind::BadPort, "exit-policy line 1: bad port '65536'".to_string())
    );
}

#[test]
fn words_may_be_in_capitals_and_further_words_are_ignored() {
    let policy = ExitPolicy::parse("  ACCEPT\t192.168.0.0/16:+80 as agreed\n").unwrap();
    assert_eq!(policy.rules.len(), 1);
    assert!(policy.is_allowed(Ipv4Addr::new(192, 168, 77, 1), 80));
    assert!(!policy.is_allowed(Ipv4Addr::new(192, 169, 77, 1), 80));
    assert!(!policy.is_allowed(Ipv4Addr::new(192, 168, 77, 1), 81));
}

#[test]
fn the_first_matching_rule_wins() {
    let policy = ExitPolicy::parse("accept 10.1.0.0/16:*\nreject 10.0.0.0/8:*\naccept *:443").unwrap();
    assert!(policy.is_allowed(Ipv4Addr::new(10, 1, 9, 9), 1));
    assert!(!policy.is_allowed(Ipv4Addr::new(10, 2, 9, 9), 443));
    assert!(policy.is_allowed(Ipv4Addr::new(11, 2, 9, 9), 443));
    assert!(!policy.is_allowed(Ipv4Addr::new(11, 2, 9, 9), 80));
}

#[test]
fn prefix_lengths_at_the_ends() {
    let all = ExitPolicy::parse("accept 1.2.3.4/0:*").unwrap();
    assert!(all.is_allowed(Ipv4Addr::new(255, 255, 255, 255), 9));
    let one = ExitPolicy::parse("accept 1.2.3.4/200:*").unwrap();
    assert!(one.is_allowed(Ipv4Addr::new(1, 2, 3, 4), 9));
    assert!(!one.is_allowed(Ipv4Addr::new(1, 2, 3, 5), 9));
    let two = ExitPolicy::parse("accept 1.2.3.4/31:*").unwrap();
    assert!(two.is_allowed(Ipv4Addr::new(1, 2, 3, 5), 9));
    assert!(!two.is_allowed(Ipv4Addr::new(1, 2, 3, 6), 9));
}

#[test]
fn only_the_words_of_the_rules_matter() {
    let plain = "reject 127.0.0.0/8:*\nreject *:25\naccept *:*";
    let spelled = "\n  # a policy\n\tREJECT   127.0.0.0/8:*  # local\n\n#\nReject *:25\r\n  aCCept *:* \t\n\n";
    let a = ExitPolicy::parse(plain).unwrap();
    let b = ExitPolicy::parse(spelled).unwrap();
    assert_eq!(a.rules.len(), 3);
    assert_eq!(b.rules.len(), 3);
    for (x, y) in a.rules.iter().zip(&b.rules) {
        assert_eq!((x.action, x.net, x.port), (y.action, y.net, y.port));
    }
    assert!(ExitPolicy::parse("accept").is_err());
    assert!(ExitPolicy::parse("\n ACCEPT # *:*\n").is_err());
}
