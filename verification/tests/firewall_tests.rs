use panel_cli::firewall::{
    address_eq, batch_add, docker_apply, docker_mode_zh, docker_operate, docker_policy_del,
    endpoint_line, firewall_provider, ip_del_uuids, list, operate, parse_docker_port, parse_target,
    port_add, port_del_uuids, port_rules, protocol_eq, protocols, scopes, stable_rows,
    unified_create, unified_list, validate_strategy, Backend, CheckPlan, DockerEndpoint,
    FireInfo, FirewallError, InventoryItem, IpOptions, ListOptions, ListPlan, PortOptions,
    RuleRequest, rules_outcome,
};

fn port_opts(protocol: &str, strategy: &str, source: &str) -> PortOptions {
    PortOptions {
        protocol: protocol.into(),
        strategy: strategy.into(),
        source: source.into(),
        desc: "test".into(),
    }
}

fn item(port: &str, proto: &str, src: &str, action: &str, uuid: Option<&str>) -> InventoryItem {
    InventoryItem {
        source_address: src.into(),
        destination_address: String::new(),
        source_port: String::new(),
        destination_port: port.into(),
        protocol: proto.into(),
        action: action.into(),
        description: "web".into(),
        state: Some("applied".into()),
        uuid: uuid.map(|u| u.to_string()),
    }
}

#[test]
fn builds_new_firewall_scopes() {
    assert_eq!(scopes("iptables").len(), 6);
    assert_eq!(scopes("firewalld").len(), 1);
    assert_eq!(scopes("ufw").len(), 2);
}

#[test]
fn expands_tcp_udp_port_rule() {
    let opts = PortOptions {
        protocol: "tcp/udp".into(),
        strategy: "accept".into(),
        source: String::new(),
        desc: "test".into(),
    };
    let rules = port_rules("iptables", "8080", &opts).unwrap();
    assert_eq!(rules.len(), 2);
    assert_eq!(rules[0].scope.as_ref().unwrap().chain.as_deref(), Some("1PANEL_BASIC"));
}

#[test]
fn matches_normalized_host_addresses() {
    assert!(address_eq("1.2.3.4/32", "1.2.3.4"));
    assert!(address_eq("2001:db8::1/128", "2001:db8::1"));
}

#[test]
fn strategy_and_protocol_normalization() {
    assert_eq!(validate_strategy("ALLOW").unwrap(), "accept");
    assert_eq!(validate_strategy("Block").unwrap(), "drop");
    assert!(matches!(validate_strategy("maybe"), Err(FirewallError::UnsupportedStrategy(s)) if s == "maybe"));
    assert_eq!(protocols("UDP/tcp").unwrap(), vec!["tcp".to_string(), "udp".to_string()]);
    assert!(matches!(protocols("icmp"), Err(FirewallError::UnsupportedProtocol(_))));
    assert!(protocol_eq("TCP", "tcp/udp"));
    assert!(!protocol_eq("icmp", "tcp/udp"));
}

#[test]
fn port_rules_scope_per_backend() {
    let rules = port_rules("firewalld", "22", &port_opts("tcp", "accept", "")).unwrap();
    assert_eq!(rules.len(), 1);
    let scope = rules[0].scope.as_ref().unwrap();
    assert_eq!(scope.family, "inet");
    assert_eq!(scope.zone.as_deref(), Some("public"));
    assert_eq!(scope.direction, "input");
    let rules = port_rules("ufw", "22", &port_opts("tcp", "drop", "fe80::1")).unwrap();
    let scope = rules[0].scope.as_ref().unwrap();
    assert_eq!(scope.family, "ipv6");
    assert_eq!(scope.chain.as_deref(), Some("incoming"));
    assert_eq!(rules[0].action, "drop");
    assert_eq!(rules[0].destination_port.as_deref(), Some("22"));
}

#[test]
fn provider_is_recognized() {
    assert_eq!(firewall_provider(Some("NFTables"), Some("firewalld")).unwrap(), "nftables");
    assert_eq!(firewall_provider(Some(""), Some("ufw")).unwrap(), "ufw");
    assert!(matches!(firewall_provider(None, Some("pf")), Err(FirewallError::UnknownProvider(p)) if p == "pf"));
}

#[test]
fn create_plan_counts_existing_and_blocks() {
    let plan = |d: &str, c: &str, actions: &[&str]| CheckPlan {
        decision: d.into(),
        classification: c.into(),
        reason: None,
        allowed_actions: actions.iter().map(|a| a.to_string()).collect(),
    };
    let plans = vec![plan("create", "new", &["create"]), plan("no_change", "", &[]), plan("", "exact_managed", &[])];
    let p = unified_create(&plans).unwrap();
    assert_eq!(p.creates, vec![0]);
    assert_eq!(p.existing, 2);
    let plans = vec![plan("create", "new", &["create"]), plan("blocked", "conflict", &[])];
    assert!(matches!(unified_create(&plans), Err(FirewallError::Blocked(None, c)) if c == "conflict"));
    let plans = vec![plan("", "partial", &["update"])];
    assert!(matches!(unified_create(&plans), Err(FirewallError::CreateNotAllowed(c)) if c == "partial"));
}

#[test]
fn deletion_picks_managed_matching_rules() {
    let items = vec![
        item("8080", "tcp", "", "accept", Some("u1")),
        item("8080", "udp", "", "accept", Some("u2")),
        item("8080", "tcp", "", "drop", Some("u3")),
        item("8080", "tcp", "", "accept", None),
        item("9090", "tcp", "", "accept", Some("u4")),
    ];
    let v = port_del_uuids(&items, "8080", &port_opts("tcp", "allow", "")).unwrap();
    assert_eq!(v, vec!["u1".to_string()]);
    let v = port_del_uuids(&items, "8080", &port_opts("tcp/udp", "accept", "")).unwrap();
    assert_eq!(v, vec!["u1".to_string(), "u2".to_string()]);
    assert!(matches!(port_del_uuids(&items, "7070", &port_opts("tcp", "accept", "")), Err(FirewallError::NothingToDelete)));
    let ips = vec![item("", "all", "10.0.0.1/32", "drop", Some("i1"))];
    let ip = IpOptions { strategy: "deny".into(), desc: String::new() };
    assert_eq!(ip_del_uuids(&ips, "10.0.0.1", &ip).unwrap(), vec!["i1".to_string()]);
}

#[test]
fn listing_filters_and_rows() {
    let items = vec![
        item("8080", "tcp", "", "accept", Some("u1")),
        item("", "all", "10.0.0.1", "drop", Some("u2")),
    ];
    let opts = ListOptions { kind: "port".into(), info: "WEB".into(), strategy: "ACCEPT".into() };
    let rows = unified_list(&items, &opts);
    assert_eq!(rows, vec![vec!["8080", "tcp", "accept", "Anywhere", "applied", "web"]
        .into_iter().map(String::from).collect::<Vec<_>>()]);
    let opts = ListOptions { kind: "address".into(), info: String::new(), strategy: String::new() };
    let rows = unified_list(&items, &opts);
    assert_eq!(rows.len(), 1);
    assert_eq!(rows[0][0], "10.0.0.1");
    match list(&ListOptions { kind: String::new(), info: "x".into(), strategy: String::new() }, true).unwrap() {
        ListPlan::UnifiedRules(o) => assert_eq!(o.kind, "port"),
        _ => panic!("wrong plan"),
    }
    assert!(matches!(list(&ListOptions { kind: "NAT".into(), info: String::new(), strategy: String::new() }, true), Err(FirewallError::UnsupportedType(t)) if t == "nat"));
    let info = FireInfo {
        num: "1".into(),
        address: "".into(),
        port: "80".into(),
        protocol: "tcp".into(),
        strategy: "accept".into(),
        used_status: "used".into(),
        description: "".into(),
        target_ip: "10.0.0.2".into(),
        target_port: "8080".into(),
        interface: "".into(),
    };
    let rows = stable_rows("forward", &vec![info]).unwrap();
    assert_eq!(rows[0], vec!["1", "80", "10.0.0.2:8080", "tcp", "*"].into_iter().map(String::from).collect::<Vec<_>>());
}

#[test]
fn requests_for_old_and_unified_panels() {
    match port_add("80", &port_opts("tcp", "accept", ""), &Backend::Stable).unwrap() {
        RuleRequest::StablePort(b) => {
            assert_eq!(b.operation, "add");
            assert_eq!(b.port, "80");
        }
        _ => panic!("wrong request"),
    }
    match port_add("80", &port_opts("tcp/udp", "accept", ""), &Backend::Unified("ufw".into())).unwrap() {
        RuleRequest::Check(rules) => assert_eq!(rules.len(), 2),
        _ => panic!("wrong request"),
    }
    match batch_add("80, 443,,", &port_opts("tcp", "accept", ""), &Backend::Unified("iptables".into())).unwrap() {
        RuleRequest::Check(rules) => {
            assert_eq!(rules.len(), 2);
            assert_eq!(rules[1].destination_port.as_deref(), Some("443"));
        }
        _ => panic!("wrong request"),
    }
    assert!(matches!(batch_add(" , ", &port_opts("tcp", "accept", ""), &Backend::Unified("ufw".into())), Err(FirewallError::NoPorts)));
    assert_eq!(parse_target("10.0.0.2:8080").unwrap(), ("10.0.0.2".to_string(), "8080".to_string()));
    assert!(matches!(parse_target("nowhere"), Err(FirewallError::BadTarget)));
    assert_eq!(operate("allow-ping").unwrap(), "disableBanPing");
    assert_eq!(docker_operate("init").unwrap(), "initialize");
    assert!(matches!(docker_policy_del("  "), Err(FirewallError::MissingUuid)));
}

#[test]
fn docker_ports_and_policies() {
    assert_eq!(parse_docker_port(" 8080 ").unwrap(), (String::new(), 8080));
    assert_eq!(parse_docker_port("[::1]:443").unwrap(), ("::1".to_string(), 443));
    assert!(matches!(parse_docker_port("0.0.0.0:http"), Err(FirewallError::BadDockerPortNumber(s)) if s == "0.0.0.0:http"));
    assert!(matches!(parse_docker_port("web"), Err(FirewallError::BadDockerPort(_))));
    let ep = |ip: &str, port: u64, proto: &str| DockerEndpoint {
        family: Some("ipv4".into()),
        host_ip: Some(ip.into()),
        host_port: Some(port),
        protocol: Some(proto.into()),
        mode: Some("deny_all".into()),
        sources: vec![],
        effective: Some(true),
        description: None,
        policy_uuid: None,
    };
    let eps = vec![ep("0.0.0.0", 8080, "tcp"), ep("0.0.0.0", 8080, "udp"), ep("0.0.0.0", 9090, "tcp")];
    let b = docker_apply(&eps, "8080", "tcp", "1.1.1.1, 2.2.2.2", "d", "allow_sources").unwrap();
    assert_eq!(b.endpoints.len(), 1);
    assert_eq!(b.mode, "allow_sources");
    assert_eq!(b.sources, vec!["1.1.1.1".to_string(), "2.2.2.2".to_string()]);
    let b = docker_apply(&eps, "8080", "tcp/udp", "", "d", "other").unwrap();
    assert_eq!(b.endpoints.len(), 2);
    assert_eq!(b.mode, "deny_all");
    let b = docker_apply(&eps, "8080", "tcp", "1.2.3.4", "d", "deny_all").unwrap();
    assert_eq!(b.mode, "deny_all");
    assert!(b.sources.is_empty());
    let b = docker_apply(&eps, "8080", "tcp", "1.2.3.4", "d", "deny_sources").unwrap();
    assert_eq!(b.sources, vec!["1.2.3.4".to_string()]);
    assert!(matches!(docker_apply(&eps, "8080", "tcp", " , ", "d", "deny_sources"), Err(FirewallError::DenyNeedsSources)));
    assert!(matches!(docker_apply(&eps, "8080", "tcp", "", "d", "allow_sources"), Err(FirewallError::AllowNeedsSources)));
    assert!(matches!(docker_apply(&eps, "7070", "tcp", "", "d", "deny_all"), Err(FirewallError::NoPublishedPort)));
    assert_eq!(endpoint_line(&eps[0]), "0.0.0.0:8080/tcp");
    let mut v6 = ep("::", 80, "tcp");
    v6.family = Some("ipv6".into());
    assert_eq!(endpoint_line(&v6), "[::]:80/tcp");
    assert_eq!(docker_mode_zh("deny_sources"), "拒绝来源");
}

#[test]
fn rule_batch_outcome_needs_code_200_and_no_failures() {
    assert_eq!(rules_outcome(Some(200), Some(""), Some(0), Some(3)).unwrap(), 3);
    assert_eq!(rules_outcome(Some(200), None, None, None).unwrap(), 0);
    assert!(matches!(rules_outcome(Some(200), None, Some(2), Some(1)), Err(FirewallError::ItemsFailed(2))));
    assert!(matches!(
        rules_outcome(Some(500), Some("boom"), Some(0), Some(1)),
        Err(FirewallError::Panel(500, ref m)) if m == "boom"
    ));
    assert!(matches!(rules_outcome(None, None, None, None), Err(FirewallError::Panel(-1, _))));
}
