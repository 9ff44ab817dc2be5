use agentseek_desktop::env::{parse_env, EnvVariable};
use agentseek_desktop::ports::{
    available_ephemeral_port, collect_assigned_ports, is_local_service_port_key, is_local_url,
    lifecycle_ports, local_env_port_values, local_service_ports, parse_describe_ports,
    port_change_details, port_is_available, resolve_describe_ports, resolve_port_conflicts,
    sync_env_urls_from_lifecycle, synchronize_env_entries, PortChange, PortProbe, PortSearch,
};
use agentseek_desktop::urls::{endpoint_port, extract_url_port, replace_url_port};

fn template(key: &str, value: &str) -> EnvVariable {
    EnvVariable {
        key: key.to_string(),
        value: value.to_string(),
        comment: String::new(),
        source: "template".to_string(),
        modified: false,
    }
}

#[test]
fn local_service_ports_are_reassigned_without_touching_database_ports() {
    let occupied_port: u16 = 40_001;
    let free_gateway_port: u16 = 40_002;
    let mut entries = vec![
        template("FRONTEND_PORT", &occupied_port.to_string()),
        template("COPILOTKIT_PORT", &occupied_port.to_string()),
        template("MYSQL_PORT", &occupied_port.to_string()),
        template(
            "COPILOTKIT_RUNTIME_URL",
            &format!("http://127.0.0.1:{occupied_port}/api/copilotkit"),
        ),
        template("BUB_AG_UI_PORT", &free_gateway_port.to_string()),
        template("BUB_AG_UI_AGENT_URL", "http://127.0.0.1:8088/agent"),
    ];

    let changes = resolve_port_conflicts(
        &mut entries,
        &vec![free_gateway_port],
        &vec![40_003, 40_004],
    )
    .expect("resolve port conflict");

    assert!(is_local_service_port_key("FRONTEND_PORT"));
    assert!(is_local_service_port_key("COPILOTKIT_PORT"));
    assert!(!is_local_service_port_key("MYSQL_PORT"));
    assert_eq!(changes.len(), 2);
    assert_ne!(entries[0].value, occupied_port.to_string());
    assert!(entries[0].modified);
    assert_ne!(entries[1].value, occupied_port.to_string());
    assert!(entries[1].modified);
    assert_eq!(entries[2].value, occupied_port.to_string());
    assert_eq!(
        entries[3].value,
        format!("http://127.0.0.1:{}/api/copilotkit", entries[1].value)
    );
    assert!(entries[3].modified);
    assert_eq!(
        entries[5].value,
        format!("http://127.0.0.1:{free_gateway_port}/agent")
    );
    assert!(entries[5].modified);
}

#[test]
fn free_ports_stay_and_urls_follow_them() {
    let mut entries = vec![
        template("FRONTEND_PORT", "5173"),
        template("BUB_AG_UI_PORT", "9000"),
        template("BUB_AG_UI_AGENT_URL", "http://127.0.0.1:8088/agent"),
    ];
    let changes =
        resolve_port_conflicts(&mut entries, &vec![5173, 9000], &Vec::new()).expect("no conflict");
    assert!(changes.is_empty());
    assert_eq!(entries[0].value, "5173");
    assert!(!entries[0].modified);
    assert_eq!(entries[2].value, "http://127.0.0.1:9000/agent");
}

#[test]
fn conflicts_need_spare_ports() {
    let mut entries = vec![template("FRONTEND_PORT", "5173")];
    assert!(resolve_port_conflicts(&mut entries, &Vec::new(), &Vec::new()).is_err());
    assert_eq!(entries[0].value, "5173");
    assert_eq!(local_service_ports(&entries), vec![5173]);
}

#[test]
fn ports_are_set_and_read_back() {
    assert_eq!(replace_url_port("http://127.0.0.1:80/x", 9000), "http://127.0.0.1:9000/x");
    assert_eq!(replace_url_port("http://localhost?x=1", 9000), "http://localhost:9000?x=1");
    assert_eq!(replace_url_port("http://[::1]:80", 9000), "http://[::1]:9000");
    assert_eq!(replace_url_port("http://[::1", 9000), "http://[::1");
    assert_eq!(replace_url_port("localhost:80", 9000), "localhost:80");
    assert_eq!(extract_url_port("http://127.0.0.1:9000/x"), Some(9000));
    assert_eq!(extract_url_port("http://127.0.0.1:9000?x"), None);
    assert_eq!(extract_url_port("127.0.0.1:9000"), None);
    assert_eq!(endpoint_port("http://127.0.0.1:9000/x"), Some(9000));
    assert_eq!(endpoint_port("http://127.0.0.1/x"), None);
    assert_eq!(endpoint_port("http://127.0.0.1:70000/x"), None);
    assert_eq!(
        replace_url_port(&replace_url_port("http://a/x", 1), 2),
        replace_url_port("http://a/x", 2)
    );
    assert!(is_local_url("https://[::1]/x"));
    assert!(!is_local_url("https://example.com"));
}

#[test]
fn services_hold_ports_for_urls_and_reservations() {
    let services = vec![
        ("langgraph".to_string(), "http://127.0.0.1:2024".to_string()),
        ("docs".to_string(), "no url".to_string()),
        ("app".to_string(), "http://127.0.0.1:5173".to_string()),
    ];
    assert_eq!(
        lifecycle_ports(&services),
        vec![("LANGGRAPH".to_string(), 2024), ("APP".to_string(), 5173)]
    );
    let reserved = collect_assigned_ports(&services);
    assert!(reserved.contains(&2024));
    assert!(reserved.contains(&5173));
    let mut entries = vec![template("LANGGRAPH_URL", "http://127.0.0.1:1/x")];
    sync_env_urls_from_lifecycle(&services, &mut entries);
    assert_eq!(entries[0].value, "http://127.0.0.1:2024/x");
    assert!(entries[0].modified);
}

#[test]
fn frontend_variables_follow_the_root() {
    let root = parse_env("FRONTEND_PORT=57980\nCOPILOTKIT_PORT=57985\n");
    let mut target = parse_env("frontend_port=5173\nVITE_COPILOTKIT_RUNTIME_PROXY=http://127.0.0.1:4000\n");
    synchronize_env_entries(&mut target, &root);
    assert_eq!(target[0].value, "57980");
    assert_eq!(target[1].value, "http://127.0.0.1:57985");
    assert!(local_env_port_values(&root)
        .iter()
        .any(|(name, port)| name == "FRONTEND" && *port == 57980));
}

#[test]
fn described_ports_are_read_and_assigned() {
    let output = "frontend_port: 5173\nname: x\n  api_port: 8000\nbad_port: many\n";
    assert_eq!(
        parse_describe_ports(output),
        vec![("frontend_port".to_string(), 5173), ("api_port".to_string(), 8000)]
    );
    let (ports, changes) =
        resolve_describe_ports(output, &vec![8000], &vec![5173, 8000], &vec![8000, 40_000])
            .expect("assign described ports");
    assert_eq!(
        ports,
        vec![("FRONTEND_PORT".to_string(), 5173), ("API_PORT".to_string(), 40_000)]
    );
    assert_eq!(changes.len(), 1);
    assert_eq!(port_change_details(&changes), "API_PORT: 8000 -> 40000");
    assert!(resolve_describe_ports(output, &Vec::new(), &Vec::new(), &Vec::new()).is_err());
}

#[test]
fn changes_are_listed_line_by_line() {
    let changes = vec![
        PortChange { key: "A_PORT".to_string(), old_port: 1, new_port: 2 },
        PortChange { key: "B_PORT".to_string(), old_port: 3, new_port: 4 },
    ];
    assert_eq!(port_change_details(&changes), "A_PORT: 1 -> 2\nB_PORT: 3 -> 4");
}

#[test]
fn ports_are_available_on_both_addresses() {
    let free = PortProbe {
        ipv4_answers: false,
        ipv6_answers: false,
        ipv4_binds: true,
        ipv6_binds: true,
        ipv6_exists: true,
    };
    assert!(port_is_available(free));
    assert!(!port_is_available(PortProbe { ipv6_answers: true, ..free }));
    assert!(!port_is_available(PortProbe { ipv4_answers: true, ..free }));
    assert!(!port_is_available(PortProbe { ipv4_binds: false, ..free }));
    assert!(!port_is_available(PortProbe { ipv6_binds: false, ..free }));
    assert!(port_is_available(PortProbe { ipv6_binds: false, ipv6_exists: false, ..free }));
}

#[test]
fn the_first_available_port_is_used() {
    assert!(matches!(
        available_ephemeral_port(&vec![(1, false), (2, true), (3, true)]),
        PortSearch::Use(2)
    ));
    assert!(matches!(available_ephemeral_port(&Vec::new()), PortSearch::AskAgain));
    match available_ephemeral_port(&vec![(1, false); 64]) {
        PortSearch::GiveUp(message) => assert_eq!(
            message,
            "Failed to find a free port available for both IPv4 and IPv6"
        ),
        other => panic!("unexpected {other:?}"),
    }
}

#[test]
fn described_ports_are_apart() {
    let output = "a_port: 5000\nb_port: 5000\nc_port: 6000\nd_port: 7000\n";
    let (ports, changes) = resolve_describe_ports(
        output,
        &vec![7000, 40_000],
        &vec![5000, 6000, 7000],
        &vec![40_000, 6000, 40_001, 40_002],
    )
    .expect("assign described ports");
    assert_eq!(
        ports,
        vec![
            ("A_PORT".to_string(), 5000),
            ("B_PORT".to_string(), 6000),
            ("C_PORT".to_string(), 40_001),
            ("D_PORT".to_string(), 40_002),
        ]
    );
    assert_eq!(
        port_change_details(&changes),
        "B_PORT: 5000 -> 6000\nC_PORT: 6000 -> 40001\nD_PORT: 7000 -> 40002"
    );
    let (same, _) =
        resolve_describe_ports("a_port: 1\nA_PORT: 2\n", &Vec::new(), &vec![1, 2], &Vec::new())
            .expect("assign described ports");
    assert_eq!(same, vec![("A_PORT".to_string(), 2)]);
}
