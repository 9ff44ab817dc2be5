use agentseek_desktop::compose::sync_docker_compose_port_mappings;
use agentseek_desktop::env::parse_env;

#[test]
fn sync_docker_compose_ports_replaces_host_port() {
    // Original port 2881 should be replaced with ${SEEKDB_PORT:-2881}:2881 variable reference
    let compose = "name: my_rag_agent\nservices:\n  seekdb:\n    image: quay.io/oceanbase/seekdb:latest\n    ports:\n      - \"127.0.0.1:2881:2881\"\n    volumes:\n      - ./.seekdb-data:/var/lib/oceanbase\n";
    let entries = parse_env("SEEKDB_PORT=2891\n");
    let updated = sync_docker_compose_port_mappings(compose, &entries);
    assert!(
        updated.contains("${SEEKDB_PORT:-2881}:2881"),
        "should use variable reference, got:\n{updated}"
    );
    assert!(
        !updated.contains("127.0.0.1:2881:2881"),
        "old hardcoded mapping should be gone, got:\n{updated}"
    );
    // Volume mappings unchanged
    assert!(updated.contains("./.seekdb-data:/var/lib/oceanbase"));
}

#[test]
fn sync_docker_compose_ports_no_change_when_no_env_port() {
    // docker-compose.yml should not be modified when .env has no *_PORT
    let compose = "services:\n  seekdb:\n    ports:\n      - \"127.0.0.1:2881:2881\"\n";
    let entries = parse_env("BACKEND_PORT=2024\n");
    let updated = sync_docker_compose_port_mappings(compose, &entries);
    assert_eq!(updated, compose);
}

#[test]
fn sync_docker_compose_ports_handles_plain_mapping() {
    // Port mapping "2881:2881" without IP prefix should also be replaced with variable reference
    let compose = "services:\n  seekdb:\n    ports:\n      - \"2881:2881\"\n";
    let entries = parse_env("SEEKDB_PORT=2900\n");
    let updated = sync_docker_compose_port_mappings(compose, &entries);
    assert!(
        updated.contains("${SEEKDB_PORT:-2881}:2881"),
        "should use variable reference, got:\n{updated}"
    );
}

#[test]
fn sync_docker_compose_ports_skips_unrelated_services() {
    // Services without corresponding *_PORT env variable should not be modified
    let compose = "services:\n  seekdb:\n    ports:\n      - \"127.0.0.1:2881:2881\"\n  redis:\n    ports:\n      - \"127.0.0.1:6379:6379\"\n";
    let entries = parse_env("SEEKDB_PORT=2891\n");
    let updated = sync_docker_compose_port_mappings(compose, &entries);
    assert!(updated.contains("${SEEKDB_PORT:-2881}:2881"));
    assert!(updated.contains("127.0.0.1:6379:6379"));
}

#[test]
fn sync_docker_compose_ports_skips_volume_mappings() {
    // Volume mappings should not be misidentified as port mappings
    let compose = "services:\n  seekdb:\n    ports:\n      - \"127.0.0.1:2881:2881\"\n    volumes:\n      - ./.seekdb-data:/var/lib/oceanbase\n";
    let entries = parse_env("SEEKDB_PORT=2891\n");
    let updated = sync_docker_compose_port_mappings(compose, &entries);
    assert!(updated.contains("${SEEKDB_PORT:-2881}:2881"));
    assert!(updated.contains("./.seekdb-data:/var/lib/oceanbase"));
}

#[test]
fn sync_docker_compose_ports_idempotent() {
    // Lines already using ${...} syntax should not be modified again (idempotent)
    let compose = "services:\n  seekdb:\n    ports:\n      - \"127.0.0.1:${SEEKDB_PORT:-2881}:2881\"\n";
    let entries = parse_env("SEEKDB_PORT=2900\n");
    let updated = sync_docker_compose_port_mappings(compose, &entries);
    assert_eq!(updated, compose);
}

#[test]
fn a_second_run_changes_nothing() {
    let compose = "services:\n  seekdb:\n    ports:\n      - \"127.0.0.1:2881:2881\"\n";
    let entries = parse_env("SEEKDB_PORT=2891\n");
    let once = sync_docker_compose_port_mappings(compose, &entries);
    assert_eq!(
        once,
        "services:\n  seekdb:\n    ports:\n      - \"127.0.0.1:${SEEKDB_PORT:-2881}:2881\"\n"
    );
    assert_eq!(sync_docker_compose_port_mappings(&once, &entries), once);
}

#[test]
fn entries_outside_services_stay() {
    let compose = "ports:\n  - \"2881:2881\"\n";
    let entries = parse_env("SEEKDB_PORT=2891\n");
    assert_eq!(sync_docker_compose_port_mappings(compose, &entries), compose);
}

#[test]
fn mappings_stay_in_their_service() {
    let compose = "services:\n  seekdb:\n    ports:\n      - \"80:80\"\n  redis:\n    ports:\n      - \"8080:80\"\n";
    let expected = "services:\n  seekdb:\n    ports:\n      - \"${SEEKDB_PORT:-80}:80\"\n  redis:\n    ports:\n      - \"8080:80\"\n";
    let updated = sync_docker_compose_port_mappings(compose, &parse_env("SEEKDB_PORT=2891\n"));
    assert_eq!(updated, expected);
}

#[test]
fn neighbouring_services_keep_their_mappings() {
    let compose = "services:\r\n  a:\r\n    ports:\r\n      - \"1:1\"\r\n      -  11:11\r\n  b:\r\n    ports:\r\n      - \"127.0.0.1:11:11\"";
    let entries = parse_env("A_PORT=5\nB_PORT=6\n");
    let once = sync_docker_compose_port_mappings(compose, &entries);
    assert_eq!(
        once,
        "services:\r\n  a:\r\n    ports:\r\n      - \"${A_PORT:-1}:1\"\r\n      -  ${A_PORT:-11}:11\r\n  b:\r\n    ports:\r\n      - \"127.0.0.1:${B_PORT:-11}:11\""
    );
    assert_eq!(sync_docker_compose_port_mappings(&once, &entries), once);
    let others = parse_env("a_port=9\nb_port=\n");
    assert_eq!(sync_docker_compose_port_mappings(compose, &others), once);
    assert_eq!(sync_docker_compose_port_mappings(compose, &parse_env("C_PORT=1\n")), compose);
}
