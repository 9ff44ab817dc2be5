use agentseek_desktop::env::{
    is_env_file_name, is_secret_env_key, merge_env_entries, parse_env, process_env_value,
    render_env, split_env_value, EnvVariable,
};
use agentseek_desktop::vault::{
    count_filled_and_missing, import_entries, replace_vault_entries, take_over_modified,
};

fn variable(key: &str, value: &str, source: &str, modified: bool) -> EnvVariable {
    EnvVariable {
        key: key.to_string(),
        value: value.to_string(),
        comment: String::new(),
        source: source.to_string(),
        modified,
    }
}

#[test]
fn env_round_trip_preserves_comments_and_values() {
    let input = "# API endpoint\nOPENAI_BASE_URL=https://example.com/v1\n\n# Secret\nOPENAI_API_KEY=test-key\n";
    let entries = parse_env(input);

    assert_eq!(entries.len(), 2);
    assert_eq!(entries[0].comment, "API endpoint");
    assert_eq!(entries[1].value, "test-key");

    let rendered = render_env(&entries);
    assert!(rendered.contains("# API endpoint\nOPENAI_BASE_URL=https://example.com/v1"));
    assert!(rendered.contains("# Secret\nOPENAI_API_KEY=test-key"));
}

#[test]
fn empty_vault_values_do_not_hide_template_defaults() {
    let source = parse_env("MODEL=openai:gpt-4o-mini\nPORT=5173\nAPI_KEY=\n");
    let vault = vec![
        EnvVariable {
            key: "MODEL".to_string(),
            value: String::new(),
            comment: "Model name".to_string(),
            source: "instance".to_string(),
            modified: false,
        },
        EnvVariable {
            key: "PORT".to_string(),
            value: "6000".to_string(),
            comment: String::new(),
            source: "instance".to_string(),
            modified: false,
        },
    ];

    let merged = merge_env_entries(&source, &vault);
    assert_eq!(merged[0].value, "openai:gpt-4o-mini");
    assert_eq!(merged[0].source, "template");
    assert_eq!(merged[0].comment, "Model name");
    assert_eq!(merged[1].value, "6000");
    assert_eq!(merged[1].source, "vault");
    assert!(merged[2].value.is_empty());
}

#[test]
fn inline_env_comments_are_parsed_without_breaking_hash_values() {
    let entries = parse_env("MODEL=openai:gpt-4o # Default model\nTOKEN=abc#123\n");
    assert_eq!(entries[0].value, "openai:gpt-4o");
    assert_eq!(entries[0].comment, "Default model");
    assert_eq!(entries[1].value, "abc#123");
    assert_eq!(
        split_env_value("\"value # text\" # note").1.as_deref(),
        Some("note")
    );
}

#[test]
fn only_secret_environment_keys_are_redacted() {
    assert!(is_secret_env_key("OPENAI_API_KEY"));
    assert!(is_secret_env_key("DATABASE_PASSWORD"));
    assert!(!is_secret_env_key("FRONTEND_PORT"));
    assert!(!is_secret_env_key("COPILOTKIT_PORT"));
}

#[test]
fn what_was_read_is_written_and_read_again() {
    let content = "# one\n\n#two\nexport A = 'x # y' # inline\nnot an assignment\n=nameless\nB=\nC=a=b\n";
    let entries = parse_env(content);
    assert_eq!(entries.len(), 3);
    assert_eq!(entries[0].key, "A");
    assert_eq!(entries[0].value, "'x # y'");
    assert_eq!(entries[0].comment, "one\n\ntwo\ninline");
    assert_eq!(entries[1].value, "");
    assert_eq!(entries[2].value, "a=b");
    let again = parse_env(&render_env(&entries));
    assert_eq!(again.len(), entries.len());
    for (left, right) in entries.iter().zip(&again) {
        assert_eq!(left.key, right.key);
        assert_eq!(left.value, right.value);
        assert_eq!(left.comment, right.comment);
    }
    assert_eq!(
        render_env(&entries),
        "# one\n# \n# two\n# inline\nA='x # y'\n\nB=\n\nC=a=b\n\n"
    );
}

#[test]
fn names_that_look_like_comments_are_not_read_again() {
    let entries = parse_env("export #A=1\n");
    assert_eq!(entries[0].key, "#A");
    assert!(parse_env(&render_env(&entries)).is_empty());
}

#[test]
fn quotes_and_backslashes_hide_hashes() {
    assert_eq!(split_env_value("a#b"), ("a#b".to_string(), None));
    assert_eq!(
        split_env_value("\"a \\\" # b\" # c"),
        ("\"a \\\" # b\"".to_string(), Some("c".to_string()))
    );
    assert_eq!(split_env_value("'a # b'"), ("'a # b'".to_string(), None));
    assert_eq!(split_env_value("a #"), ("a".to_string(), None));
}

#[test]
fn secrets_are_told_by_whole_words() {
    assert!(is_secret_env_key("KEY"));
    assert!(is_secret_env_key("my_secret_value"));
    assert!(is_secret_env_key("TOKEN_URL"));
    assert!(is_secret_env_key("A_CREDENTIAL"));
    assert!(!is_secret_env_key("KEYBOARD"));
    assert!(!is_secret_env_key("MONKEY"));
}

#[test]
fn files_of_variables_are_told_by_their_names() {
    assert!(is_env_file_name(".env"));
    assert!(is_env_file_name(".env1"));
    assert!(!is_env_file_name("env"));
    assert_eq!(process_env_value(" 'a b' "), "a b");
    assert_eq!(process_env_value("plain"), "plain");
}

#[test]
fn the_vault_refuses_blank_and_double_names() {
    let clean = replace_vault_entries(&vec![variable(" A ", "1", "manual", true)]).expect("clean");
    assert_eq!(clean[0].key, "A");
    assert!(!clean[0].modified);
    assert_eq!(
        replace_vault_entries(&vec![variable("  ", "1", "manual", true)]).expect_err("blank"),
        "Environment variable name cannot be empty"
    );
    assert_eq!(
        replace_vault_entries(&vec![
            variable("A", "1", "manual", true),
            variable("A ", "2", "manual", true)
        ])
        .expect_err("double"),
        "Duplicate environment variable name: A"
    );
}

#[test]
fn imports_replace_and_add() {
    let mut vault = vec![variable("A", "1", "instance", false)];
    let count = import_entries(
        &mut vault,
        &vec![variable("B", "2", "template", true), variable("A", "3", "template", true)],
    );
    assert_eq!(count, 2);
    assert_eq!(vault.len(), 2);
    assert_eq!((vault[0].key.as_str(), vault[0].value.as_str()), ("A", "3"));
    assert_eq!(vault[0].source, "import");
    assert_eq!((vault[1].key.as_str(), vault[1].value.as_str()), ("B", "2"));
}

#[test]
fn only_modified_variables_are_taken_over() {
    let mut vault = vec![variable("A", "1", "import", false)];
    let count = take_over_modified(
        &mut vault,
        &vec![
            variable("A", "2", "template", true),
            variable("B", "3", "template", false),
            variable("C", "4", "template", true),
        ],
    );
    assert_eq!(count, 2);
    assert_eq!(vault.len(), 2);
    assert_eq!((vault[0].value.as_str(), vault[0].source.as_str()), ("2", "instance"));
    assert_eq!((vault[1].key.as_str(), vault[1].modified), ("C", false));
}

#[test]
fn filled_and_missing_variables_are_counted() {
    let entries = vec![
        variable("A", "1", "vault", false),
        variable("B", " ", "vault", false),
        variable("C", "2", "template", false),
    ];
    assert_eq!(count_filled_and_missing(&entries), (1, 1));
}
