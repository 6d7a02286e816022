use errorscript::config::{names_config_file, pattern_role, EscConfig, PatternRole, CONFIG_FILE};
use std::path::PathBuf;

#[test]
fn mod_join_to() {
    let project_dir = tempfile::tempdir().unwrap();

    let config_path = EscConfig::join_to(&project_dir.path().to_path_buf());

    assert_eq!(config_path, project_dir.path().join(CONFIG_FILE));
}

#[test]
fn join_to_appends_the_file_name() {
    assert_eq!(
        EscConfig::join_to(&PathBuf::from("/project")),
        PathBuf::from("/project/errconfig.toml")
    );
}

#[test]
fn negated_patterns_exclude_and_a_bare_negation_is_refused() {
    assert!(matches!(pattern_role(Some("src/**/*.ts")), PatternRole::Selects));
    assert!(matches!(pattern_role(None), PatternRole::Selects));
    assert!(matches!(pattern_role(Some("")), PatternRole::Selects));
    match pattern_role(Some("!dist/**")) {
        PatternRole::Excludes(rest) => assert_eq!(rest, "dist/**"),
        _ => panic!("expected an exclusion"),
    }
    assert!(matches!(pattern_role(Some("!")), PatternRole::Invalid));
}

#[test]
fn only_an_existing_toml_file_names_the_configuration() {
    assert!(names_config_file(true, Some("toml"), Some("errconfig.toml")));
    assert!(names_config_file(true, Some("toml"), Some("other.toml")));
    assert!(!names_config_file(false, Some("toml"), Some("errconfig.toml")));
    assert!(!names_config_file(true, Some("json"), Some("errconfig.json")));
    assert!(!names_config_file(true, None, Some("errconfig")));
}
