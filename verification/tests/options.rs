use drift::options::RunOptions;

fn vars(pairs: &[(&str, &str)]) -> Vec<(String, String)> {
    pairs.iter().map(|(k, v)| ((*k).to_owned(), (*v).to_owned())).collect()
}

#[test]
fn autoconnect_and_config_dir_come_from_the_environment() {
    let o = RunOptions::from_vars(&vars(&[
        ("DRIFT_AUTOCONNECT", "Homelab headless"),
        ("DRIFT_CONFIG_DIR", "/tmp/drift-smoke"),
        ("HOME", "/Users/x"),
    ]));
    assert_eq!(o.autoconnect.as_deref(), Some("Homelab headless"));
    assert_eq!(o.config_dir.as_deref(), Some("/tmp/drift-smoke"));
    assert!(!o.memory_secrets, "the environment can never switch off the Keychain");
}

#[test]
fn blank_or_missing_variables_are_ignored() {
    let o = RunOptions::from_vars(&vars(&[("DRIFT_AUTOCONNECT", "  "), ("DRIFT_CONFIG_DIR", "")]));
    assert!(o.autoconnect.is_none() && o.config_dir.is_none());
    let o = RunOptions::from_vars(&vars(&[("DRIFT_MEMORY_SECRETS", "1")]));
    assert!(!o.memory_secrets);
}

#[test]
fn values_are_trimmed_and_the_last_setting_wins() {
    let o = RunOptions::from_vars(&vars(&[
        ("DRIFT_CONFIG_DIR", "/a"),
        ("DRIFT_CONFIG_DIR", "  /b\t"),
        ("DRIFT_CONFIG_DIR", " "),
        ("drift_config_dir", "/c"),
    ]));
    assert_eq!(o.config_dir.as_deref(), Some("/b"));
    assert!(o.autoconnect.is_none());
    assert!(RunOptions::from_vars(&[]).config_dir.is_none());
}
