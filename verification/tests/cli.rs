use mend::cli::Cli;

#[test]
fn cli_parse_dry_run() {
    let cli = Cli::parse_from(vec!["mend".to_string(), "--dry-run".to_string()]).unwrap();
    assert!(cli.dry_run);
}

#[test]
fn cli_parse_file_option() {
    let cli = Cli::parse_from(vec![
        "mend".to_string(),
        "-f".to_string(),
        "plan.toml".to_string(),
    ])
    .unwrap();
    assert_eq!(cli.file, Some("plan.toml".to_string()));
    assert!(!cli.dry_run);

    let cli = Cli::parse_from(vec![
        "mend".to_string(),
        "--file".to_string(),
        "other.toml".to_string(),
        "--dry-run".to_string(),
    ])
    .unwrap();
    assert_eq!(cli.file, Some("other.toml".to_string()));
    assert!(cli.dry_run);
}

#[test]
fn cli_rejects_unknown_argument() {
    assert!(Cli::parse_from(vec!["mend".to_string(), "--bogus".to_string()]).is_err());
}

#[test]
fn cli_rejects_missing_file_value() {
    assert!(Cli::parse_from(vec!["mend".to_string(), "-f".to_string()]).is_err());
}

#[test]
fn cli_defaults_without_arguments() {
    let cli = Cli::parse_from(vec!["mend".to_string()]).unwrap();
    assert_eq!(cli.file, None);
    assert!(!cli.dry_run);
}
