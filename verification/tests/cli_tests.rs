use watchdogfs::cli::{parse, Commands};

fn args(list: &[&str]) -> Vec<String> {
    list.iter().map(|s| s.to_string()).collect()
}

#[test]
fn default_config_and_no_selfcheck() {
    let cli = parse(&args(&["watchdogfs", "baseline"])).unwrap();
    assert_eq!(cli.config_path(), "config.yaml");
    assert!(cli.self_integrity_path().is_none());
    match cli.command {
        Commands::Baseline => (),
        _ => panic!("expected Baseline command"),
    }
}

#[test]
fn custom_config_and_selfcheck() {
    let cli = parse(&args(&[
        "watchdogfs",
        "-c",
        "custom.yaml",
        "--self-integrity-path",
        "me.sha256",
        "start",
        "--daemon",
    ]))
    .unwrap();
    assert_eq!(cli.config_path(), "custom.yaml");
    assert_eq!(cli.self_integrity_path(), Some("me.sha256"));
    match cli.command {
        Commands::Start { daemon } => assert!(daemon),
        _ => panic!("expected Start command"),
    }
}

#[test]
fn init_command_parses() {
    let cli = parse(&args(&["watchdogfs", "init", "-c", "foo.yaml"])).unwrap();
    match cli.command {
        Commands::Init {
            config,
            with_baseline,
        } => {
            assert_eq!(config, "foo.yaml");
            assert!(!with_baseline);
        }
        _ => panic!("expected Init command"),
    }
}

#[test]
fn init_with_baseline_parses() {
    let cli = parse(&args(&["watchdogfs", "init", "-c", "foo.yaml", "--with-baseline"])).unwrap();
    match cli.command {
        Commands::Init {
            config,
            with_baseline,
        } => {
            assert_eq!(config, "foo.yaml");
            assert!(with_baseline);
        }
        _ => panic!("expected Init command"),
    }
}

#[test]
fn unknown_subcommand_is_refused() {
    assert!(parse(&args(&["watchdogfs", "frobnicate"])).is_err());
    assert!(parse(&args(&["watchdogfs"])).is_err());
    assert!(parse(&args(&["watchdogfs", "-c"])).is_err());
    assert!(parse(&args(&["watchdogfs", "baseline", "extra"])).is_err());
}
