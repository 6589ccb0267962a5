use ospine::parse_ports;
use ospine::settings::{
    effective_config, popular_ports, resolve_settings, select_ports, SettingsError,
};
use ospine::targets::{targets_from, TargetError};
use ospine::{parse_targets, FileConfig};

fn bad(spec: &str) -> String {
    parse_ports(spec).unwrap_err().part
}

#[test]
fn ports_lists_and_ranges() {
    assert_eq!(parse_ports("80,443,8000-8002").unwrap(), vec![80, 443, 8000, 8001, 8002]);
    assert_eq!(parse_ports(" 22, 80 ,22,21").unwrap(), vec![21, 22, 80]);
    assert_eq!(parse_ports("10-8").unwrap(), vec![8, 9, 10]);
    assert_eq!(parse_ports("+80").unwrap(), vec![80]);
    assert_eq!(parse_ports("1-3,2-4").unwrap(), vec![1, 2, 3, 4]);
}

#[test]
fn ports_empty_parts_are_skipped() {
    assert_eq!(parse_ports("").unwrap(), Vec::<u16>::new());
    assert_eq!(parse_ports(",, ,").unwrap(), Vec::<u16>::new());
    assert_eq!(parse_ports("5,,6").unwrap(), vec![5, 6]);
}

#[test]
fn ports_full_range() {
    let all = parse_ports("0-65535").unwrap();
    assert_eq!(all.len(), 65536);
    assert_eq!(all[0], 0);
    assert_eq!(all[65535], 65535);
}

#[test]
fn ports_malformed_parts() {
    assert_eq!(bad("abc"), "abc");
    assert_eq!(bad("80, 9x ,y"), "9x");
    assert_eq!(bad("1-x"), "1-x");
    assert_eq!(bad("65536"), "65536");
    assert_eq!(bad("1 - 5"), "1 - 5");
    assert_eq!(bad("-5"), "-5");
    assert_eq!(bad("+"), "+");
    assert_eq!(bad("1-2-3"), "1-2-3");
}

#[test]
fn targets_single_host_and_network() {
    assert_eq!(parse_targets("example.com").unwrap(), vec!["example.com".to_string()]);
    assert_eq!(
        parse_targets("10.0.0.0/30").unwrap(),
        vec!["10.0.0.1".to_string(), "10.0.0.2".to_string()]
    );
    assert_eq!(parse_targets("192.168.1.7").unwrap(), vec!["192.168.1.7".to_string()]);
}

#[test]
fn targets_too_large_network() {
    assert_eq!(parse_targets("10.0.0.0/14"), Err(TargetError::TooManyHosts(262142)));
}

#[test]
fn targets_from_expansion() {
    let hosts: Vec<String> = (0..3).map(|i| format!("h{i}")).collect();
    assert_eq!(targets_from("x", Some(hosts.clone())).unwrap(), hosts);
    assert_eq!(targets_from("x", None).unwrap(), vec!["x".to_string()]);
    let many: Vec<String> = (0..100_001).map(|i| i.to_string()).collect();
    assert_eq!(targets_from("x", Some(many)), Err(TargetError::TooManyHosts(100_001)));
}

#[test]
fn settings_precedence() {
    let cli = FileConfig { target: Some("cli-host".into()), rate: Some(7), ..FileConfig::default() };
    let file = FileConfig {
        target: Some("file-host".into()),
        rate: Some(9),
        concurrency: Some(3),
        ports: Some("22".into()),
        ..FileConfig::default()
    };
    let s = resolve_settings(cli, file).unwrap();
    assert_eq!(s.target, "cli-host");
    assert_eq!(s.rate, 7);
    assert_eq!(s.concurrency, 3);
    assert_eq!(s.ports.as_deref(), Some("22"));
    assert_eq!(s.timeout_ms, 1000);
    assert_eq!(s.banner_bytes, 512);
    assert_eq!(s.save_file, "last_scan.output");
    assert_eq!(s.max_connections, 10_000);
    assert!(!s.passive && !s.json && !s.open_only && !s.raw_banner && !s.popular);
}

#[test]
fn settings_defaults_and_popular() {
    let cli = FileConfig { target: Some("h".into()), ..FileConfig::default() };
    let s = resolve_settings(cli, FileConfig::default()).unwrap();
    assert_eq!(s.ports.as_deref(), Some("1-1024"));
    assert_eq!(s.concurrency, 100);
    assert_eq!(s.rate, 5_000);
    assert_eq!(select_ports(&s).unwrap().len(), 1024);
    let file = FileConfig { target: Some("h".into()), popular: Some(true), ports: Some("1".into()), ..FileConfig::default() };
    let s = resolve_settings(FileConfig::default(), file).unwrap();
    assert!(s.popular);
    assert_eq!(s.ports, None);
    let ports = select_ports(&s).unwrap();
    assert_eq!(ports, popular_ports());
    assert_eq!(ports.len(), 37);
    assert!(ports.windows(2).all(|w| w[0] < w[1]));
    let c = effective_config(&s);
    assert_eq!(c.target.as_deref(), Some("h"));
    assert_eq!(c.popular, Some(true));
    assert_eq!(c.ports, None);
    assert_eq!(c.rate, Some(5_000));
}

#[test]
fn settings_missing_target() {
    assert_eq!(
        resolve_settings(FileConfig::default(), FileConfig::default()).unwrap_err(),
        SettingsError::MissingTarget
    );
}

#[test]
fn settings_bad_port_spec() {
    let cli = FileConfig { target: Some("h".into()), ports: Some("80,http".into()), ..FileConfig::default() };
    let s = resolve_settings(cli, FileConfig::default()).unwrap();
    assert_eq!(select_ports(&s).unwrap_err().part, "http");
}
