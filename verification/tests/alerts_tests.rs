use watchdogfs::alerts::{build_payload, default_payload, enabled_sinks, syslog_line, Dispatch, Sink};
use watchdogfs::config::AlertsConfig;

fn cfg(
    syslog: bool,
    webhook: Option<&str>,
    script: Option<&str>,
    plugin: Option<&str>,
    template: Option<&str>,
) -> AlertsConfig {
    AlertsConfig {
        webhook_url: webhook.map(|s| s.to_string()),
        script_path: script.map(|s| s.to_string()),
        use_syslog: syslog,
        plugin_path: plugin.map(|s| s.to_string()),
        payload_template: template.map(|s| s.to_string()),
    }
}

#[test]
fn default_payload_is_exact_json() {
    let p = default_payload(
        &"/tmp/t/a".to_string(),
        &"abc".to_string(),
        &"def".to_string(),
    );
    assert_eq!(p, "{\"path\":\"/tmp/t/a\",\"old\":\"abc\",\"new\":\"def\"}");
}

#[test]
fn default_payload_escapes() {
    let p = default_payload(&"a\"b\\c\n".to_string(), &"o".to_string(), &"n".to_string());
    assert_eq!(p, "{\"path\":\"a\\\"b\\\\c\\n\",\"old\":\"o\",\"new\":\"n\"}");
}

#[test]
fn payload_without_template_is_default() {
    let p = build_payload(&None, &"/x".to_string(), &"1".to_string(), &"2".to_string());
    assert_eq!(p, "{\"path\":\"/x\",\"old\":\"1\",\"new\":\"2\"}");
}

#[test]
fn payload_template_renders_variables() {
    let tmpl = Some("changed {{path}}: {{old}} -> {{new}}".to_string());
    let p = build_payload(&tmpl, &"/x".to_string(), &"1".to_string(), &"2".to_string());
    assert_eq!(p, "changed /x: 1 -> 2");
}

#[test]
fn broken_template_falls_back_to_default() {
    let tmpl = Some("{% nonsense".to_string());
    let p = build_payload(&tmpl, &"/x".to_string(), &"1".to_string(), &"2".to_string());
    assert_eq!(p, "{\"path\":\"/x\",\"old\":\"1\",\"new\":\"2\"}");
}

#[test]
fn enabled_sinks_follow_configuration() {
    assert_eq!(enabled_sinks(&cfg(false, None, None, None, None)), vec![]);
    assert_eq!(
        enabled_sinks(&cfg(true, Some("http://h"), None, None, None)),
        vec![Sink::Syslog, Sink::Webhook]
    );
    assert_eq!(
        enabled_sinks(&cfg(true, Some("http://h"), Some("/s"), Some("/p.so"), None)),
        vec![Sink::Syslog, Sink::Webhook, Sink::Script, Sink::Plugin]
    );
    assert_eq!(
        enabled_sinks(&cfg(false, None, Some("/s"), None, None)),
        vec![Sink::Script]
    );
}

#[test]
fn failing_sink_does_not_block_the_next() {
    // Webhook always fails, syslog is also enabled: both are handed out,
    // whatever became of the earlier delivery.
    let c = cfg(true, Some("http://always-500s"), None, None, None);
    let mut d = Dispatch::new(&c);
    let mut attempted = Vec::new();
    let mut failures = 0;
    while let Some(sink) = d.next_sink() {
        attempted.push(sink);
        // simulate the webhook failing; the loop goes on regardless
        if sink == Sink::Webhook {
            failures += 1;
        }
    }
    assert_eq!(attempted, vec![Sink::Syslog, Sink::Webhook]);
    assert_eq!(failures, 1);
    assert!(d.next_sink().is_none());
}

#[test]
fn syslog_line_has_fixed_prefix() {
    assert_eq!(syslog_line(&"{}".to_string()), "Integrity change: {}");
}
