use helix_db::cli::{
    ask_for_email, choose_instance, instance_running, rebuild_summary, require_local, run,
    show_metrics_status, stop_plan, CloudKind, InstanceChoice, InstanceStatus, InstanceTarget,
    MetricsAction, MetricsConfig, MetricsLevel, MetricsOutcome, StopAction,
};

fn config() -> MetricsConfig {
    MetricsConfig {
        level: MetricsLevel::Basic,
        user_id: Some("u-1".to_string()),
        email: None,
        last_updated: 5,
    }
}

#[test]
fn full_metrics_store_email_and_time() {
    match run(MetricsAction::Full, config(), Some("a@b.io".to_string()), 100) {
        MetricsOutcome::Save(c) => {
            assert_eq!(c.level, MetricsLevel::Full);
            assert_eq!(c.email.as_deref(), Some("a@b.io"));
            assert_eq!(c.user_id.as_deref(), Some("u-1"));
            assert_eq!(c.last_updated, 100);
        }
        other => panic!("unexpected {:?}", other),
    }
}

#[test]
fn basic_and_off_keep_email() {
    let mut c = config();
    c.email = Some("x@y.org".to_string());
    match run(MetricsAction::Off, c, None, 7) {
        MetricsOutcome::Save(c) => {
            assert_eq!(c.level, MetricsLevel::Off);
            assert_eq!(c.email.as_deref(), Some("x@y.org"));
            assert_eq!(c.last_updated, 7);
        }
        other => panic!("unexpected {:?}", other),
    }
    match run(MetricsAction::Basic, config(), None, 8) {
        MetricsOutcome::Save(c) => assert_eq!(c.level, MetricsLevel::Basic),
        other => panic!("unexpected {:?}", other),
    }
}

#[test]
fn status_lists_level_user_and_time() {
    let fields = show_metrics_status(&config());
    assert_eq!(
        fields,
        vec![
            ("Metrics Level".to_string(), "Basic".to_string()),
            ("User ID".to_string(), "u-1".to_string()),
            ("Last updated".to_string(), "5 seconds ago".to_string()),
        ]
    );
    let mut c = config();
    c.user_id = None;
    c.level = MetricsLevel::Off;
    c.last_updated = 1234;
    match run(MetricsAction::Status, c, None, 0) {
        MetricsOutcome::Show(f) => assert_eq!(
            f,
            vec![
                ("Metrics Level".to_string(), "Off".to_string()),
                ("Last updated".to_string(), "1234 seconds ago".to_string()),
            ]
        ),
        other => panic!("unexpected {:?}", other),
    }
}

#[test]
fn email_is_trimmed_and_checked() {
    assert_eq!(ask_for_email("  dev@helix-db.com \n"), Some("dev@helix-db.com".to_string()));
    assert_eq!(ask_for_email("a.b+c@x.co"), Some("a.b+c@x.co".to_string()));
    assert_eq!(ask_for_email("not-an-email"), None);
    assert_eq!(ask_for_email("a@b.c"), None);
    assert_eq!(ask_for_email("a b@c.de"), None);
    assert_eq!(ask_for_email(""), None);
}

#[test]
fn instance_choice() {
    let instances = vec!["dev".to_string(), "prod".to_string()];
    match choose_instance(Some("dev".to_string()), false, &instances) {
        InstanceChoice::Named(n) => assert_eq!(n, "dev"),
        other => panic!("unexpected {:?}", other),
    }
    assert!(matches!(choose_instance(None, true, &instances), InstanceChoice::Prompt));
    match choose_instance(None, false, &instances) {
        InstanceChoice::Missing(m) => {
            assert_eq!(m, "No instance specified. Available instances: dev, prod")
        }
        other => panic!("unexpected {:?}", other),
    }
    match choose_instance(None, false, &Vec::new()) {
        InstanceChoice::Missing(m) => assert_eq!(m, "No instance specified. Available instances: "),
        other => panic!("unexpected {:?}", other),
    }
}

#[test]
fn stopping_by_target() {
    assert!(matches!(stop_plan(&InstanceTarget::Local), StopAction::StopLocal));
    let fly = InstanceTarget::Cloud { kind: CloudKind::FlyIo, cluster_id: Some("c".to_string()) };
    assert!(matches!(stop_plan(&fly), StopAction::StopFly));
    let no_cluster = InstanceTarget::Cloud { kind: CloudKind::Helix, cluster_id: None };
    match stop_plan(&no_cluster) {
        StopAction::Fail(m) => {
            assert_eq!(m, "Cloud instance '{instance_name}' must have a cluster_id")
        }
        other => panic!("unexpected {:?}", other),
    }
}

#[test]
fn rebuild_checks_and_summary() {
    assert!(require_local(true).is_ok());
    assert_eq!(
        require_local(false).unwrap_err(),
        "Index rebuild is only supported for local instances."
    );
    let statuses = vec![
        InstanceStatus { instance_name: "prod".to_string(), status: "Up 3 hours".to_string() },
        InstanceStatus { instance_name: "dev".to_string(), status: "Exited (0)".to_string() },
        InstanceStatus { instance_name: "dev".to_string(), status: "Up 1 minute".to_string() },
    ];
    assert!(instance_running(&statuses, "prod"));
    assert!(!instance_running(&statuses, "dev"));
    assert!(!instance_running(&statuses, "other"));
    assert_eq!(
        rebuild_summary(&vec!["name".to_string(), "email".to_string()], &Vec::new()),
        "Rebuilding node indices [name, email] and edge indices [none]"
    );
}
