use mcpify::config::model::{
    HealthcheckConfig, HealthcheckType, McpifyConfig, RestartPolicy, ServerConfig, ServiceConfig, SupervisorConfig,
};
use mcpify::supervisor::child::{status_means_running, ChildProcess, ChildState};
use mcpify::supervisor::health::{plan_health_check, probe_verdict, HealthPlan, HealthResult, ProbeOutcome};
use mcpify::supervisor::manager::{should_restart, SupervisorManager, MAX_RESTARTS};
use mcpify::supervisor::service::{ManagedService, ServiceState};

fn test_child_config(name: &str) -> ServiceConfig {
    ServiceConfig {
        name: name.to_string(),
        command: "sleep".to_string(),
        args: vec!["60".to_string()],
        cwd: ".".to_string(),
        env: vec![],
        autostart: true,
        restart: RestartPolicy::OnFailure,
        healthcheck: None,
    }
}

fn config(services: Vec<ServiceConfig>) -> McpifyConfig {
    McpifyConfig {
        server: ServerConfig::default(),
        supervisor: SupervisorConfig::default(),
        services,
        tools: vec![],
        vars: vec![],
        resources: vec![],
    }
}

fn spawn_sleeper() -> (tokio::runtime::Runtime, tokio::process::Child) {
    let rt = tokio::runtime::Runtime::new().unwrap();
    let child = rt.block_on(async {
        tokio::process::Command::new("sleep").arg("30").kill_on_drop(true).spawn().unwrap()
    });
    (rt, child)
}

#[test]
fn child_test_initial_state() {
    let child = ChildProcess::new(test_child_config("test"));
    assert_eq!(child.state, ChildState::Stopped);
    assert!(child.handle.is_none());
    assert!(child.pid.is_none());
    assert_eq!(child.restart_count, 0);
}

#[test]
fn child_test_display() {
    assert_eq!(ChildState::Online.to_string(), "online");
    assert_eq!(ChildState::Failed.to_string(), "failed");
}

#[test]
fn service_test_initial_state() {
    let svc = ManagedService::new(test_child_config("test"));
    assert_eq!(svc.state, ServiceState::Stopped);
    assert!(svc.handle.is_none());
    assert!(svc.pid.is_none());
    assert_eq!(svc.restart_count, 0);
}

#[test]
fn service_test_display() {
    assert_eq!(ServiceState::Online.to_string(), "online");
    assert_eq!(ServiceState::Failed.to_string(), "failed");
}

#[test]
fn every_state_has_its_name() {
    assert_eq!(ChildState::Starting.to_string(), "starting");
    assert_eq!(ChildState::Degraded.to_string(), "degraded");
    assert_eq!(ChildState::Stopped.to_string(), "stopped");
    assert_eq!(ServiceState::Starting.to_string(), "starting");
    assert_eq!(ServiceState::Degraded.to_string(), "degraded");
    assert_eq!(ServiceState::Stopped.to_string(), "stopped");
}

#[test]
fn a_child_without_a_process_is_not_alive() {
    let mut child = ChildProcess::new(test_child_config("idle"));
    assert!(!child.is_alive());
    assert_eq!(child.name(), "idle");
    let mut svc = ManagedService::new(test_child_config("idle"));
    assert!(!svc.is_alive());
}

#[test]
fn manager_starts_books_and_stops_children() {
    let mut b = test_child_config("b");
    b.autostart = false;
    let mut mgr = SupervisorManager::from_config(&config(vec![test_child_config("a"), b]));
    assert_eq!(mgr.graceful_timeout_ms(), 5000);
    assert_eq!(mgr.autostart_names(), vec!["a"]);
    assert_eq!(mgr.names(), vec!["a", "b"]);
    assert_eq!(mgr.get_state("a"), Some(ChildState::Stopped));
    assert_eq!(mgr.get_state("zzz"), None);

    let (_rt, process) = spawn_sleeper();
    let pid = process.id();
    mgr.mark_started("a", process, pid, std::time::Instant::now()).ok().unwrap();
    assert_eq!(mgr.get_state("a"), Some(ChildState::Starting));
    assert!(mgr.check_alive("a"));
    assert!(!mgr.check_alive("b"));

    mgr.apply_health("a", HealthResult::Healthy, std::time::Instant::now());
    assert!(mgr.is_child_online("a"));
    mgr.apply_health("a", HealthResult::Unhealthy("slow".to_string()), std::time::Instant::now());
    assert_eq!(mgr.get_state("a"), Some(ChildState::Degraded));
    mgr.apply_health("b", HealthResult::Healthy, std::time::Instant::now());
    assert_eq!(mgr.get_state("b"), Some(ChildState::Stopped));

    let statuses = mgr.get_all_statuses();
    assert_eq!(statuses.len(), 2);
    assert_eq!(statuses[0].0, "a");
    assert_eq!(statuses[0].1, ChildState::Degraded);
    assert_eq!(statuses[0].2, pid);
    assert_eq!(statuses[1], ("b", ChildState::Stopped, None));

    let handle = mgr.take_handle("a");
    assert!(handle.is_some());
    mgr.mark_stopped("a").ok().unwrap();
    assert_eq!(mgr.get_state("a"), Some(ChildState::Stopped));
    match mgr.mark_stopped("nope") {
        Err(e) => assert_eq!(e.to_string(), "child not found: nope"),
        Ok(()) => panic!("unknown child"),
    }
}

#[test]
fn dead_children_are_restarted_up_to_the_cap() {
    let mut never = test_child_config("never");
    never.restart = RestartPolicy::Never;
    let mut mgr = SupervisorManager::from_config(&config(vec![test_child_config("w"), never]));
    let (rt, p) = spawn_sleeper();
    mgr.mark_started("w", p, None, std::time::Instant::now()).ok().unwrap();
    let p2 = rt.block_on(async { tokio::process::Command::new("sleep").arg("30").kill_on_drop(true).spawn().unwrap() });
    mgr.mark_started("never", p2, None, std::time::Instant::now()).ok().unwrap();
    mgr.apply_health("w", HealthResult::ProcessDead, std::time::Instant::now());
    mgr.apply_health("never", HealthResult::ProcessDead, std::time::Instant::now());
    assert_eq!(mgr.get_state("w"), Some(ChildState::Failed));
    assert_eq!(mgr.restart_candidates(), vec!["w"]);

    for round in 1..=MAX_RESTARTS {
        let p = rt.block_on(async { tokio::process::Command::new("sleep").arg("30").kill_on_drop(true).spawn().unwrap() });
        mgr.mark_restarted("w", p, None, std::time::Instant::now()).ok().unwrap();
        mgr.apply_health("w", HealthResult::ProcessDead, std::time::Instant::now());
        let statuses = mgr.get_all_statuses();
        assert_eq!(statuses[1].1, ChildState::Failed);
        if round < MAX_RESTARTS {
            assert_eq!(mgr.restart_candidates(), vec!["w"]);
        }
    }
    assert!(mgr.restart_candidates().is_empty());
}

#[test]
fn restart_policy_decides() {
    let mut c = ChildProcess::new(test_child_config("x"));
    assert!(should_restart(&c));
    c.restart_count = MAX_RESTARTS;
    assert!(!should_restart(&c));
    c.restart_count = 0;
    c.config.restart = RestartPolicy::Never;
    assert!(!should_restart(&c));
    c.config.restart = RestartPolicy::Always;
    assert!(should_restart(&c));
}

#[test]
fn health_plans() {
    assert!(matches!(plan_health_check(false, &None), HealthPlan::Settled(HealthResult::ProcessDead)));
    assert!(matches!(plan_health_check(true, &None), HealthPlan::Settled(HealthResult::Healthy)));
    let process = Some(HealthcheckConfig { check_type: HealthcheckType::Process, url: None, interval_ms: 1000, timeout_ms: 500 });
    assert!(matches!(plan_health_check(true, &process), HealthPlan::Settled(HealthResult::Healthy)));
    let no_url = Some(HealthcheckConfig { check_type: HealthcheckType::Http, url: None, interval_ms: 1000, timeout_ms: 500 });
    match plan_health_check(true, &no_url) {
        HealthPlan::Settled(HealthResult::Unhealthy(m)) => assert_eq!(m, "http healthcheck missing url"),
        _ => panic!("an http check needs a url"),
    }
    let http = Some(HealthcheckConfig {
        check_type: HealthcheckType::Http,
        url: Some("http://127.0.0.1:9/health".to_string()),
        interval_ms: 1000,
        timeout_ms: 500,
    });
    match plan_health_check(true, &http) {
        HealthPlan::ProbeHttp { url, timeout_ms } => {
            assert_eq!(url, "http://127.0.0.1:9/health");
            assert_eq!(timeout_ms, 500);
        },
        _ => panic!("an http check probes"),
    }
}

#[test]
fn probe_verdicts() {
    assert!(matches!(
        probe_verdict(ProbeOutcome::Responded { success: true, status: "200 OK".to_string() }),
        HealthResult::Healthy
    ));
    match probe_verdict(ProbeOutcome::Responded { success: false, status: "500 Internal Server Error".to_string() }) {
        HealthResult::Unhealthy(m) => assert_eq!(m, "healthcheck returned 500 Internal Server Error"),
        _ => panic!("a failing status is unhealthy"),
    }
    match probe_verdict(ProbeOutcome::Failed("connection refused".to_string())) {
        HealthResult::Unhealthy(m) => assert_eq!(m, "healthcheck failed: connection refused"),
        _ => panic!("a failed probe is unhealthy"),
    }
}

#[test]
fn process_status_reads_as_running_only_before_exit() {
    assert!(status_means_running(Some(false)));
    assert!(!status_means_running(Some(true)));
    assert!(!status_means_running(None));
}
