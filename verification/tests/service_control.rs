use std::cell::RefCell;

use mysql_tray_controller::service::{
    argument_value, autostart_command, candidate_name, detect_service_name, elevated_parameters,
    plan_service_action, shell_launch_succeeded, timeout_message, wait_step, ActionError,
    LaunchError, ServiceAction, ServiceStep, WaitStep, POLL_INTERVAL_MS, SERVICE_CANDIDATE_COUNT,
    SERVICE_TIMEOUT_MS,
};
use mysql_tray_controller::state::ServiceStatus;

const ALL_STATUSES: [ServiceStatus; 7] = [
    ServiceStatus::Stopped,
    ServiceStatus::StartPending,
    ServiceStatus::StopPending,
    ServiceStatus::Running,
    ServiceStatus::ContinuePending,
    ServiceStatus::PausePending,
    ServiceStatus::Paused,
];

#[test]
fn action_names_read_back() {
    for action in [ServiceAction::Start, ServiceAction::Stop, ServiceAction::Restart] {
        match ServiceAction::from_name(action.name()) {
            Ok(parsed) => assert_eq!(parsed, action),
            Err(_) => panic!("name of {:?} was refused", action),
        }
    }
    assert_eq!(ServiceAction::Start.name(), "start");
    assert_eq!(ServiceAction::Stop.name(), "stop");
    assert_eq!(ServiceAction::Restart.name(), "restart");
}

#[test]
fn unknown_action_is_refused() {
    for name in ["pause", "", "Start", "start "] {
        match ServiceAction::from_name(name) {
            Ok(action) => panic!("{:?} accepted as {:?}", name, action),
            Err(error) => {
                let ActionError::Unsupported(given) = &error;
                assert_eq!(given, name);
                assert_eq!(error.message(), format!("Unsupported service action: {name}"));
            }
        }
    }
}

#[test]
fn start_plan() {
    let expected = vec![ServiceStep::Start, ServiceStep::AwaitStatus(ServiceStatus::Running)];
    for status in ALL_STATUSES {
        let plan = plan_service_action(ServiceAction::Start, status);
        if matches!(status, ServiceStatus::Running | ServiceStatus::StartPending) {
            assert!(plan.is_empty());
        } else {
            assert_eq!(plan, expected);
        }
    }
}

#[test]
fn stop_plan() {
    let expected = vec![ServiceStep::Stop, ServiceStep::AwaitStatus(ServiceStatus::Stopped)];
    for status in ALL_STATUSES {
        let plan = plan_service_action(ServiceAction::Stop, status);
        if matches!(status, ServiceStatus::Stopped | ServiceStatus::StopPending) {
            assert!(plan.is_empty());
        } else {
            assert_eq!(plan, expected);
        }
    }
}

#[test]
fn restart_plan_from_running() {
    assert_eq!(
        plan_service_action(ServiceAction::Restart, ServiceStatus::Running),
        vec![
            ServiceStep::Stop,
            ServiceStep::AwaitStatus(ServiceStatus::Stopped),
            ServiceStep::Start,
            ServiceStep::AwaitStatus(ServiceStatus::Running),
        ]
    );
}

#[test]
fn restart_plan_from_stopped() {
    assert_eq!(
        plan_service_action(ServiceAction::Restart, ServiceStatus::Stopped),
        vec![ServiceStep::Start, ServiceStep::AwaitStatus(ServiceStatus::Running)]
    );
}

#[test]
fn restart_waits_for_a_stopping_service() {
    assert_eq!(
        plan_service_action(ServiceAction::Restart, ServiceStatus::StopPending),
        vec![
            ServiceStep::AwaitStatus(ServiceStatus::Stopped),
            ServiceStep::Start,
            ServiceStep::AwaitStatus(ServiceStatus::Running),
        ]
    );
}

#[test]
fn waiting_decisions() {
    let running = ServiceStatus::Running;
    assert_eq!(wait_step(running, SERVICE_TIMEOUT_MS, 0, None), WaitStep::Query);
    assert_eq!(wait_step(running, SERVICE_TIMEOUT_MS, 24_999, None), WaitStep::Query);
    assert_eq!(wait_step(running, SERVICE_TIMEOUT_MS, 25_000, None), WaitStep::TimedOut);
    assert_eq!(wait_step(running, SERVICE_TIMEOUT_MS, 100, Some(running)), WaitStep::Reached);
    assert_eq!(
        wait_step(running, SERVICE_TIMEOUT_MS, 100, Some(ServiceStatus::StartPending)),
        WaitStep::Sleep(POLL_INTERVAL_MS)
    );
    assert_eq!(POLL_INTERVAL_MS, 250);
    assert_eq!(SERVICE_TIMEOUT_MS, 25_000);
}

#[test]
fn timeout_messages() {
    assert_eq!(
        timeout_message(ServiceStatus::Running),
        "Timed out waiting for service state Running"
    );
    assert_eq!(
        timeout_message(ServiceStatus::Stopped),
        "Timed out waiting for service state Stopped"
    );
}

#[test]
fn elevated_command_line() {
    assert_eq!(
        elevated_parameters(ServiceAction::Restart, "MySQL84"),
        Ok("--elevated-action restart --service \"MySQL84\"".to_string())
    );
    assert_eq!(
        elevated_parameters(ServiceAction::Start, "My SQL"),
        Ok("--elevated-action start --service \"My SQL\"".to_string())
    );
}

#[test]
fn quote_in_service_name_is_refused() {
    let result = elevated_parameters(ServiceAction::Stop, "bad\"name");
    assert_eq!(result, Err(LaunchError::QuoteInServiceName));
    assert_eq!(
        LaunchError::QuoteInServiceName.message(),
        "The service name contains an invalid quote character"
    );
}

#[test]
fn shell_results() {
    assert!(!shell_launch_succeeded(0));
    assert!(!shell_launch_succeeded(32));
    assert!(shell_launch_succeeded(33));
    assert!(!shell_launch_succeeded(-1));
}

#[test]
fn autostart_registry_command() {
    assert_eq!(
        autostart_command("C:\\Apps\\mysql-tray-controller.exe"),
        "\"C:\\Apps\\mysql-tray-controller.exe\" --startup"
    );
}

fn strings(items: &[&str]) -> Vec<String> {
    items.iter().map(|s| s.to_string()).collect()
}

#[test]
fn argument_lookup() {
    let args = strings(&["app.exe", "--elevated-action", "start", "--service", "MySQL84"]);
    assert_eq!(argument_value(&args, "--elevated-action"), Some("start".to_string()));
    assert_eq!(argument_value(&args, "--service"), Some("MySQL84".to_string()));
    assert_eq!(argument_value(&args, "--missing"), None);
}

#[test]
fn argument_at_the_end_has_no_value() {
    let args = strings(&["app.exe", "--service"]);
    assert_eq!(argument_value(&args, "--service"), None);
    assert_eq!(argument_value(&[], "--service"), None);
}

#[test]
fn first_occurrence_of_an_argument_counts() {
    let args = strings(&["--service", "one", "--service", "two"]);
    assert_eq!(argument_value(&args, "--service"), Some("one".to_string()));
    let args = strings(&["--service", "--service", "two"]);
    assert_eq!(argument_value(&args, "--service"), Some("--service".to_string()));
}

#[test]
fn candidates_in_order() {
    let names: Vec<&str> = (0..SERVICE_CANDIDATE_COUNT).map(candidate_name).collect();
    assert_eq!(
        names,
        vec!["MySQL84", "MySQL80", "MySQL", "MariaDB", "mariadb", "wampmysqld64", "wampmariadb64"]
    );
}

#[test]
fn detection_defaults_when_nothing_exists() {
    let asked = RefCell::new(Vec::new());
    let name = detect_service_name(|candidate: &str| {
        asked.borrow_mut().push(candidate.to_string());
        false
    });
    assert_eq!(name, "MySQL84");
    assert_eq!(asked.borrow().len(), 7);
}

#[test]
fn detection_stops_at_first_existing_service() {
    let asked = RefCell::new(Vec::new());
    let name = detect_service_name(|candidate: &str| {
        asked.borrow_mut().push(candidate.to_string());
        candidate == "MariaDB" || candidate == "wampmysqld64"
    });
    assert_eq!(name, "MariaDB");
    assert_eq!(*asked.borrow(), vec!["MySQL84", "MySQL80", "MySQL", "MariaDB"]);
}

#[test]
fn elevated_copy_reads_back_its_arguments() {
    // The command line of the elevated copy, split into arguments.
    let args = strings(&["app.exe", "--elevated-action", ServiceAction::Stop.name(), "--service", "MySQL80"]);
    let action = argument_value(&args, "--elevated-action").unwrap();
    assert_eq!(ServiceAction::from_name(&action).ok(), Some(ServiceAction::Stop));
    assert_eq!(argument_value(&args, "--service"), Some("MySQL80".to_string()));
}

/// Drives `wait_step` the way the app's loop does, over scripted clock
/// readings and query replies (`None` for a failed query).
fn simulate_wait(
    expected: ServiceStatus,
    timeout_ms: u64,
    clock: &[u64],
    replies: &[Option<ServiceStatus>],
) -> (&'static str, usize) {
    let mut round = 0;
    let mut queries = 0;
    let mut observed = None;
    loop {
        match wait_step(expected, timeout_ms, clock[round], observed) {
            WaitStep::Query => match replies[round] {
                Some(status) => {
                    queries += 1;
                    observed = Some(status);
                }
                None => return ("failed", queries + 1),
            },
            WaitStep::Sleep(ms) => {
                assert_eq!(ms, POLL_INTERVAL_MS);
                observed = None;
                round += 1;
            }
            WaitStep::Reached => return ("reached", queries),
            WaitStep::TimedOut => return ("timed out", queries),
        }
    }
}

#[test]
fn wait_loop_outcomes() {
    let running = ServiceStatus::Running;
    let starting = ServiceStatus::StartPending;
    assert_eq!(simulate_wait(running, 0, &[0], &[Some(running)]), ("timed out", 0));
    assert_eq!(
        simulate_wait(running, 1000, &[0, 300, 600], &[Some(starting), Some(starting), Some(running)]),
        ("reached", 3)
    );
    assert_eq!(
        simulate_wait(running, 1000, &[0, 300, 600], &[Some(starting), None, Some(running)]),
        ("failed", 2)
    );
    assert_eq!(
        simulate_wait(running, 500, &[0, 300, 600], &[Some(starting), Some(starting), Some(running)]),
        ("timed out", 2)
    );
}
