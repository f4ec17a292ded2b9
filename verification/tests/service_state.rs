use mysql_tray_controller::state::{
    present, state_for_open_error, MySqlState, ServiceStatus, APP_NAME, SERVICE_DOES_NOT_EXIST,
};
use mysql_tray_controller::text::shorten;

fn all_states() -> Vec<MySqlState> {
    vec![
        MySqlState::Running,
        MySqlState::Stopped,
        MySqlState::Starting,
        MySqlState::Stopping,
        MySqlState::Paused,
        MySqlState::Pending,
        MySqlState::NotFound,
        MySqlState::Error("boom".to_string()),
    ]
}

#[test]
fn labels() {
    let labels: Vec<&str> = all_states().iter().map(|s| s.label()).collect();
    assert_eq!(
        labels,
        vec![
            "Running",
            "Stopped",
            "Starting",
            "Stopping",
            "Paused",
            "Changing state",
            "Service not found",
            "Status unavailable"
        ]
    );
}

#[test]
fn colors_follow_the_readme() {
    let green = [46, 204, 113, 255];
    let red = [231, 76, 60, 255];
    let yellow = [241, 196, 15, 255];
    let blue = [52, 152, 219, 255];
    let gray = [127, 140, 141, 255];
    let colors: Vec<[u8; 4]> = all_states().iter().map(|s| s.color()).collect();
    assert_eq!(colors, vec![green, red, yellow, yellow, blue, yellow, gray, gray]);
}

#[test]
fn menu_choices() {
    let running: Vec<bool> = all_states().iter().map(|s| s.is_running_choice()).collect();
    let stopped: Vec<bool> = all_states().iter().map(|s| s.is_stopped_choice()).collect();
    assert_eq!(running, vec![true, false, true, false, false, false, false, false]);
    assert_eq!(stopped, vec![false, true, false, true, false, false, false, false]);
}

#[test]
fn states_from_service_statuses() {
    let cases = [
        (ServiceStatus::Running, "Running"),
        (ServiceStatus::Stopped, "Stopped"),
        (ServiceStatus::StartPending, "Starting"),
        (ServiceStatus::StopPending, "Stopping"),
        (ServiceStatus::Paused, "Paused"),
        (ServiceStatus::ContinuePending, "Changing state"),
        (ServiceStatus::PausePending, "Changing state"),
    ];
    for (status, label) in cases {
        assert_eq!(MySqlState::from_status(status).label(), label);
    }
}

#[test]
fn presentation_of_running_service() {
    let p = present(&MySqlState::Running, "MySQL84");
    assert_eq!(p.status_text, "Status: Running (MySQL84)");
    assert_eq!(p.tooltip, "MySQL Tray Controller: Running [MySQL84]");
    assert!(p.running_checked);
    assert!(!p.stopped_checked);
    assert!(!p.running_enabled);
    assert!(p.stopped_enabled);
    assert!(p.restart_enabled);
}

#[test]
fn presentation_of_stopped_service() {
    let p = present(&MySqlState::Stopped, "MariaDB");
    assert_eq!(p.status_text, "Status: Stopped (MariaDB)");
    assert!(!p.running_checked);
    assert!(p.stopped_checked);
    assert!(p.running_enabled);
    assert!(!p.stopped_enabled);
    assert!(!p.restart_enabled);
}

#[test]
fn presentation_of_missing_service_offers_nothing() {
    let p = present(&MySqlState::NotFound, "MySQL84");
    assert_eq!(p.status_text, "Status: Service not found (MySQL84)");
    assert!(!p.running_enabled && !p.stopped_enabled && !p.restart_enabled);
    assert!(!p.running_checked && !p.stopped_checked);
}

#[test]
fn presentation_of_error_shows_shortened_error() {
    let error = "The service control manager could not be contacted right now".to_string();
    let p = present(&MySqlState::Error(error), "MySQL84");
    assert_eq!(
        p.status_text,
        "Status: Status unavailable (The service control manager could not be cont...)"
    );
    assert_eq!(p.tooltip, "MySQL Tray Controller: Status unavailable [MySQL84]");
    assert!(!p.running_enabled && !p.stopped_enabled && !p.restart_enabled);
}

#[test]
fn presentation_is_consistent_for_every_state() {
    for state in all_states() {
        let p = present(&state, "svc");
        assert!(!(p.running_checked && p.stopped_checked));
        assert!(!p.running_enabled || !p.running_checked);
        assert!(!p.stopped_enabled || !p.stopped_checked);
        assert!(!p.restart_enabled || matches!(state, MySqlState::Running));
    }
}

#[test]
fn shorten_cuts_long_text() {
    assert_eq!(shorten("abcdef", 3), "abc...");
    assert_eq!(shorten("abc", 3), "abc");
    assert_eq!(shorten("", 0), "");
    assert_eq!(shorten("äöü✓x", 4), "äöü✓...");
}

#[test]
fn app_name() {
    assert_eq!(APP_NAME, "MySQL Tray Controller");
}

#[test]
fn failed_open_of_missing_service() {
    assert_eq!(SERVICE_DOES_NOT_EXIST, 1060);
    assert_eq!(state_for_open_error(Some(1060), "gone".to_string()), MySqlState::NotFound);
    assert_eq!(
        state_for_open_error(Some(5), "Access is denied.".to_string()),
        MySqlState::Error("Access is denied.".to_string())
    );
    assert_eq!(
        state_for_open_error(None, "bad name".to_string()),
        MySqlState::Error("bad name".to_string())
    );
}
