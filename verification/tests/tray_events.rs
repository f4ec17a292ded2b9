use mysql_tray_controller::config::Config;
use mysql_tray_controller::service::ServiceAction;
use mysql_tray_controller::state::MySqlState;
use mysql_tray_controller::tray::{
    about_message, about_title, autostart_check_mark, menu_effect, state_after_launch, MenuCommand,
    MenuEffect, TrayModel, IDLE_WAIT_MS, LAUNCH_REFRESH_DELAY_MS, STAR_MESSAGE,
};

#[test]
fn menu_commands() {
    assert_eq!(menu_effect(MenuCommand::Running), MenuEffect::Launch(ServiceAction::Start));
    assert_eq!(menu_effect(MenuCommand::Stopped), MenuEffect::Launch(ServiceAction::Stop));
    assert_eq!(menu_effect(MenuCommand::Restart), MenuEffect::Launch(ServiceAction::Restart));
    assert_eq!(menu_effect(MenuCommand::Refresh), MenuEffect::RefreshNow);
    assert_eq!(menu_effect(MenuCommand::AutoStart), MenuEffect::ToggleAutostart);
    assert_eq!(menu_effect(MenuCommand::EditConfig), MenuEffect::EditConfig);
    assert_eq!(menu_effect(MenuCommand::ReloadConfig), MenuEffect::ReloadConfig);
    assert_eq!(menu_effect(MenuCommand::OpenServices), MenuEffect::OpenServices);
    assert_eq!(menu_effect(MenuCommand::Star), MenuEffect::OpenRepository);
    assert_eq!(menu_effect(MenuCommand::About), MenuEffect::ShowAbout);
    assert_eq!(menu_effect(MenuCommand::Exit), MenuEffect::Exit);
}

#[test]
fn states_after_launch() {
    assert_eq!(state_after_launch(ServiceAction::Start).label(), "Starting");
    assert_eq!(state_after_launch(ServiceAction::Stop).label(), "Stopping");
    assert_eq!(state_after_launch(ServiceAction::Restart).label(), "Changing state");
    assert_eq!(LAUNCH_REFRESH_DELAY_MS, 500);
}

#[test]
fn launched_start_is_not_offered_again() {
    let mut model = TrayModel::new(Config::with_service("MySQL84".to_string()), 0);
    let p = model.apply_state(state_after_launch(ServiceAction::Start));
    assert!(p.running_checked);
    assert!(!p.running_enabled);
    assert!(!p.restart_enabled);
}

#[test]
fn refresh_schedule() {
    let mut model = TrayModel::new(Config::with_service("MySQL84".to_string()), 1_000);
    assert!(!model.refresh_due(999));
    assert!(model.refresh_due(1_000));
    let p = model.record_refresh(MySqlState::Running, 1_500);
    assert_eq!(p.status_text, "Status: Running (MySQL84)");
    assert_eq!(model.next_refresh_ms, 3_500);
    assert!(!model.refresh_due(3_499));
    assert!(model.refresh_due(3_500));
    model.refresh_now(2_000);
    assert!(model.refresh_due(2_000));
    assert_eq!(IDLE_WAIT_MS, 200);
}

#[test]
fn successful_launch_shows_the_request_and_refreshes_soon() {
    let mut model = TrayModel::new(Config::with_service("MySQL84".to_string()), 0);
    model.record_refresh(MySqlState::Running, 0);
    let p = model.launch_finished(ServiceAction::Stop, true, 10_000).unwrap();
    assert_eq!(p.status_text, "Status: Stopping (MySQL84)");
    assert!(p.stopped_checked && !p.stopped_enabled);
    assert_eq!(model.current_state, MySqlState::Stopping);
    assert_eq!(model.next_refresh_ms, 10_500);
}

#[test]
fn failed_launch_changes_nothing() {
    let mut model = TrayModel::new(Config::with_service("MySQL84".to_string()), 0);
    model.record_refresh(MySqlState::Running, 0);
    assert!(model.launch_finished(ServiceAction::Stop, false, 10_000).is_none());
    assert_eq!(model.current_state, MySqlState::Running);
    assert_eq!(model.next_refresh_ms, 2_000);
}

#[test]
fn autostart_mark() {
    assert!(autostart_check_mark(true, true));
    assert!(!autostart_check_mark(true, false));
    assert!(!autostart_check_mark(false, true));
    assert!(autostart_check_mark(false, false));
}

#[test]
fn model_keeps_the_shown_state() {
    let mut model = TrayModel::new(Config::with_service("MariaDB".to_string()), 0);
    assert_eq!(model.current_state.label(), "Changing state");
    let p = model.apply_state(MySqlState::Paused);
    assert_eq!(model.current_state.label(), "Paused");
    assert_eq!(p.status_text, "Status: Paused (MariaDB)");
    assert_eq!(p.tooltip, "MySQL Tray Controller: Paused [MariaDB]");
    model.reload(Config::with_service("MySQL".to_string()), 42);
    assert_eq!(model.config.service_name, "MySQL");
    assert_eq!(model.next_refresh_ms, 42);
    assert_eq!(model.current_state.label(), "Paused");
}

#[test]
fn about_box() {
    assert_eq!(about_title(), "About MySQL Tray Controller");
    assert_eq!(
        about_message("1.0.1", "Someone", "https://example.invalid/repo"),
        "MySQL Tray Controller\nVersion 1.0.1\n\nCreated by Someone\n\n\
         A lightweight Windows tray controller for MySQL and MariaDB services.\n\n\
         Enjoying the app? Please consider starring it on GitHub.\n\
         https://example.invalid/repo\n\nOpen the GitHub repository now?"
    );
    assert_eq!(STAR_MESSAGE, "Enjoying the app? Please consider starring it on GitHub.");
}
