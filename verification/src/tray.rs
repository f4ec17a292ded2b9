//! The decisions of the tray app's event loop: what each menu command asks
//! for, what the tray shows after an action was handed to the elevated copy,
//! and the state the tray keeps between events.
use vstd::prelude::*;
use crate::config::Config;
use crate::service::ServiceAction;
use crate::state::{
    APP_NAME, MySqlState, TrayPresentation, is_running_choice_spec, is_stopped_choice_spec, present,
    restart_enabled_spec, running_enabled_spec, status_text_spec, stopped_enabled_spec,
    tooltip_spec,
};

verus! {

/// How soon the status is queried again after an action was launched.
pub const LAUNCH_REFRESH_DELAY_MS: u64 = 500;

/// An item of the tray menu that was chosen.
#[derive(Clone, Copy, Debug, PartialEq, Eq, Structural)]
pub enum MenuCommand {
    Running,
    Stopped,
    Restart,
    Refresh,
    AutoStart,
    EditConfig,
    ReloadConfig,
    OpenServices,
    Star,
    About,
    Exit,
}

/// What the app does for a chosen menu item.
#[derive(Clone, Copy, Debug, PartialEq, Eq, Structural)]
pub enum MenuEffect {
    /// Hand the action to an elevated copy of the app.
    Launch(ServiceAction),
    /// Query the status at once.
    RefreshNow,
    /// Turn starting with Windows on or off.
    ToggleAutostart,
    /// Open the configuration file in Notepad.
    EditConfig,
    /// Read the configuration file again and query the status at once.
    ReloadConfig,
    /// Open the Windows Services console.
    OpenServices,
    /// Open the project's page in the browser.
    OpenRepository,
    /// Show the About box, which offers to open the project's page.
    ShowAbout,
    /// Leave the event loop.
    Exit,
}

/// The effect of each menu item.
pub open spec fn menu_effect_spec(command: MenuCommand) -> MenuEffect {
    match command {
        MenuCommand::Running => MenuEffect::Launch(ServiceAction::Start),
        MenuCommand::Stopped => MenuEffect::Launch(ServiceAction::Stop),
        MenuCommand::Restart => MenuEffect::Launch(ServiceAction::Restart),
        MenuCommand::Refresh => MenuEffect::RefreshNow,
        MenuCommand::AutoStart => MenuEffect::ToggleAutostart,
        MenuCommand::EditConfig => MenuEffect::EditConfig,
        MenuCommand::ReloadConfig => MenuEffect::ReloadConfig,
        MenuCommand::OpenServices => MenuEffect::OpenServices,
        MenuCommand::Star => MenuEffect::OpenRepository,
        MenuCommand::About => MenuEffect::ShowAbout,
        MenuCommand::Exit => MenuEffect::Exit,
    }
}

/// What the app does when `command` is chosen.
pub fn menu_effect(command: MenuCommand) -> (effect: MenuEffect)
    ensures
        effect == menu_effect_spec(command),
{
    match command {
        MenuCommand::Running => MenuEffect::Launch(ServiceAction::Start),
        MenuCommand::Stopped => MenuEffect::Launch(ServiceAction::Stop),
        MenuCommand::Restart => MenuEffect::Launch(ServiceAction::Restart),
        MenuCommand::Refresh => MenuEffect::RefreshNow,
        MenuCommand::AutoStart => MenuEffect::ToggleAutostart,
        MenuCommand::EditConfig => MenuEffect::EditConfig,
        MenuCommand::ReloadConfig => MenuEffect::ReloadConfig,
        MenuCommand::OpenServices => MenuEffect::OpenServices,
        MenuCommand::Star => MenuEffect::OpenRepository,
        MenuCommand::About => MenuEffect::ShowAbout,
        MenuCommand::Exit => MenuEffect::Exit,
    }
}

/// The state shown once an action has been handed over, until the next
/// status query.
pub open spec fn launched_state(action: ServiceAction) -> MySqlState {
    match action {
        ServiceAction::Start => MySqlState::Starting,
        ServiceAction::Stop => MySqlState::Stopping,
        ServiceAction::Restart => MySqlState::Pending,
    }
}

/// The state to show once `action` has been handed to the elevated copy.
pub fn state_after_launch(action: ServiceAction) -> (state: MySqlState)
    ensures
        state == launched_state(action),
{
    match action {
        ServiceAction::Start => MySqlState::Starting,
        ServiceAction::Stop => MySqlState::Stopping,
        ServiceAction::Restart => MySqlState::Pending,
    }
}

/// The check mark of "Start tray app with Windows" after asking to turn it
/// to `requested`: the request when it succeeded, the old setting otherwise.
pub fn autostart_check_mark(requested: bool, succeeded: bool) -> (checked: bool)
    ensures
        checked == (if succeeded {
            requested
        } else {
            !requested
        }),
{
    if succeeded {
        requested
    } else {
        !requested
    }
}

/// Once an action has been handed over, the menu shows the choice it asked
/// for (a restart shows neither), and it offers neither that action again
/// nor a restart until the next status query.
pub proof fn lemma_launch_feedback(action: ServiceAction)
    ensures
        action == ServiceAction::Start ==> is_running_choice_spec(launched_state(action))
            && !running_enabled_spec(launched_state(action)),
        action == ServiceAction::Stop ==> is_stopped_choice_spec(launched_state(action))
            && !stopped_enabled_spec(launched_state(action)),
        action == ServiceAction::Restart ==> !is_running_choice_spec(launched_state(action))
            && !is_stopped_choice_spec(launched_state(action)),
        !restart_enabled_spec(launched_state(action)),
{
}

/// How long the event loop waits before looking at the menu again.
pub const IDLE_WAIT_MS: u64 = 200;

/// What the tray app keeps between events: the configuration in force, the
/// state last shown, and when the status is next queried, in milliseconds
/// of the app's clock.
pub struct TrayModel {
    pub config: Config,
    pub current_state: MySqlState,
    pub next_refresh_ms: u64,
}

impl TrayModel {
    /// The model at start-up: the state is shown as changing until the first
    /// status query, which is due at once.
    pub fn new(config: Config, now_ms: u64) -> (model: TrayModel)
        ensures
            model.config == config,
            model.current_state == MySqlState::Pending,
            model.next_refresh_ms == now_ms,
    {
        TrayModel { config, current_state: MySqlState::Pending, next_refresh_ms: now_ms }
    }

    /// Whether the status is due to be queried at `now_ms`.
    pub fn refresh_due(&self, now_ms: u64) -> (due: bool)
        ensures
            due == (now_ms >= self.next_refresh_ms),
    {
        now_ms >= self.next_refresh_ms
    }

    /// Records `state` as the state shown and returns what the tray shows
    /// for it; the refresh deadline stays as it is.
    pub fn apply_state(&mut self, state: MySqlState) -> (p: TrayPresentation)
        ensures
            final(self).config == old(self).config,
            final(self).current_state == state,
            final(self).next_refresh_ms == old(self).next_refresh_ms,
            p.status_text@ == status_text_spec(state, old(self).config.service_name@),
            p.running_checked == is_running_choice_spec(state),
            p.stopped_checked == is_stopped_choice_spec(state),
            p.running_enabled == running_enabled_spec(state),
            p.stopped_enabled == stopped_enabled_spec(state),
            p.restart_enabled == restart_enabled_spec(state),
            p.tooltip@ == tooltip_spec(state, old(self).config.service_name@),
    {
        let p = present(&state, self.config.service_name.as_str());
        self.current_state = state;
        p
    }

    /// Records the state a status query found at `now_ms` and schedules the
    /// next query one refresh interval later.
    pub fn record_refresh(&mut self, state: MySqlState, now_ms: u64) -> (p: TrayPresentation)
        requires
            now_ms + old(self).config.refresh_seconds * 1000 <= u64::MAX,
        ensures
            final(self).config == old(self).config,
            final(self).current_state == state,
            final(self).next_refresh_ms == now_ms + old(self).config.refresh_seconds * 1000,
            p.status_text@ == status_text_spec(state, old(self).config.service_name@),
            p.running_checked == is_running_choice_spec(state),
            p.stopped_checked == is_stopped_choice_spec(state),
            p.running_enabled == running_enabled_spec(state),
            p.stopped_enabled == stopped_enabled_spec(state),
            p.restart_enabled == restart_enabled_spec(state),
            p.tooltip@ == tooltip_spec(state, old(self).config.service_name@),
    {
        let p = self.apply_state(state);
        self.next_refresh_ms = now_ms + self.config.refresh_seconds * 1000;
        p
    }

    /// Handles the outcome of handing `action` to the elevated copy at
    /// `now_ms`: on success the state it asked for is shown and the status
    /// is queried again shortly; on failure nothing changes.
    pub fn launch_finished(&mut self, action: ServiceAction, succeeded: bool, now_ms: u64) -> (p:
        Option<TrayPresentation>)
        requires
            now_ms + LAUNCH_REFRESH_DELAY_MS <= u64::MAX,
        ensures
            final(self).config == old(self).config,
            succeeded ==> {
                &&& final(self).current_state == launched_state(action)
                &&& final(self).next_refresh_ms == now_ms + LAUNCH_REFRESH_DELAY_MS
                &&& p matches Some(p) && p.status_text@ == status_text_spec(
                    launched_state(action),
                    old(self).config.service_name@,
                ) && p.running_checked == is_running_choice_spec(launched_state(action))
                    && p.stopped_checked == is_stopped_choice_spec(launched_state(action))
                    && p.running_enabled == running_enabled_spec(launched_state(action))
                    && p.stopped_enabled == stopped_enabled_spec(launched_state(action))
                    && p.restart_enabled == restart_enabled_spec(launched_state(action))
                    && p.tooltip@ == tooltip_spec(
                    launched_state(action),
                    old(self).config.service_name@,
                )
            },
            !succeeded ==> {
                &&& final(self).current_state == old(self).current_state
                &&& final(self).next_refresh_ms == old(self).next_refresh_ms
                &&& p is None
            },
    {
        if succeeded {
            let p = self.apply_state(state_after_launch(action));
            self.next_refresh_ms = now_ms + LAUNCH_REFRESH_DELAY_MS;
            Some(p)
        } else {
            None
        }
    }

    /// Makes the status query due at `now_ms`.
    pub fn refresh_now(&mut self, now_ms: u64)
        ensures
            final(self).config == old(self).config,
            final(self).current_state == old(self).current_state,
            final(self).next_refresh_ms == now_ms,
    {
        self.next_refresh_ms = now_ms;
    }

    /// Puts a reloaded configuration in force and makes the status query due
    /// at `now_ms`.
    pub fn reload(&mut self, config: Config, now_ms: u64)
        ensures
            final(self).config == config,
            final(self).current_state == old(self).current_state,
            final(self).next_refresh_ms == now_ms,
    {
        self.config = config;
        self.next_refresh_ms = now_ms;
    }
}

/// The invitation to star the project, shown in the About box.
pub const STAR_MESSAGE: &'static str = "Enjoying the app? Please consider starring it on GitHub.";

/// The text of the About box for the given version, authors and project page.
pub open spec fn about_message_spec(version: Seq<char>, authors: Seq<char>, repository: Seq<char>) -> Seq<char> {
    APP_NAME@ + "\nVersion "@ + version + "\n\nCreated by "@ + authors
        + "\n\nA lightweight Windows tray controller for MySQL and MariaDB services.\n\n"@
        + STAR_MESSAGE@ + "\n"@ + repository + "\n\nOpen the GitHub repository now?"@
}

/// The text of the About box.
pub fn about_message(version: &str, authors: &str, repository: &str) -> (m: String)
    ensures
        m@ == about_message_spec(version@, authors@, repository@),
{
    let mut m = String::new();
    m.append(APP_NAME);
    m.append("\nVersion ");
    m.append(version);
    m.append("\n\nCreated by ");
    m.append(authors);
    m.append("\n\nA lightweight Windows tray controller for MySQL and MariaDB services.\n\n");
    m.append(STAR_MESSAGE);
    m.append("\n");
    m.append(repository);
    m.append("\n\nOpen the GitHub repository now?");
    assert(m@ =~= about_message_spec(version@, authors@, repository@));
    m
}

/// The title of the About box.
pub fn about_title() -> (t: String)
    ensures
        t@ == "About "@ + APP_NAME@,
{
    let mut t = String::new();
    t.append("About ");
    t.append(APP_NAME);
    t
}

} // verus!
