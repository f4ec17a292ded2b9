//! The state of the watched Windows service as the tray shows it, and what
//! the tray menu and tooltip show for each state.
use vstd::prelude::*;
use crate::text::{shorten, shortened};

verus! {

/// The name shown in the tooltip and the error dialogs.
pub const APP_NAME: &'static str = "MySQL Tray Controller";

/// Longest error text shown in the status line before it is cut.
pub const STATUS_ERROR_CHARS: usize = 45;

/// The states that the Service Control Manager reports for a service.
#[derive(Clone, Copy, Debug, PartialEq, Eq, Structural)]
pub enum ServiceStatus {
    Stopped,
    StartPending,
    StopPending,
    Running,
    ContinuePending,
    PausePending,
    Paused,
}

/// The state of the watched service, as the tray shows it.
#[derive(Clone, Debug, PartialEq, Eq)]
pub enum MySqlState {
    Running,
    Stopped,
    Starting,
    Stopping,
    Paused,
    Pending,
    NotFound,
    Error(String),
}

/// The tray state for a status that the service reports.
pub open spec fn state_of_status(status: ServiceStatus) -> MySqlState {
    match status {
        ServiceStatus::Running => MySqlState::Running,
        ServiceStatus::Stopped => MySqlState::Stopped,
        ServiceStatus::StartPending => MySqlState::Starting,
        ServiceStatus::StopPending => MySqlState::Stopping,
        ServiceStatus::Paused => MySqlState::Paused,
        ServiceStatus::ContinuePending => MySqlState::Pending,
        ServiceStatus::PausePending => MySqlState::Pending,
    }
}

/// The word shown for a state.
pub open spec fn state_label(state: MySqlState) -> Seq<char> {
    match state {
        MySqlState::Running => "Running"@,
        MySqlState::Stopped => "Stopped"@,
        MySqlState::Starting => "Starting"@,
        MySqlState::Stopping => "Stopping"@,
        MySqlState::Paused => "Paused"@,
        MySqlState::Pending => "Changing state"@,
        MySqlState::NotFound => "Service not found"@,
        MySqlState::Error(_) => "Status unavailable"@,
    }
}

/// The RGBA colour of the icon for a state: green when running, red when
/// stopped, yellow while changing, blue when paused, gray when unknown.
pub open spec fn state_color(state: MySqlState) -> [u8; 4] {
    match state {
        MySqlState::Running => [46u8, 204u8, 113u8, 255u8],
        MySqlState::Stopped => [231u8, 76u8, 60u8, 255u8],
        MySqlState::Starting | MySqlState::Stopping | MySqlState::Pending => [
            241u8,
            196u8,
            15u8,
            255u8,
        ],
        MySqlState::Paused => [52u8, 152u8, 219u8, 255u8],
        MySqlState::NotFound | MySqlState::Error(_) => [127u8, 140u8, 141u8, 255u8],
    }
}

/// The state counts as the "Running" choice of the menu.
pub open spec fn is_running_choice_spec(state: MySqlState) -> bool {
    state is Running || state is Starting
}

/// The state counts as the "Stopped" choice of the menu.
pub open spec fn is_stopped_choice_spec(state: MySqlState) -> bool {
    state is Stopped || state is Stopping
}

/// The service exists and its status could be read.
pub open spec fn service_available(state: MySqlState) -> bool {
    !(state is NotFound || state is Error)
}

impl MySqlState {
    /// The tray state for a status that the service reports.
    pub fn from_status(status: ServiceStatus) -> (state: MySqlState)
        ensures
            state == state_of_status(status),
    {
        match status {
            ServiceStatus::Running => MySqlState::Running,
            ServiceStatus::Stopped => MySqlState::Stopped,
            ServiceStatus::StartPending => MySqlState::Starting,
            ServiceStatus::StopPending => MySqlState::Stopping,
            ServiceStatus::Paused => MySqlState::Paused,
            ServiceStatus::ContinuePending | ServiceStatus::PausePending => MySqlState::Pending,
        }
    }

    /// The word shown for this state.
    pub fn label(&self) -> (label: &'static str)
        ensures
            label@ == state_label(*self),
    {
        match self {
            MySqlState::Running => "Running",
            MySqlState::Stopped => "Stopped",
            MySqlState::Starting => "Starting",
            MySqlState::Stopping => "Stopping",
            MySqlState::Paused => "Paused",
            MySqlState::Pending => "Changing state",
            MySqlState::NotFound => "Service not found",
            MySqlState::Error(_) => "Status unavailable",
        }
    }

    /// The RGBA colour of the icon for this state.
    pub fn color(&self) -> (color: [u8; 4])
        ensures
            color == state_color(*self),
    {
        match self {
            MySqlState::Running => [46, 204, 113, 255],
            MySqlState::Stopped => [231, 76, 60, 255],
            MySqlState::Starting | MySqlState::Stopping | MySqlState::Pending => [241, 196, 15, 255],
            MySqlState::Paused => [52, 152, 219, 255],
            MySqlState::NotFound | MySqlState::Error(_) => [127, 140, 141, 255],
        }
    }

    /// Whether this state checks the "Running" menu item.
    pub fn is_running_choice(&self) -> (b: bool)
        ensures
            b == is_running_choice_spec(*self),
    {
        match self {
            MySqlState::Running | MySqlState::Starting => true,
            _ => false,
        }
    }

    /// Whether this state checks the "Stopped" menu item.
    pub fn is_stopped_choice(&self) -> (b: bool)
        ensures
            b == is_stopped_choice_spec(*self),
    {
        match self {
            MySqlState::Stopped | MySqlState::Stopping => true,
            _ => false,
        }
    }
}

/// The Windows error code for a service name that does not exist.
pub const SERVICE_DOES_NOT_EXIST: i32 = 1060;

/// The state shown when the service could not be opened: a service that
/// does not exist is "not found"; any other failure is an error with its
/// message.
pub open spec fn open_error_state(code: Option<i32>, message: String) -> MySqlState {
    if code == Some(SERVICE_DOES_NOT_EXIST) {
        MySqlState::NotFound
    } else {
        MySqlState::Error(message)
    }
}

/// The state to show when opening the service failed with the Windows error
/// `code` (`None` when the failure carries no such code) and `message`.
pub fn state_for_open_error(code: Option<i32>, message: String) -> (state: MySqlState)
    ensures
        state == open_error_state(code, message),
{
    match code {
        Some(c) => if c == SERVICE_DOES_NOT_EXIST {
            MySqlState::NotFound
        } else {
            MySqlState::Error(message)
        },
        None => MySqlState::Error(message),
    }
}

/// What the tray shows for a state: the status line of the menu, the check
/// marks and the enabled items, and the icon's tooltip.
pub struct TrayPresentation {
    pub status_text: String,
    pub running_checked: bool,
    pub stopped_checked: bool,
    pub running_enabled: bool,
    pub stopped_enabled: bool,
    pub restart_enabled: bool,
    pub tooltip: String,
}

/// The status line: the state's word, then in brackets the service's name,
/// or for an error the error text cut to 45 characters.
pub open spec fn status_text_spec(state: MySqlState, service_name: Seq<char>) -> Seq<char> {
    let detail = match state {
        MySqlState::Error(error) => shortened(error@, STATUS_ERROR_CHARS as nat),
        _ => service_name,
    };
    "Status: "@ + state_label(state) + " ("@ + detail + ")"@
}

/// The tooltip: the app's name, the state's word and the service's name.
pub open spec fn tooltip_spec(state: MySqlState, service_name: Seq<char>) -> Seq<char> {
    APP_NAME@ + ": "@ + state_label(state) + " ["@ + service_name + "]"@
}

/// "Running" can be chosen: the service is there and not running or starting.
pub open spec fn running_enabled_spec(state: MySqlState) -> bool {
    service_available(state) && !(state is Running || state is Starting)
}

/// "Stopped" can be chosen: the service is there and not stopped or stopping.
pub open spec fn stopped_enabled_spec(state: MySqlState) -> bool {
    service_available(state) && !(state is Stopped || state is Stopping)
}

/// "Restart" can be chosen: the service is running.
pub open spec fn restart_enabled_spec(state: MySqlState) -> bool {
    service_available(state) && state is Running
}

/// What the tray shows for `state`, for the service named `service_name`.
pub fn present(state: &MySqlState, service_name: &str) -> (p: TrayPresentation)
    ensures
        p.status_text@ == status_text_spec(*state, service_name@),
        p.running_checked == is_running_choice_spec(*state),
        p.stopped_checked == is_stopped_choice_spec(*state),
        p.running_enabled == running_enabled_spec(*state),
        p.stopped_enabled == stopped_enabled_spec(*state),
        p.restart_enabled == restart_enabled_spec(*state),
        p.tooltip@ == tooltip_spec(*state, service_name@),
{
    let label = state.label();
    let mut status_text = String::new();
    status_text.append("Status: ");
    status_text.append(label);
    status_text.append(" (");
    match state {
        MySqlState::Error(error) => {
            let short = shorten(error.as_str(), STATUS_ERROR_CHARS);
            status_text.append(short.as_str());
        },
        _ => {
            status_text.append(service_name);
        },
    }
    status_text.append(")");
    let available = match state {
        MySqlState::NotFound | MySqlState::Error(_) => false,
        _ => true,
    };
    let running_like = match state {
        MySqlState::Running | MySqlState::Starting => true,
        _ => false,
    };
    let stopped_like = match state {
        MySqlState::Stopped | MySqlState::Stopping => true,
        _ => false,
    };
    let running = match state {
        MySqlState::Running => true,
        _ => false,
    };
    let mut tooltip = String::new();
    tooltip.append(APP_NAME);
    tooltip.append(": ");
    tooltip.append(label);
    tooltip.append(" [");
    tooltip.append(service_name);
    tooltip.append("]");
    proof {
        assert(status_text@ =~= status_text_spec(*state, service_name@));
        assert(tooltip@ =~= tooltip_spec(*state, service_name@));
    }
    TrayPresentation {
        status_text,
        running_checked: state.is_running_choice(),
        stopped_checked: state.is_stopped_choice(),
        running_enabled: available && !running_like,
        stopped_enabled: available && !stopped_like,
        restart_enabled: available && running,
        tooltip,
    }
}

/// The menu never offers a choice that is already made, never checks both
/// choices, offers nothing for a service that cannot be read, and offers a
/// restart only for a running service.
pub proof fn lemma_menu_consistent(state: MySqlState)
    ensures
        !(is_running_choice_spec(state) && is_stopped_choice_spec(state)),
        running_enabled_spec(state) ==> !is_running_choice_spec(state),
        stopped_enabled_spec(state) ==> !is_stopped_choice_spec(state),
        !service_available(state) ==> !running_enabled_spec(state) && !stopped_enabled_spec(
            state,
        ) && !restart_enabled_spec(state),
        restart_enabled_spec(state) ==> state is Running,
        restart_enabled_spec(state) ==> stopped_enabled_spec(state),
{
}

/// Each menu choice can be picked exactly when the service can be read and
/// that choice is not already checked, so a starting service can be
/// stopped and a stopping one started; restart is offered exactly for a
/// running service. A service reported running or starting checks
/// "Running"; one reported stopped or stopping checks "Stopped".
pub proof fn lemma_menu_offers_the_other_choice(state: MySqlState, status: ServiceStatus)
    ensures
        running_enabled_spec(state) == (service_available(state) && !is_running_choice_spec(state)),
        stopped_enabled_spec(state) == (service_available(state) && !is_stopped_choice_spec(state)),
        restart_enabled_spec(state) == (state is Running),
        is_running_choice_spec(state_of_status(status)) <==> (status == ServiceStatus::Running
            || status == ServiceStatus::StartPending),
        is_stopped_choice_spec(state_of_status(status)) <==> (status == ServiceStatus::Stopped
            || status == ServiceStatus::StopPending),
        service_available(state_of_status(status)),
{
}

} // verus!
