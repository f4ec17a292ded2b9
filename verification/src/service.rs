//! Controlling the Windows service: the actions the tray offers, the steps
//! each one takes against the Service Control Manager, the wait for a state,
//! and the command lines that carry an action to an elevated copy of the app.
use vstd::prelude::*;
use crate::state::ServiceStatus;
use crate::text::{chars_of, find_char, range_equals, string_from_range};

verus! {

/// How long an action waits for the service to reach a state.
pub const SERVICE_TIMEOUT_MS: u64 = 25_000;

/// Pause between two status queries while waiting.
pub const POLL_INTERVAL_MS: u64 = 250;

/// The service name used when none of the known names exists.
pub const DEFAULT_SERVICE_NAME: &'static str = "MySQL84";

/// A change of the service's state that the tray asks for.
#[derive(Clone, Copy, Debug, PartialEq, Eq, Structural)]
pub enum ServiceAction {
    Start,
    Stop,
    Restart,
}

/// The name of an action on the command line.
pub open spec fn action_name(action: ServiceAction) -> Seq<char> {
    match action {
        ServiceAction::Start => "start"@,
        ServiceAction::Stop => "stop"@,
        ServiceAction::Restart => "restart"@,
    }
}

/// An action name that is not one of `start`, `stop` and `restart`.
#[derive(Debug)]
pub enum ActionError {
    Unsupported(String),
}

/// The message for an action error.
pub open spec fn action_error_message(error: ActionError) -> Seq<char> {
    match error {
        ActionError::Unsupported(name) => "Unsupported service action: "@ + name@,
    }
}

impl ActionError {
    /// The message shown for this error.
    pub fn message(&self) -> (m: String)
        ensures
            m@ == action_error_message(*self),
    {
        match self {
            ActionError::Unsupported(name) => {
                let mut m = String::new();
                m.append("Unsupported service action: ");
                m.append(name.as_str());
                m
            },
        }
    }
}

impl ServiceAction {
    /// The name of this action on the command line.
    pub fn name(&self) -> (n: &'static str)
        ensures
            n@ == action_name(*self),
    {
        match self {
            ServiceAction::Start => "start",
            ServiceAction::Stop => "stop",
            ServiceAction::Restart => "restart",
        }
    }

    /// The action that `name` names; any other name is refused.
    pub fn from_name(name: &str) -> (r: Result<ServiceAction, ActionError>)
        ensures
            match r {
                Ok(action) => action_name(action) == name@,
                Err(ActionError::Unsupported(given)) => given@ == name@ && forall|a: ServiceAction|
                    action_name(a) != name@,
            },
    {
        let chars = chars_of(name);
        let n = chars.len();
        assert(chars@.subrange(0, n as int) =~= chars@);
        if range_equals(&chars, 0, n, "start") {
            Ok(ServiceAction::Start)
        } else if range_equals(&chars, 0, n, "stop") {
            Ok(ServiceAction::Stop)
        } else if range_equals(&chars, 0, n, "restart") {
            Ok(ServiceAction::Restart)
        } else {
            let given = string_from_range(&chars, 0, n);
            assert forall|a: ServiceAction| action_name(a) != name@ by {
                match a {
                    ServiceAction::Start => {},
                    ServiceAction::Stop => {},
                    ServiceAction::Restart => {},
                }
            }
            Err(ActionError::Unsupported(given))
        }
    }
}

/// Different actions have different names, so reading an action's name
/// gives back that action.
pub proof fn lemma_action_names_distinct(a: ServiceAction, b: ServiceAction)
    ensures
        action_name(a) == action_name(b) ==> a == b,
{
    reveal_strlit("start");
    reveal_strlit("stop");
    reveal_strlit("restart");
    if a != b {
        assert(action_name(a).len() != action_name(b).len() || action_name(a)[2]
            != action_name(b)[2]);
    }
}

/// One step of carrying out an action against the Service Control Manager.
#[derive(Clone, Copy, Debug, PartialEq, Eq, Structural)]
pub enum ServiceStep {
    /// Ask the service to stop.
    Stop,
    /// Ask the service to start.
    Start,
    /// Wait, up to the timeout, until the service reports this status.
    AwaitStatus(ServiceStatus),
}

/// Stopping is asked for unless the service is stopped or stopping.
pub open spec fn needs_stop(current: ServiceStatus) -> bool {
    !(current == ServiceStatus::Stopped || current == ServiceStatus::StopPending)
}

/// Starting is asked for unless the service is running or starting.
pub open spec fn needs_start(current: ServiceStatus) -> bool {
    !(current == ServiceStatus::Running || current == ServiceStatus::StartPending)
}

/// The steps that bring the service from `current` to what `action` asks.
/// A restart waits until the service is fully stopped, whether it stopped it
/// itself or found it stopping, before it starts it again.
pub open spec fn plan_spec(action: ServiceAction, current: ServiceStatus) -> Seq<ServiceStep> {
    match action {
        ServiceAction::Start => if needs_start(current) {
            seq![ServiceStep::Start, ServiceStep::AwaitStatus(ServiceStatus::Running)]
        } else {
            seq![]
        },
        ServiceAction::Stop => if needs_stop(current) {
            seq![ServiceStep::Stop, ServiceStep::AwaitStatus(ServiceStatus::Stopped)]
        } else {
            seq![]
        },
        ServiceAction::Restart => {
            let stopping = if current == ServiceStatus::Stopped {
                seq![]
            } else if current == ServiceStatus::StopPending {
                seq![ServiceStep::AwaitStatus(ServiceStatus::Stopped)]
            } else {
                seq![ServiceStep::Stop, ServiceStep::AwaitStatus(ServiceStatus::Stopped)]
            };
            stopping + seq![ServiceStep::Start, ServiceStep::AwaitStatus(ServiceStatus::Running)]
        },
    }
}

/// The steps that carry out `action` on a service whose status is `current`.
pub fn plan_service_action(action: ServiceAction, current: ServiceStatus) -> (steps: Vec<
    ServiceStep,
>)
    ensures
        steps@ == plan_spec(action, current),
{
    let mut steps: Vec<ServiceStep> = Vec::new();
    match action {
        ServiceAction::Start => {
            if !(current == ServiceStatus::Running || current == ServiceStatus::StartPending) {
                steps.push(ServiceStep::Start);
                steps.push(ServiceStep::AwaitStatus(ServiceStatus::Running));
            }
        },
        ServiceAction::Stop => {
            if !(current == ServiceStatus::Stopped || current == ServiceStatus::StopPending) {
                steps.push(ServiceStep::Stop);
                steps.push(ServiceStep::AwaitStatus(ServiceStatus::Stopped));
            }
        },
        ServiceAction::Restart => {
            if current == ServiceStatus::StopPending {
                steps.push(ServiceStep::AwaitStatus(ServiceStatus::Stopped));
            } else if current != ServiceStatus::Stopped {
                steps.push(ServiceStep::Stop);
                steps.push(ServiceStep::AwaitStatus(ServiceStatus::Stopped));
            }
            steps.push(ServiceStep::Start);
            steps.push(ServiceStep::AwaitStatus(ServiceStatus::Running));
        },
    }
    assert(steps@ =~= plan_spec(action, current));
    steps
}

/// The status an action leaves the service in.
pub open spec fn target_status(action: ServiceAction) -> ServiceStatus {
    match action {
        ServiceAction::Stop => ServiceStatus::Stopped,
        _ => ServiceStatus::Running,
    }
}

/// Every plan asks for a start or a stop only with a wait for its outcome
/// right after it; a plan that does anything ends by waiting for the status
/// the action asks for; and a restart starts the service only after it has
/// been seen stopped, unless it was stopped already.
pub proof fn lemma_plan_well_formed(action: ServiceAction, current: ServiceStatus)
    ensures
        forall|i: int|
            0 <= i < plan_spec(action, current).len() && #[trigger] plan_spec(action, current)[i]
                == ServiceStep::Start ==> i + 1 < plan_spec(action, current).len() && plan_spec(
                action,
                current,
            )[i + 1] == ServiceStep::AwaitStatus(ServiceStatus::Running),
        forall|i: int|
            0 <= i < plan_spec(action, current).len() && #[trigger] plan_spec(action, current)[i]
                == ServiceStep::Stop ==> i + 1 < plan_spec(action, current).len() && plan_spec(
                action,
                current,
            )[i + 1] == ServiceStep::AwaitStatus(ServiceStatus::Stopped),
        plan_spec(action, current).len() > 0 ==> plan_spec(action, current).last()
            == ServiceStep::AwaitStatus(target_status(action)),
        plan_spec(action, current).len() == 0 ==> (action == ServiceAction::Start && !needs_start(
            current,
        )) || (action == ServiceAction::Stop && !needs_stop(current)),
        action == ServiceAction::Restart ==> forall|i: int|
            0 <= i < plan_spec(action, current).len() && #[trigger] plan_spec(action, current)[i]
                == ServiceStep::Start ==> current == ServiceStatus::Stopped || exists|j: int|
                0 <= j < i && plan_spec(action, current)[j] == ServiceStep::AwaitStatus(
                    ServiceStatus::Stopped,
                ),
{
    let p = plan_spec(action, current);
    if action == ServiceAction::Restart {
        assert forall|i: int| 0 <= i < p.len() && #[trigger] p[i] == ServiceStep::Start implies
            current == ServiceStatus::Stopped || exists|j: int|
            0 <= j < i && p[j] == ServiceStep::AwaitStatus(ServiceStatus::Stopped) by {
            if current == ServiceStatus::StopPending {
                assert(p[0] == ServiceStep::AwaitStatus(ServiceStatus::Stopped));
            } else if current != ServiceStatus::Stopped {
                assert(p[1] == ServiceStep::AwaitStatus(ServiceStatus::Stopped));
            }
        }
    }
}

/// What each plan asks of the service: a plan starts the service exactly
/// for a restart, or for a start of a service that is neither running nor
/// starting; it stops the service exactly for a stop or a restart of a
/// service that is neither stopped nor stopping, and then the stop is its
/// first step; and it never starts before it stops.
pub proof fn lemma_plan_asks_what_the_action_needs(action: ServiceAction, current: ServiceStatus)
    ensures
        (exists|i: int|
            0 <= i < plan_spec(action, current).len() && #[trigger] plan_spec(action, current)[i]
                == ServiceStep::Start) <==> (action == ServiceAction::Restart || (action
            == ServiceAction::Start && needs_start(current))),
        (exists|i: int|
            0 <= i < plan_spec(action, current).len() && #[trigger] plan_spec(action, current)[i]
                == ServiceStep::Stop) <==> (action != ServiceAction::Start && needs_stop(current)),
        action != ServiceAction::Start && needs_stop(current) ==> plan_spec(action, current).len()
            > 0 && plan_spec(action, current)[0] == ServiceStep::Stop,
        forall|i: int, j: int|
            0 <= i < plan_spec(action, current).len() && 0 <= j < plan_spec(action, current).len()
                && #[trigger] plan_spec(action, current)[i] == ServiceStep::Stop
                && #[trigger] plan_spec(action, current)[j] == ServiceStep::Start ==> i < j,
{
    let p = plan_spec(action, current);
    match action {
        ServiceAction::Start => {
            if needs_start(current) {
                assert(p[0] == ServiceStep::Start);
            }
        },
        ServiceAction::Stop => {
            if needs_stop(current) {
                assert(p[0] == ServiceStep::Stop);
            }
        },
        ServiceAction::Restart => {
            if current == ServiceStatus::Stopped {
                assert(p[0] == ServiceStep::Start);
            } else if current == ServiceStatus::StopPending {
                assert(p[1] == ServiceStep::Start);
            } else {
                assert(p[0] == ServiceStep::Stop);
                assert(p[2] == ServiceStep::Start);
            }
        },
    }
}

/// What to do next while waiting for a status.
#[derive(Clone, Copy, Debug, PartialEq, Eq, Structural)]
pub enum WaitStep {
    /// Query the service's status.
    Query,
    /// Sleep this many milliseconds, then decide again.
    Sleep(u64),
    /// The service reports the awaited status.
    Reached,
    /// The time is up.
    TimedOut,
}

/// The next step of waiting for `expected`, `elapsed_ms` after the wait
/// began, given the status just queried (`None` before a query).
pub open spec fn wait_step_spec(
    expected: ServiceStatus,
    timeout_ms: u64,
    elapsed_ms: u64,
    observed: Option<ServiceStatus>,
) -> WaitStep {
    match observed {
        None => if elapsed_ms < timeout_ms {
            WaitStep::Query
        } else {
            WaitStep::TimedOut
        },
        Some(status) => if status == expected {
            WaitStep::Reached
        } else {
            WaitStep::Sleep(POLL_INTERVAL_MS)
        },
    }
}

/// Decides the next step of waiting for `expected`: query while time is
/// left, stop once the awaited status is seen, otherwise pause and retry.
pub fn wait_step(
    expected: ServiceStatus,
    timeout_ms: u64,
    elapsed_ms: u64,
    observed: Option<ServiceStatus>,
) -> (step: WaitStep)
    ensures
        step == wait_step_spec(expected, timeout_ms, elapsed_ms, observed),
{
    match observed {
        None => if elapsed_ms < timeout_ms {
            WaitStep::Query
        } else {
            WaitStep::TimedOut
        },
        Some(status) => if status == expected {
            WaitStep::Reached
        } else {
            WaitStep::Sleep(POLL_INTERVAL_MS)
        },
    }
}

/// What one status query of the waiting loop answered.
#[derive(Clone, Copy, Debug, PartialEq, Eq, Structural)]
pub enum QueryReply {
    /// The service reported this status.
    Status(ServiceStatus),
    /// The query failed.
    Failed,
}

/// How the waiting loop ended.
#[derive(Clone, Copy, Debug, PartialEq, Eq, Structural)]
pub enum WaitEnd {
    /// The awaited status was seen.
    Reached,
    /// A query failed; its error is the loop's result.
    QueryFailed,
    /// The time ran out.
    TimedOut,
    /// The given clock readings or replies ran out first.
    Unfinished,
}

/// The waiting loop that `wait_step` drives: round `k` starts with the
/// clock reading `clock[k]` (milliseconds since the wait began) and, if it
/// queries, gets `replies[k]`; after a status that is not the awaited one it
/// sleeps and starts the next round. The result is how the loop ends and how
/// many queries it made.
pub open spec fn wait_loop(
    expected: ServiceStatus,
    timeout_ms: u64,
    clock: Seq<u64>,
    replies: Seq<QueryReply>,
) -> (WaitEnd, nat)
    decreases clock.len(),
{
    if clock.len() == 0 || replies.len() == 0 {
        (WaitEnd::Unfinished, 0)
    } else {
        match wait_step_spec(expected, timeout_ms, clock[0], None) {
            WaitStep::Query => match replies[0] {
                QueryReply::Failed => (WaitEnd::QueryFailed, 1),
                QueryReply::Status(status) => match wait_step_spec(
                    expected,
                    timeout_ms,
                    clock[0],
                    Some(status),
                ) {
                    WaitStep::Reached => (WaitEnd::Reached, 1),
                    _ => {
                        let rest = wait_loop(
                            expected,
                            timeout_ms,
                            clock.drop_first(),
                            replies.drop_first(),
                        );
                        (rest.0, rest.1 + 1)
                    },
                },
            },
            _ => (WaitEnd::TimedOut, 0),
        }
    }
}

/// The first `n` rounds each started before the timeout and saw the service
/// in another status than the awaited one.
pub open spec fn polled_in_vain(
    expected: ServiceStatus,
    timeout_ms: u64,
    clock: Seq<u64>,
    replies: Seq<QueryReply>,
    n: int,
) -> bool {
    &&& 0 <= n <= clock.len()
    &&& n <= replies.len()
    &&& forall|j: int|
        0 <= j < n ==> clock[j] < timeout_ms && #[trigger] replies[j] is Status && replies[j]->0
            != expected
}

/// The waiting loop reaches the awaited status exactly when a query made
/// before the timeout reports it after queries that reported other statuses;
/// it returns the first failed query's error if one comes first; it times
/// out when a round starts at or after the timeout, with one query per
/// earlier round, so with a timeout of 0 it makes no query at all; and
/// between two queries it sleeps `POLL_INTERVAL_MS`.
pub proof fn lemma_wait_loop(
    expected: ServiceStatus,
    timeout_ms: u64,
    clock: Seq<u64>,
    replies: Seq<QueryReply>,
)
    ensures
        ({
            let (end, n) = wait_loop(expected, timeout_ms, clock, replies);
            match end {
                WaitEnd::Reached => n >= 1 && polled_in_vain(
                    expected,
                    timeout_ms,
                    clock,
                    replies,
                    n - 1,
                ) && n <= clock.len() && n <= replies.len() && clock[n - 1] < timeout_ms
                    && replies[n - 1] == QueryReply::Status(expected),
                WaitEnd::QueryFailed => n >= 1 && polled_in_vain(
                    expected,
                    timeout_ms,
                    clock,
                    replies,
                    n - 1,
                ) && n <= clock.len() && n <= replies.len() && clock[n - 1] < timeout_ms
                    && replies[n - 1] == QueryReply::Failed,
                WaitEnd::TimedOut => polled_in_vain(expected, timeout_ms, clock, replies, n as int)
                    && n < clock.len() && n < replies.len() && clock[n as int] >= timeout_ms,
                WaitEnd::Unfinished => polled_in_vain(
                    expected,
                    timeout_ms,
                    clock,
                    replies,
                    n as int,
                ) && (n == clock.len() || n == replies.len()),
            }
        }),
        timeout_ms == 0 && clock.len() > 0 && replies.len() > 0 ==> wait_loop(
            expected,
            timeout_ms,
            clock,
            replies,
        ) == (WaitEnd::TimedOut, 0nat),
        forall|status: ServiceStatus, elapsed_ms: u64|
            status != expected ==> wait_step_spec(expected, timeout_ms, elapsed_ms, Some(status))
                == WaitStep::Sleep(POLL_INTERVAL_MS),
    decreases clock.len(),
{
    if clock.len() > 0 && replies.len() > 0 && clock[0] < timeout_ms {
        if let QueryReply::Status(status) = replies[0] {
            if status != expected {
                let c = clock.drop_first();
                let r = replies.drop_first();
                lemma_wait_loop(expected, timeout_ms, c, r);
                let res = wait_loop(expected, timeout_ms, c, r);
                let end = res.0;
                let m = res.1;
                assert(wait_loop(expected, timeout_ms, clock, replies) == (end, m + 1));
                match end {
                    WaitEnd::Reached => {
                        assert(m >= 1);
                        assert(clock[m as int] == c[m - 1]);
                        assert(replies[m as int] == r[m - 1]);
                        assert forall|j: int| 0 <= j < m implies clock[j] < timeout_ms
                            && #[trigger] replies[j] is Status && replies[j]->0 != expected by {
                            if j > 0 {
                                assert(clock[j] == c[j - 1]);
                                assert(replies[j] == r[j - 1]);
                            }
                        }
                    },
                    WaitEnd::QueryFailed => {
                        assert(m >= 1);
                        assert(clock[m as int] == c[m - 1]);
                        assert(replies[m as int] == r[m - 1]);
                        assert forall|j: int| 0 <= j < m implies clock[j] < timeout_ms
                            && #[trigger] replies[j] is Status && replies[j]->0 != expected by {
                            if j > 0 {
                                assert(clock[j] == c[j - 1]);
                                assert(replies[j] == r[j - 1]);
                            }
                        }
                    },
                    _ => {
                        if m < c.len() {
                            assert(clock[m + 1int] == c[m as int]);
                        }
                        assert forall|j: int| 0 <= j < m + 1 implies clock[j] < timeout_ms
                            && #[trigger] replies[j] is Status && replies[j]->0 != expected by {
                            if j > 0 {
                                assert(clock[j] == c[j - 1]);
                                assert(replies[j] == r[j - 1]);
                            }
                        }
                    },
                }
            }
        }
    }
}

/// After rounds that polled in vain, the next round decides the loop: it
/// times out if it starts at or after the timeout, and otherwise ends the
/// loop with success when its query reports the awaited status, or with
/// the query's error when the query fails.
pub proof fn lemma_wait_loop_decided(
    expected: ServiceStatus,
    timeout_ms: u64,
    clock: Seq<u64>,
    replies: Seq<QueryReply>,
    q: int,
)
    requires
        polled_in_vain(expected, timeout_ms, clock, replies, q),
        q < clock.len(),
        q < replies.len(),
    ensures
        clock[q] >= timeout_ms ==> wait_loop(expected, timeout_ms, clock, replies) == (
        WaitEnd::TimedOut, q as nat),
        clock[q] < timeout_ms && replies[q] == QueryReply::Status(expected) ==> wait_loop(
            expected,
            timeout_ms,
            clock,
            replies,
        ) == (WaitEnd::Reached, (q + 1) as nat),
        clock[q] < timeout_ms && replies[q] == QueryReply::Failed ==> wait_loop(
            expected,
            timeout_ms,
            clock,
            replies,
        ) == (WaitEnd::QueryFailed, (q + 1) as nat),
    decreases q,
{
    if q > 0 {
        let c = clock.drop_first();
        let r = replies.drop_first();
        assert(replies[0] is Status);
        assert(polled_in_vain(expected, timeout_ms, c, r, q - 1)) by {
            assert forall|j: int| 0 <= j < q - 1 implies c[j] < timeout_ms
                && #[trigger] r[j] is Status && r[j]->0 != expected by {
                assert(c[j] == clock[j + 1]);
                assert(r[j] == replies[j + 1]);
                assert(replies[j + 1] is Status);
            }
        }
        lemma_wait_loop_decided(expected, timeout_ms, c, r, q - 1);
        assert(c[q - 1] == clock[q]);
        assert(r[q - 1] == replies[q]);
    }
}

/// The name of a status as it appears in messages.
pub open spec fn status_name(status: ServiceStatus) -> Seq<char> {
    match status {
        ServiceStatus::Stopped => "Stopped"@,
        ServiceStatus::StartPending => "StartPending"@,
        ServiceStatus::StopPending => "StopPending"@,
        ServiceStatus::Running => "Running"@,
        ServiceStatus::ContinuePending => "ContinuePending"@,
        ServiceStatus::PausePending => "PausePending"@,
        ServiceStatus::Paused => "Paused"@,
    }
}

/// The message for a wait that ran out of time.
pub fn timeout_message(expected: ServiceStatus) -> (m: String)
    ensures
        m@ == "Timed out waiting for service state "@ + status_name(expected),
{
    let name = match expected {
        ServiceStatus::Stopped => "Stopped",
        ServiceStatus::StartPending => "StartPending",
        ServiceStatus::StopPending => "StopPending",
        ServiceStatus::Running => "Running",
        ServiceStatus::ContinuePending => "ContinuePending",
        ServiceStatus::PausePending => "PausePending",
        ServiceStatus::Paused => "Paused",
    };
    let mut m = String::new();
    m.append("Timed out waiting for service state ");
    m.append(name);
    m
}

/// A service name that cannot be quoted on the elevated command line.
#[derive(Debug, PartialEq, Eq, Structural)]
pub enum LaunchError {
    QuoteInServiceName,
}

impl LaunchError {
    /// The message shown for this error.
    pub fn message(&self) -> (m: &'static str)
        ensures
            m@ == "The service name contains an invalid quote character"@,
    {
        "The service name contains an invalid quote character"
    }
}

/// The parameters of the elevated copy of the app that carries out `action`
/// on the service `service_name`.
pub open spec fn elevated_parameters_spec(action: ServiceAction, service_name: Seq<char>) -> Seq<
    char,
> {
    "--elevated-action "@ + action_name(action) + " --service \""@ + service_name + "\""@
}

/// The command-line parameters for an elevated copy of the app that carries
/// out `action`; a service name holding a double quote is refused, since it
/// could not be quoted.
pub fn elevated_parameters(action: ServiceAction, service_name: &str) -> (r: Result<
    String,
    LaunchError,
>)
    ensures
        match r {
            Ok(parameters) => !service_name@.contains('"') && parameters@
                == elevated_parameters_spec(action, service_name@),
            Err(error) => service_name@.contains('"') && error == LaunchError::QuoteInServiceName,
        },
{
    let chars = chars_of(service_name);
    match find_char(&chars, 0, chars.len(), '"') {
        Some(k) => {
            assert(chars@.subrange(0, chars@.len() as int)[k as int] == chars@[k as int]);
            assert(service_name@[k as int] == '"');
            Err(LaunchError::QuoteInServiceName)
        },
        None => {
            let mut parameters = String::new();
            parameters.append("--elevated-action ");
            parameters.append(action.name());
            parameters.append(" --service \"");
            parameters.append(service_name);
            parameters.append("\"");
            assert(parameters@ =~= elevated_parameters_spec(action, service_name@));
            Ok(parameters)
        },
    }
}

/// Whether `ShellExecuteW` succeeded: it reports success with a value
/// greater than 32.
pub fn shell_launch_succeeded(code: isize) -> (ok: bool)
    ensures
        ok == (code > 32),
{
    code > 32
}

/// The command that the Windows startup registry entry runs.
pub fn autostart_command(executable: &str) -> (command: String)
    ensures
        command@ == "\""@ + executable@ + "\" --startup"@,
{
    let mut command = String::new();
    command.append("\"");
    command.append(executable);
    command.append("\" --startup");
    command
}

/// `i` is the first position of `key` in `args`.
pub open spec fn key_at(args: Seq<String>, key: Seq<char>, i: int) -> bool {
    &&& 0 <= i < args.len()
    &&& args[i]@ == key
    &&& forall|j: int| 0 <= j < i ==> args[j]@ != key
}

/// The argument that follows the first occurrence of `key`, if there is one.
pub open spec fn argument_value_spec(args: Seq<String>, key: Seq<char>) -> Option<Seq<char>> {
    if exists|i: int| key_at(args, key, i) {
        let i = choose|i: int| key_at(args, key, i);
        if i + 1 < args.len() {
            Some(args[i + 1]@)
        } else {
            None
        }
    } else {
        None
    }
}

/// The argument that follows the first occurrence of `key` in `args`.
pub fn argument_value(args: &[String], key: &str) -> (value: Option<String>)
    ensures
        match value {
            Some(v) => argument_value_spec(args@, key@) == Some(v@),
            None => argument_value_spec(args@, key@) is None,
        },
{
    let key_string = String::from_str(key);
    let mut i: usize = 0;
    while i < args.len()
        invariant
            i <= args.len(),
            key_string@ == key@,
            forall|j: int| 0 <= j < i ==> args@[j]@ != key@,
        decreases args.len() - i,
    {
        if args[i] == key_string {
            assert(key_at(args@, key@, i as int));
            let ghost chosen = choose|k: int| key_at(args@, key@, k);
            assert(chosen == i) by {
                assert(key_at(args@, key@, chosen));
                if chosen < i {
                    assert(args@[chosen]@ != key@);
                } else if chosen > i {
                    assert(args@[i as int]@ != key@);
                }
            }
            if i + 1 < args.len() {
                return Some(args[i + 1].clone());
            } else {
                return None;
            }
        }
        i = i + 1;
    }
    assert forall|k: int| !key_at(args@, key@, k) by {
        if 0 <= k < args.len() {
            assert(args@[k]@ != key@);
        }
    }
    None
}

/// The elevated copy of the app finds the action and the service it was
/// started for: when its arguments are its own path followed by the
/// `--elevated-action` and `--service` pairs, looking the two keys up gives
/// back the action's name and the service's name.
pub proof fn lemma_elevated_arguments_read_back(
    args: Seq<String>,
    action: ServiceAction,
    service_name: Seq<char>,
)
    requires
        args.len() == 5,
        args[0]@ != "--elevated-action"@,
        args[0]@ != "--service"@,
        args[1]@ == "--elevated-action"@,
        args[2]@ == action_name(action),
        args[3]@ == "--service"@,
        args[4]@ == service_name,
    ensures
        argument_value_spec(args, "--elevated-action"@) == Some(action_name(action)),
        argument_value_spec(args, "--service"@) == Some(service_name),
{
    reveal_strlit("--elevated-action");
    reveal_strlit("--service");
    reveal_strlit("start");
    reveal_strlit("stop");
    reveal_strlit("restart");
    assert("--elevated-action"@.len() != "--service"@.len());
    assert("--elevated-action"@ != "--service"@);
    assert(action_name(action) != "--service"@) by {
        assert(action_name(action)[0] != '-');
    }
    assert(key_at(args, "--elevated-action"@, 1));
    let i = choose|i: int| key_at(args, "--elevated-action"@, i);
    assert(i == 1) by {
        if i > 1 {
            assert(args[1]@ != "--elevated-action"@);
        }
    }
    assert(key_at(args, "--service"@, 3));
    let j = choose|j: int| key_at(args, "--service"@, j);
    assert(j == 3) by {
        if j > 3 {
            assert(args[3]@ != "--service"@);
        }
    }
}

/// The parameters for the elevated copy name the service as given, and
/// the action by the one word that `from_name` reads back as exactly that
/// action.
pub proof fn lemma_elevated_parameters_carry_the_action(
    action: ServiceAction,
    service_name: Seq<char>,
)
    ensures
        exists|word: Seq<char>|
            elevated_parameters_spec(action, service_name) == "--elevated-action "@ + word
                + " --service \""@ + service_name + "\""@ && (forall|b: ServiceAction|
                action_name(b) == word <==> b == action),
{
    let word = action_name(action);
    assert forall|b: ServiceAction| action_name(b) == word <==> b == action by {
        lemma_action_names_distinct(b, action);
    }
    assert(elevated_parameters_spec(action, service_name) == "--elevated-action "@ + word
        + " --service \""@ + service_name + "\""@);
}

/// The service names tried, in order, when no service is configured.
pub open spec fn service_candidate(i: int) -> &'static str {
    if i == 0 {
        "MySQL84"
    } else if i == 1 {
        "MySQL80"
    } else if i == 2 {
        "MySQL"
    } else if i == 3 {
        "MariaDB"
    } else if i == 4 {
        "mariadb"
    } else if i == 5 {
        "wampmysqld64"
    } else {
        "wampmariadb64"
    }
}

/// How many service names are tried.
pub const SERVICE_CANDIDATE_COUNT: usize = 7;

/// The `i`-th name tried when no service is configured.
pub fn candidate_name(i: usize) -> (name: &'static str)
    requires
        i < SERVICE_CANDIDATE_COUNT,
    ensures
        name == service_candidate(i as int),
{
    if i == 0 {
        "MySQL84"
    } else if i == 1 {
        "MySQL80"
    } else if i == 2 {
        "MySQL"
    } else if i == 3 {
        "MariaDB"
    } else if i == 4 {
        "mariadb"
    } else if i == 5 {
        "wampmysqld64"
    } else {
        "wampmariadb64"
    }
}

/// Picks the service to watch: the first known name for which
/// `service_exists` answers yes, tried in order and no further, or
/// `MySQL84` when none exists.
pub fn detect_service_name<F: Fn(&str) -> bool>(service_exists: F) -> (name: String)
    requires
        forall|i: int|
            0 <= i < SERVICE_CANDIDATE_COUNT ==> call_requires(
                service_exists,
                (service_candidate(i),),
            ),
    ensures
        (exists|i: int|
            0 <= i < SERVICE_CANDIDATE_COUNT && name@ == service_candidate(i)@ && call_ensures(
                service_exists,
                (service_candidate(i),),
                true,
            ) && forall|j: int|
                0 <= j < i ==> call_ensures(service_exists, (service_candidate(j),), false)) || (
        name@ == DEFAULT_SERVICE_NAME@ && forall|j: int|
            0 <= j < SERVICE_CANDIDATE_COUNT ==> call_ensures(
                service_exists,
                (service_candidate(j),),
                false,
            )),
{
    let mut i: usize = 0;
    while i < SERVICE_CANDIDATE_COUNT
        invariant
            i <= SERVICE_CANDIDATE_COUNT,
            forall|k: int|
                0 <= k < SERVICE_CANDIDATE_COUNT ==> call_requires(
                    service_exists,
                    (service_candidate(k),),
                ),
            forall|j: int|
                0 <= j < i ==> call_ensures(service_exists, (service_candidate(j),), false),
        decreases SERVICE_CANDIDATE_COUNT - i,
    {
        let candidate = candidate_name(i);
        let found = service_exists(candidate);
        if found {
            let name = String::from_str(candidate);
            assert(0 <= i < SERVICE_CANDIDATE_COUNT && name@ == service_candidate(i as int)@);
            return name;
        }
        i = i + 1;
    }
    String::from_str(DEFAULT_SERVICE_NAME)
}

} // verus!
