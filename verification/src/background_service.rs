//! Keeps the LAN Controller listener reachable while the desktop app is closed: the command
//! line, the LaunchAgent that starts the service at login, and the supervisor's decisions. The
//! desktop app and the service never serve the route together: a starting app asks the service
//! to yield before starting its own listener. Sockets, files, processes and the clock are the
//! caller's.
use vstd::prelude::*;

use crate::paths::{join, joined};
use crate::text::{chars_equal, chars_of, decimal_text, push_decimal, push_str, string_of};

verus! {

pub const SERVICE_COMMAND: &'static str = "controller-service";
/// The LaunchAgent label, derived from the app bundle identifier.
pub const LAUNCH_AGENT_LABEL: &'static str = "com.millionrust.multiplex.controller-service";
pub const YIELD_SOCKET: &'static str = "controller-service.sock";

/// A failure the service reports by a stable code.
#[derive(Clone, Copy, Debug, PartialEq, Eq)]
pub struct ServiceError(pub &'static str);

impl ServiceError {
    /// The failure's stable code.
    pub fn code(self) -> (r: &'static str)
        ensures
            r == self.0,
    {
        self.0
    }
}

#[derive(Clone, Copy, Debug, PartialEq, Eq, Structural)]
pub enum ServiceStatus {
    NotInstalled,
    Installed,
    Running,
    Unsupported,
}

/// What `status` prints for a state.
pub open spec fn status_text(state: ServiceStatus) -> Seq<char> {
    match state {
        ServiceStatus::NotInstalled => "not installed"@,
        ServiceStatus::Installed => "installed, not running"@,
        ServiceStatus::Running => "running"@,
        ServiceStatus::Unsupported => "unsupported on this platform"@,
    }
}

/// What `status` prints for a state.
pub fn status_line(state: ServiceStatus) -> (r: &'static str)
    ensures
        r@ == status_text(state),
{
    match state {
        ServiceStatus::NotInstalled => "not installed",
        ServiceStatus::Installed => "installed, not running",
        ServiceStatus::Running => "running",
        ServiceStatus::Unsupported => "unsupported on this platform",
    }
}

/// Where the desktop app and the service meet to hand over the route.
pub fn yield_socket_path(runtime_parent: &str) -> (r: String)
    ensures
        r@ == join(runtime_parent@, YIELD_SOCKET@),
{
    string_of(joined(chars_of(runtime_parent).as_slice(), YIELD_SOCKET).as_slice())
}

/// What a starting app sends to ask for the route: `yield` and a line feed.
pub open spec fn yield_request() -> Seq<u8> {
    seq![121u8, 105u8, 101u8, 108u8, 100u8, 10u8]
}

/// What the service answers once it has let the route go: `released` and a line feed.
pub open spec fn yield_ack() -> Seq<u8> {
    seq![114u8, 101u8, 108u8, 101u8, 97u8, 115u8, 101u8, 100u8, 10u8]
}

/// The request's bytes, to send.
pub fn yield_request_bytes() -> (r: Vec<u8>)
    ensures
        r@ == yield_request(),
{
    let r: Vec<u8> = vec![121u8, 105u8, 101u8, 108u8, 100u8, 10u8];
    assert(r@ =~= yield_request());
    r
}

/// The answer's bytes, to send.
pub fn yield_ack_bytes() -> (r: Vec<u8>)
    ensures
        r@ == yield_ack(),
{
    let r: Vec<u8> = vec![114u8, 101u8, 108u8, 101u8, 97u8, 115u8, 101u8, 100u8, 10u8];
    assert(r@ =~= yield_ack());
    r
}

/// Whether `received` is exactly `expected`.
fn same_bytes(received: &[u8], expected: &[u8]) -> (r: bool)
    ensures
        r == (received@ == expected@),
{
    if received.len() != expected.len() {
        return false;
    }
    let mut i: usize = 0;
    while i < received.len()
        invariant
            received@.len() == expected@.len(),
            i <= received@.len(),
            forall|k: int| 0 <= k < i ==> received@[k] == expected@[k],
        decreases received@.len() - i,
    {
        if received[i] != expected[i] {
            return false;
        }
        i = i + 1;
    }
    assert(received@ =~= expected@);
    true
}

/// Whether the bytes a service read are a request for the route.
pub fn is_yield_request(received: &[u8]) -> (r: bool)
    ensures
        r == (received@ == yield_request()),
{
    let expected = yield_request_bytes();
    same_bytes(received, expected.as_slice())
}

/// Whether the service's answer says it let the route go.
pub fn is_yield_ack(reply: &[u8]) -> (r: bool)
    ensures
        r == (reply@ == yield_ack()),
{
    let expected = yield_ack_bytes();
    same_bytes(reply, expected.as_slice())
}

/// Asking a service to yield where there is no background service: nobody answers.
pub fn request_yield(runtime_parent: &str) -> (r: bool)
    ensures
        !r,
{
    false
}

/// A serving listener, as the supervisor sees it.
pub trait ServingListener {
    fn is_finished(&self) -> bool;

    /// Stops serving and returns once the route is released.
    fn stop(self);
}

/// The LaunchAgent as `launchctl` names it in the user's GUI domain: `gui/<uid>/<label>`.
pub fn launchctl_service_target(uid: u32) -> (r: String)
    ensures
        r@ == "gui/"@ + decimal_text(uid as nat) + "/"@ + LAUNCH_AGENT_LABEL@,
{
    let mut out: Vec<char> = Vec::new();
    push_str(&mut out, "gui/");
    push_decimal(&mut out, uid as u64);
    push_str(&mut out, "/");
    push_str(&mut out, LAUNCH_AGENT_LABEL);
    string_of(out.as_slice())
}

/// What `status` adds on macOS when the service may not record the screen yet. macOS records a
/// Screen Recording grant against whichever process asked, and the LaunchAgent has no
/// responsible parent, so the app's own grant does not cover it.
pub open spec fn screen_capture_text() -> Seq<char> {
    "Screens are not shared yet: macOS has not granted this service Screen Recording. Open System Settings > Privacy & Security > Screen & System Audio Recording and allow "@
        + LAUNCH_AGENT_LABEL@
        + ". Granting it to Multiplex itself does not cover the service, because macOS records the grant against whichever process asked."@
}

/// The screen-recording line `status` prints: only on macOS, and only while the grant is missing.
pub fn screen_capture_line(macos: bool, allowed: bool) -> (r: Option<String>)
    ensures
        (macos && !allowed) ==> (r matches Some(line) && line@ == screen_capture_text()),
        !(macos && !allowed) ==> r is None,
{
    if !macos || allowed {
        return None;
    }
    let mut out: Vec<char> = Vec::new();
    push_str(&mut out, "Screens are not shared yet: macOS has not granted this service Screen Recording. Open System Settings > Privacy & Security > Screen & System Audio Recording and allow ");
    push_str(&mut out, LAUNCH_AGENT_LABEL);
    push_str(&mut out, ". Granting it to Multiplex itself does not cover the service, because macOS records the grant against whichever process asked.");
    Some(string_of(out.as_slice()))
}

/// What `controller-service` was asked to do.
#[derive(Clone, Copy, Debug, PartialEq, Eq, Structural)]
pub enum ServiceCommand {
    Run,
    Install,
    Remove,
    Status,
}

/// `run`, `install`, `remove` or `status`, alone; anything else is a usage error.
pub open spec fn command_spec(arguments: Seq<Seq<char>>) -> Result<ServiceCommand, ServiceError> {
    if arguments.len() != 1 {
        Err(ServiceError("service.usage"))
    } else if arguments[0] == "run"@ {
        Ok(ServiceCommand::Run)
    } else if arguments[0] == "install"@ {
        Ok(ServiceCommand::Install)
    } else if arguments[0] == "remove"@ {
        Ok(ServiceCommand::Remove)
    } else if arguments[0] == "status"@ {
        Ok(ServiceCommand::Status)
    } else {
        Err(ServiceError("service.usage"))
    }
}

fn is_word(word: &String, expected: &str) -> (r: bool)
    ensures
        r == (word@ == expected@),
{
    chars_equal(chars_of(word.as_str()).as_slice(), chars_of(expected).as_slice())
}

/// The command the words after `controller-service` ask for.
pub fn service_command(arguments: &Vec<String>) -> (r: Result<ServiceCommand, ServiceError>)
    ensures
        r == command_spec(arguments@.map_values(|a: String| a@)),
{
    let ghost av = arguments@.map_values(|a: String| a@);
    if arguments.len() != 1 {
        return Err(ServiceError("service.usage"));
    }
    let word = &arguments[0];
    assert(av[0] == word@);
    if is_word(word, "run") {
        Ok(ServiceCommand::Run)
    } else if is_word(word, "install") {
        Ok(ServiceCommand::Install)
    } else if is_word(word, "remove") {
        Ok(ServiceCommand::Remove)
    } else if is_word(word, "status") {
        Ok(ServiceCommand::Status)
    } else {
        Err(ServiceError("service.usage"))
    }
}

/// The service's state where there is no background service to run.
pub fn status() -> (r: ServiceStatus)
    ensures
        r == ServiceStatus::Unsupported,
{
    ServiceStatus::Unsupported
}

/// Installing, where there is no background service to install.
pub fn install() -> (r: Result<(), ServiceError>)
    ensures
        r == Err::<(), ServiceError>(ServiceError("service.unsupported")),
{
    Err(ServiceError("service.unsupported"))
}

/// Running the service in the foreground, where there is no background service to run.
pub fn run_foreground() -> (r: Result<(), ServiceError>)
    ensures
        r == Err::<(), ServiceError>(ServiceError("service.unsupported")),
{
    Err(ServiceError("service.unsupported"))
}

/// Removing, where there is no background service to remove.
pub fn remove() -> (r: Result<(), ServiceError>)
    ensures
        r == Err::<(), ServiceError>(ServiceError("service.unsupported")),
{
    Err(ServiceError("service.unsupported"))
}

// ---------------------------------------------------------------------------------------------
// The LaunchAgent.

/// `value` with the five XML special characters written as entities.
pub open spec fn xml_escaped(value: Seq<char>) -> Seq<char>
    decreases value.len(),
{
    if value.len() == 0 {
        Seq::empty()
    } else {
        let c = value.last();
        xml_escaped(value.drop_last()) + if c == '&' {
            "&amp;"@
        } else if c == '<' {
            "&lt;"@
        } else if c == '>' {
            "&gt;"@
        } else if c == '"' {
            "&quot;"@
        } else if c == '\'' {
            "&apos;"@
        } else {
            seq![c]
        }
    }
}

fn xml_escape(out: &mut Vec<char>, value: &str)
    ensures
        final(out)@ == old(out)@ + xml_escaped(value@),
{
    let chars = chars_of(value);
    let mut i: usize = 0;
    while i < chars.len()
        invariant
            i <= chars@.len(),
            chars@ == value@,
            out@ == old(out)@ + xml_escaped(chars@.take(i as int)),
        decreases chars@.len() - i,
    {
        let ghost before = out@;
        let c = chars[i];
        if c == '&' {
            push_str(out, "&amp;");
        } else if c == '<' {
            push_str(out, "&lt;");
        } else if c == '>' {
            push_str(out, "&gt;");
        } else if c == '"' {
            push_str(out, "&quot;");
        } else if c == '\'' {
            push_str(out, "&apos;");
        } else {
            out.push(c);
        }
        proof {
            let t = chars@.take(i + 1);
            assert(t.drop_last() =~= chars@.take(i as int));
            assert(t.last() == c);
            assert(out@ =~= old(out)@ + xml_escaped(t));
        }
        i = i + 1;
    }
    assert(chars@.take(chars@.len() as int) =~= chars@);
}

/// A user LaunchAgent that starts the service at login and restarts it if it exits, running
/// `executable controller-service run` and logging to `log`.
pub open spec fn plist_text(executable: Seq<char>, log: Seq<char>) -> Seq<char> {
    "<?xml version=\"1.0\" encoding=\"UTF-8\"?>\n<!DOCTYPE plist PUBLIC \"-//Apple//DTD PLIST 1.0//EN\" \"http://www.apple.com/DTDs/PropertyList-1.0.dtd\">\n<plist version=\"1.0\">\n<dict>\n\t<key>Label</key>\n\t<string>"@
        + xml_escaped(LAUNCH_AGENT_LABEL@)
        + "</string>\n\t<key>ProgramArguments</key>\n\t<array>\n\t\t<string>"@
        + xml_escaped(executable)
        + "</string>\n\t\t<string>controller-service</string>\n\t\t<string>run</string>\n\t</array>\n\t<key>RunAtLoad</key>\n\t<true/>\n\t<key>KeepAlive</key>\n\t<true/>\n\t<key>ProcessType</key>\n\t<string>Background</string>\n\t<key>ThrottleInterval</key>\n\t<integer>10</integer>\n\t<key>StandardOutPath</key>\n\t<string>"@
        + xml_escaped(log)
        + "</string>\n\t<key>StandardErrorPath</key>\n\t<string>"@
        + xml_escaped(log)
        + "</string>\n</dict>\n</plist>\n"@
}

/// The LaunchAgent's property list.
pub fn launch_agent_plist(executable: &str, log: &str) -> (r: String)
    ensures
        r@ == plist_text(executable@, log@),
{
    let mut out: Vec<char> = Vec::new();
    push_str(&mut out, "<?xml version=\"1.0\" encoding=\"UTF-8\"?>\n<!DOCTYPE plist PUBLIC \"-//Apple//DTD PLIST 1.0//EN\" \"http://www.apple.com/DTDs/PropertyList-1.0.dtd\">\n<plist version=\"1.0\">\n<dict>\n\t<key>Label</key>\n\t<string>");
    xml_escape(&mut out, LAUNCH_AGENT_LABEL);
    push_str(&mut out, "</string>\n\t<key>ProgramArguments</key>\n\t<array>\n\t\t<string>");
    xml_escape(&mut out, executable);
    push_str(&mut out, "</string>\n\t\t<string>controller-service</string>\n\t\t<string>run</string>\n\t</array>\n\t<key>RunAtLoad</key>\n\t<true/>\n\t<key>KeepAlive</key>\n\t<true/>\n\t<key>ProcessType</key>\n\t<string>Background</string>\n\t<key>ThrottleInterval</key>\n\t<integer>10</integer>\n\t<key>StandardOutPath</key>\n\t<string>");
    xml_escape(&mut out, log);
    push_str(&mut out, "</string>\n\t<key>StandardErrorPath</key>\n\t<string>");
    xml_escape(&mut out, log);
    push_str(&mut out, "</string>\n</dict>\n</plist>\n");
    string_of(out.as_slice())
}

// ---------------------------------------------------------------------------------------------
// The supervisor.

/// What the supervisor does on one turn.
#[derive(Clone, Copy, Debug, PartialEq, Eq, Structural)]
pub enum SupervisorStep {
    /// A starting app asked for the route: stop the listener if one serves, acknowledge, wait
    /// for the app to take the route, and try again at once afterwards.
    Yield { stop_listener: bool },
    /// The listener ended on its own: stop it and try again after the retry interval.
    Retire,
    /// Nothing serves and a try is due: take the route if it is free and start a listener.
    Attempt,
    /// Keep going as things are.
    Wait,
}

/// The turn's step, given whether a listener serves, whether it has finished, whether a
/// starting app asked for the route, and whether a try is due.
pub open spec fn step_spec(serving: bool, finished: bool, requested: bool, due: bool) -> SupervisorStep {
    if requested {
        SupervisorStep::Yield { stop_listener: serving }
    } else if serving && finished {
        SupervisorStep::Retire
    } else if !serving && due {
        SupervisorStep::Attempt
    } else {
        SupervisorStep::Wait
    }
}

/// The supervisor's step for this turn.
pub fn next_step(serving: bool, finished: bool, requested: bool, due: bool) -> (r: SupervisorStep)
    ensures
        r == step_spec(serving, finished, requested, due),
{
    if requested {
        SupervisorStep::Yield { stop_listener: serving }
    } else if serving && finished {
        SupervisorStep::Retire
    } else if !serving && due {
        SupervisorStep::Attempt
    } else {
        SupervisorStep::Wait
    }
}

/// After an attempt: whether a listener now serves, and whether to wait the retry interval
/// before the next try. A route another process holds, or a start that found nothing to serve,
/// is tried again later.
pub fn after_attempt(route_free: bool, started: bool) -> (r: (bool, bool))
    ensures
        r.0 == (route_free && started),
        r.1 == !(route_free && started),
{
    if route_free && started {
        (true, false)
    } else {
        (false, true)
    }
}

/// The service never serves while a starting app holds the route: whenever an app asks, the
/// step is to yield, and it stops the listener exactly when one serves.
pub proof fn a_request_always_yields(serving: bool, finished: bool, due: bool)
    ensures
        step_spec(serving, finished, true, due) == (SupervisorStep::Yield { stop_listener: serving }),
        !serving ==> step_spec(serving, finished, false, due) != SupervisorStep::Retire,
        serving ==> step_spec(serving, finished, false, due) != SupervisorStep::Attempt,
{
}

} // verus!
