//! The Controller wire protocol's commands and responses, and the rules a frame must meet before
//! it is acted on or sent. Identifiers are carried as the numbers they are; turning frames into
//! JSON and back is the caller's.
use vstd::prelude::*;

use crate::text::chars_of;

verus! {

pub const CONTROLLER_COMMAND_VERSION: u16 = 1;
pub const MAX_INPUT_BYTES: usize = 16384;
pub const MAX_ERROR_CODE_BYTES: usize = 64;
pub const MAX_SESSION_TITLE_SCALARS: usize = 256;
pub const MAX_SESSION_PAGE_RECORDS: u16 = 1000;
pub const MAX_SNAPSHOT_CHUNK_BYTES: usize = 131072;
/// A screen ticket is exactly one 32-byte proof.
pub const SCREEN_TICKET_BYTES: usize = 32;

#[derive(Clone, Copy, Debug, PartialEq, Eq, Structural)]
pub enum ListenerErrorCode {
    MalformedFrame,
    FrameTooLarge,
}

#[derive(Clone, Copy, Debug, PartialEq, Eq, Structural)]
pub struct ListenerError {
    pub code: ListenerErrorCode,
}

pub open spec fn failure(code: ListenerErrorCode) -> Result<(), ListenerError> {
    Err(ListenerError { code })
}

#[derive(Clone, Copy, Debug, PartialEq, Eq, Structural)]
pub enum BridgeCommandKind {
    ListSessions,
    Attach,
    AcquireWriter,
    ReleaseWriter,
    Input,
    Resize,
    Approval,
    Detach,
    OpenScreen,
    CloseScreen,
    Unsupported,
}

/// What the bridge to a session Host needs of a command.
#[derive(Clone, Copy, Debug, PartialEq, Eq, Structural)]
pub struct BridgeCommand {
    pub kind: BridgeCommandKind,
    pub session_id: Option<u128>,
    pub occupant_generation: Option<u64>,
    pub session_generation: u64,
    pub deadline_millis: u64,
}

#[derive(Clone, Copy, Debug, PartialEq, Eq, Structural)]
pub enum ApprovalDecision {
    Approve,
    Deny,
}

#[derive(Clone, Debug, PartialEq, Eq)]
pub enum ControllerCommand {
    ListSessions { offset: u32, limit: u16, expected_revision: Option<u64> },
    Attach { session_id: u128, occupant_generation: u64, from_sequence: u64, columns: u32, rows: u32 },
    Input { session_id: u128, occupant_generation: u64, bytes: Vec<u8> },
    AcquireWriter { session_id: u128, occupant_generation: u64 },
    ReleaseWriter { session_id: u128, occupant_generation: u64 },
    Resize { session_id: u128, occupant_generation: u64, columns: u32, rows: u32 },
    Approval { session_id: u128, occupant_generation: u64, approval_id: u128, decision: ApprovalDecision },
    Detach { session_id: u128, occupant_generation: u64 },
    /// Asks for a ticket that opens a Remote Screens session on this connection.
    OpenScreen,
    /// Ends the screen session and invalidates its ticket.
    CloseScreen,
    /// A command from a newer device than this build: refused, once, and the connection
    /// carries on.
    Unsupported,
}

#[derive(Clone, Debug, PartialEq, Eq)]
pub struct ControllerCommandEnvelope {
    pub version: u16,
    pub command_id: u128,
    pub session_generation: u64,
    pub deadline_millis: u64,
    pub command: ControllerCommand,
}

pub open spec fn command_kind(command: ControllerCommand) -> BridgeCommandKind {
    match command {
        ControllerCommand::ListSessions { .. } => BridgeCommandKind::ListSessions,
        ControllerCommand::Attach { .. } => BridgeCommandKind::Attach,
        ControllerCommand::AcquireWriter { .. } => BridgeCommandKind::AcquireWriter,
        ControllerCommand::ReleaseWriter { .. } => BridgeCommandKind::ReleaseWriter,
        ControllerCommand::Input { .. } => BridgeCommandKind::Input,
        ControllerCommand::Resize { .. } => BridgeCommandKind::Resize,
        ControllerCommand::Approval { .. } => BridgeCommandKind::Approval,
        ControllerCommand::Detach { .. } => BridgeCommandKind::Detach,
        ControllerCommand::OpenScreen => BridgeCommandKind::OpenScreen,
        ControllerCommand::CloseScreen => BridgeCommandKind::CloseScreen,
        ControllerCommand::Unsupported => BridgeCommandKind::Unsupported,
    }
}

/// The session a command is for, and the occupant generation it must present.
pub open spec fn command_target(command: ControllerCommand) -> Option<(u128, u64)> {
    match command {
        ControllerCommand::Attach { session_id, occupant_generation, .. } => Some((session_id, occupant_generation)),
        ControllerCommand::Input { session_id, occupant_generation, .. } => Some((session_id, occupant_generation)),
        ControllerCommand::AcquireWriter { session_id, occupant_generation } => Some((session_id, occupant_generation)),
        ControllerCommand::ReleaseWriter { session_id, occupant_generation } => Some((session_id, occupant_generation)),
        ControllerCommand::Resize { session_id, occupant_generation, .. } => Some((session_id, occupant_generation)),
        ControllerCommand::Approval { session_id, occupant_generation, .. } => Some((session_id, occupant_generation)),
        ControllerCommand::Detach { session_id, occupant_generation } => Some((session_id, occupant_generation)),
        _ => None,
    }
}

/// The rules a command meets: a page of 1 to `MAX_SESSION_PAGE_RECORDS` sessions from an offset
/// up to 10000 and a revision other than 0; a terminal of 1 to 1000 columns and rows; between 1
/// and `MAX_INPUT_BYTES` bytes of input.
pub open spec fn command_check(command: ControllerCommand) -> Result<(), ListenerError> {
    match command {
        ControllerCommand::ListSessions { offset, limit, expected_revision } =>
            if limit == 0 || limit > MAX_SESSION_PAGE_RECORDS || offset > 10000 || expected_revision == Some(0u64) {
                failure(ListenerErrorCode::MalformedFrame)
            } else {
                Ok(())
            },
        ControllerCommand::Attach { columns, rows, .. } =>
            if columns == 0 || rows == 0 || columns > 1000 || rows > 1000 {
                failure(ListenerErrorCode::MalformedFrame)
            } else {
                Ok(())
            },
        ControllerCommand::Resize { columns, rows, .. } =>
            if columns == 0 || rows == 0 || columns > 1000 || rows > 1000 {
                failure(ListenerErrorCode::MalformedFrame)
            } else {
                Ok(())
            },
        ControllerCommand::Input { bytes, .. } =>
            if bytes@.len() == 0 || bytes@.len() > MAX_INPUT_BYTES {
                failure(ListenerErrorCode::FrameTooLarge)
            } else {
                Ok(())
            },
        _ => Ok(()),
    }
}

/// A command is read when this build is at least as new as the device that sent it, and it has
/// a deadline: one from an older device still reads, one from a newer device is refused.
pub open spec fn envelope_check(envelope: ControllerCommandEnvelope) -> Result<(), ListenerError> {
    if envelope.version == 0 || envelope.version > CONTROLLER_COMMAND_VERSION || envelope.deadline_millis == 0 {
        failure(ListenerErrorCode::MalformedFrame)
    } else {
        command_check(envelope.command)
    }
}

impl ControllerCommand {
    pub fn kind(&self) -> (r: BridgeCommandKind)
        ensures
            r == command_kind(*self),
    {
        match self {
            ControllerCommand::ListSessions { .. } => BridgeCommandKind::ListSessions,
            ControllerCommand::Attach { .. } => BridgeCommandKind::Attach,
            ControllerCommand::AcquireWriter { .. } => BridgeCommandKind::AcquireWriter,
            ControllerCommand::ReleaseWriter { .. } => BridgeCommandKind::ReleaseWriter,
            ControllerCommand::Input { .. } => BridgeCommandKind::Input,
            ControllerCommand::Resize { .. } => BridgeCommandKind::Resize,
            ControllerCommand::Approval { .. } => BridgeCommandKind::Approval,
            ControllerCommand::Detach { .. } => BridgeCommandKind::Detach,
            ControllerCommand::OpenScreen => BridgeCommandKind::OpenScreen,
            ControllerCommand::CloseScreen => BridgeCommandKind::CloseScreen,
            ControllerCommand::Unsupported => BridgeCommandKind::Unsupported,
        }
    }

    fn target(&self) -> (r: Option<(u128, u64)>)
        ensures
            r == command_target(*self),
    {
        match self {
            ControllerCommand::Attach { session_id, occupant_generation, .. } => Some((*session_id, *occupant_generation)),
            ControllerCommand::Input { session_id, occupant_generation, .. } => Some((*session_id, *occupant_generation)),
            ControllerCommand::AcquireWriter { session_id, occupant_generation } => Some((*session_id, *occupant_generation)),
            ControllerCommand::ReleaseWriter { session_id, occupant_generation } => Some((*session_id, *occupant_generation)),
            ControllerCommand::Resize { session_id, occupant_generation, .. } => Some((*session_id, *occupant_generation)),
            ControllerCommand::Approval { session_id, occupant_generation, .. } => Some((*session_id, *occupant_generation)),
            ControllerCommand::Detach { session_id, occupant_generation } => Some((*session_id, *occupant_generation)),
            _ => None,
        }
    }

    /// The session the command is for, if any.
    pub fn session_id(&self) -> (r: Option<u128>)
        ensures
            r == match command_target(*self) {
                Some((s, _)) => Some(s),
                None => None,
            },
    {
        match self.target() {
            Some((s, _)) => Some(s),
            None => None,
        }
    }

    /// The occupant generation the command must present, if any.
    pub fn occupant_generation(&self) -> (r: Option<u64>)
        ensures
            r == match command_target(*self) {
                Some((_, g)) => Some(g),
                None => None,
            },
    {
        match self.target() {
            Some((_, g)) => Some(g),
            None => None,
        }
    }

    pub fn validate(&self) -> (r: Result<(), ListenerError>)
        ensures
            r == command_check(*self),
    {
        match self {
            ControllerCommand::ListSessions { offset, limit, expected_revision } => {
                let zero_revision = match expected_revision {
                    Some(revision) => *revision == 0,
                    None => false,
                };
                if *limit == 0 || *limit > MAX_SESSION_PAGE_RECORDS || *offset > 10000 || zero_revision {
                    Err(ListenerError { code: ListenerErrorCode::MalformedFrame })
                } else {
                    Ok(())
                }
            },
            ControllerCommand::Attach { columns, rows, .. } | ControllerCommand::Resize { columns, rows, .. } => {
                if *columns == 0 || *rows == 0 || *columns > 1000 || *rows > 1000 {
                    Err(ListenerError { code: ListenerErrorCode::MalformedFrame })
                } else {
                    Ok(())
                }
            },
            ControllerCommand::Input { bytes, .. } => {
                if bytes.len() == 0 || bytes.len() > MAX_INPUT_BYTES {
                    Err(ListenerError { code: ListenerErrorCode::FrameTooLarge })
                } else {
                    Ok(())
                }
            },
            _ => Ok(()),
        }
    }
}

impl ControllerCommandEnvelope {
    /// A command of the current version.
    pub fn new(command_id: u128, session_generation: u64, deadline_millis: u64, command: ControllerCommand) -> (r: Self)
        ensures
            r == (ControllerCommandEnvelope {
                version: CONTROLLER_COMMAND_VERSION,
                command_id,
                session_generation,
                deadline_millis,
                command,
            }),
    {
        ControllerCommandEnvelope { version: CONTROLLER_COMMAND_VERSION, command_id, session_generation, deadline_millis, command }
    }

    pub fn validate(&self) -> (r: Result<(), ListenerError>)
        ensures
            r == envelope_check(*self),
    {
        if self.version == 0 || self.version > CONTROLLER_COMMAND_VERSION || self.deadline_millis == 0 {
            return Err(ListenerError { code: ListenerErrorCode::MalformedFrame });
        }
        self.command.validate()
    }

    /// What the bridge to the session Host needs of this command.
    pub fn bridge_command(&self) -> (r: BridgeCommand)
        ensures
            r.kind == command_kind(self.command),
            r.session_id == match command_target(self.command) {
                Some((s, _)) => Some(s),
                None => None,
            },
            r.occupant_generation == match command_target(self.command) {
                Some((_, g)) => Some(g),
                None => None,
            },
            r.session_generation == self.session_generation,
            r.deadline_millis == self.deadline_millis,
    {
        BridgeCommand {
            kind: self.command.kind(),
            session_id: self.command.session_id(),
            occupant_generation: self.command.occupant_generation(),
            session_generation: self.session_generation,
            deadline_millis: self.deadline_millis,
        }
    }
}

// ---------------------------------------------------------------------------------------------
// Responses.

#[derive(Clone, Copy, Debug, PartialEq, Eq, Structural)]
pub enum ControllerSessionOrigin {
    Terminal,
    ManagedAgent,
    ObservedAgent,
    Unknown,
}

impl ControllerSessionOrigin {
    /// The origin a summary that names none has.
    pub fn unknown() -> (r: ControllerSessionOrigin)
        ensures
            r == ControllerSessionOrigin::Unknown,
    {
        ControllerSessionOrigin::Unknown
    }
}

#[derive(Clone, Copy, Debug, PartialEq, Eq, PartialOrd, Ord, Structural)]
pub enum ControllerSessionCapability {
    ObserveSessions,
    AttachOutput,
    SendInput,
    Resize,
    RespondToApproval,
}

/// Where a capability stands in the order capabilities are listed in.
pub open spec fn rank(c: ControllerSessionCapability) -> nat {
    match c {
        ControllerSessionCapability::ObserveSessions => 0,
        ControllerSessionCapability::AttachOutput => 1,
        ControllerSessionCapability::SendInput => 2,
        ControllerSessionCapability::Resize => 3,
        ControllerSessionCapability::RespondToApproval => 4,
    }
}

fn rank_of(c: ControllerSessionCapability) -> (r: u8)
    ensures
        r == rank(c),
{
    match c {
        ControllerSessionCapability::ObserveSessions => 0,
        ControllerSessionCapability::AttachOutput => 1,
        ControllerSessionCapability::SendInput => 2,
        ControllerSessionCapability::Resize => 3,
        ControllerSessionCapability::RespondToApproval => 4,
    }
}

#[derive(Clone, Debug, PartialEq, Eq)]
pub struct ControllerSessionSummary {
    pub session_id: u128,
    pub host_instance_id: Option<u128>,
    pub origin: ControllerSessionOrigin,
    pub runtime: Option<String>,
    pub capabilities: Vec<ControllerSessionCapability>,
    pub title: String,
    pub project: Option<String>,
    pub group: Option<String>,
    pub lifecycle: String,
    pub activity: String,
    pub occupant_generation: Option<u64>,
    pub last_output_sequence: u64,
    pub has_writer: bool,
    pub unread: bool,
}

#[derive(Clone, Debug, PartialEq, Eq)]
pub enum ControllerResponse {
    Sessions { command_id: u128, revision: u64, update_sequence: u64, sessions: Vec<ControllerSessionSummary>, next_offset: Option<u32> },
    Attached { command_id: u128, session_id: u128, occupant_generation: u64, replay_through_sequence: u64, has_writer_lease: bool },
    Snapshot { command_id: u128, session_id: u128, boundary_sequence: u64, columns: u32, rows: u32, chunk_index: u32, chunk_count: u32, bytes: Vec<u8> },
    Output { session_id: u128, sequence: u64, bytes: Vec<u8> },
    Completed { command_id: u128, applied: bool },
    Detached { command_id: u128 },
    /// The screen session may start. The ticket proves it to the screen protocol's hello, once.
    ScreenOpened { command_id: u128, ticket: Vec<u8>, can_control_pointer: bool, can_control_keyboard: bool },
    Error { command_id: u128, code: String, completion_unknown: bool },
    /// A response from a newer computer than this build, which the reader skips.
    Unknown,
}

/// How many bytes a character takes in UTF-8.
pub open spec fn utf8_width(c: char) -> nat {
    let n = c as u32;
    if n < 0x80 {
        1
    } else if n < 0x800 {
        2
    } else if n < 0x10000 {
        3
    } else {
        4
    }
}

/// How many bytes text takes in UTF-8.
pub open spec fn utf8_len(s: Seq<char>) -> nat
    decreases s.len(),
{
    if s.len() == 0 {
        0
    } else {
        utf8_len(s.drop_last()) + utf8_width(s.last())
    }
}

/// An ASCII letter or digit, `.`, `-` or `_`.
pub open spec fn runtime_char(c: char) -> bool {
    ('a' <= c && c <= 'z') || ('A' <= c && c <= 'Z') || ('0' <= c && c <= '9') || c == '.' || c == '-' || c == '_'
}

/// A runtime name is 1 to 128 of those.
pub open spec fn runtime_ok(runtime: Seq<char>) -> bool {
    &&& runtime.len() > 0
    &&& runtime.len() <= 128
    &&& forall|i: int| 0 <= i < runtime.len() ==> runtime_char(#[trigger] runtime[i])
}

/// A lowercase ASCII letter or `_`.
pub open spec fn code_char(c: char) -> bool {
    ('a' <= c && c <= 'z') || c == '_'
}

/// An error code is 1 to `MAX_ERROR_CODE_BYTES` of those.
pub open spec fn code_ok(code: Seq<char>) -> bool {
    &&& code.len() > 0
    &&& code.len() <= MAX_ERROR_CODE_BYTES
    &&& forall|i: int| 0 <= i < code.len() ==> code_char(#[trigger] code[i])
}

pub open spec fn name_fits(name: Option<String>) -> bool {
    match name {
        Some(n) => n@.len() <= MAX_SESSION_TITLE_SCALARS,
        None => true,
    }
}

/// A session summary a page may carry: names of at most `MAX_SESSION_TITLE_SCALARS` characters,
/// a well-formed runtime name, at most five capabilities in strictly increasing order, and a
/// lifecycle and activity of at most `MAX_ERROR_CODE_BYTES` bytes.
pub open spec fn summary_ok(s: ControllerSessionSummary) -> bool {
    &&& s.title@.len() <= MAX_SESSION_TITLE_SCALARS
    &&& match s.runtime {
        Some(r) => runtime_ok(r@),
        None => true,
    }
    &&& s.capabilities@.len() <= 5
    &&& forall|i: int| 0 <= i < s.capabilities@.len() - 1 ==> rank(#[trigger] s.capabilities@[i]) < rank(s.capabilities@[i + 1])
    &&& name_fits(s.project)
    &&& name_fits(s.group)
    &&& utf8_len(s.lifecycle@) <= MAX_ERROR_CODE_BYTES
    &&& utf8_len(s.activity@) <= MAX_ERROR_CODE_BYTES
}

/// The rules a response meets before it is sent or acted on.
pub open spec fn response_check(response: ControllerResponse) -> Result<(), ListenerError> {
    match response {
        ControllerResponse::Sessions { revision, update_sequence, sessions, next_offset, .. } =>
            if revision == 0 || update_sequence == 0 || sessions@.len() > MAX_SESSION_PAGE_RECORDS
                || next_offset == Some(0u32) || exists|i: int| 0 <= i < sessions@.len() && !summary_ok(#[trigger] sessions@[i]) {
                failure(ListenerErrorCode::FrameTooLarge)
            } else {
                Ok(())
            },
        ControllerResponse::Output { bytes, .. } =>
            if bytes@.len() == 0 { failure(ListenerErrorCode::MalformedFrame) } else { Ok(()) },
        ControllerResponse::Snapshot { columns, rows, chunk_index, chunk_count, bytes, .. } =>
            if columns == 0 || rows == 0 || columns > 400 || rows > 200 || chunk_count == 0
                || chunk_index >= chunk_count || bytes@.len() > MAX_SNAPSHOT_CHUNK_BYTES {
                failure(ListenerErrorCode::MalformedFrame)
            } else {
                Ok(())
            },
        ControllerResponse::ScreenOpened { ticket, .. } =>
            if ticket@.len() != SCREEN_TICKET_BYTES { failure(ListenerErrorCode::MalformedFrame) } else { Ok(()) },
        ControllerResponse::Error { code, .. } =>
            if !code_ok(code@) { failure(ListenerErrorCode::MalformedFrame) } else { Ok(()) },
        _ => Ok(()),
    }
}

fn runtime_ok_of(runtime: &String) -> (r: bool)
    ensures
        r == runtime_ok(runtime@),
{
    let chars = chars_of(runtime.as_str());
    if chars.len() == 0 || chars.len() > 128 {
        return false;
    }
    let mut i: usize = 0;
    while i < chars.len()
        invariant
            i <= chars@.len(),
            chars@ == runtime@,
            forall|j: int| 0 <= j < i ==> runtime_char(#[trigger] chars@[j]),
        decreases chars@.len() - i,
    {
        let c = chars[i];
        if !(('a' <= c && c <= 'z') || ('A' <= c && c <= 'Z') || ('0' <= c && c <= '9') || c == '.' || c == '-' || c == '_') {
            return false;
        }
        i = i + 1;
    }
    true
}

fn code_ok_of(code: &String) -> (r: bool)
    ensures
        r == code_ok(code@),
{
    let chars = chars_of(code.as_str());
    if chars.len() == 0 || chars.len() > MAX_ERROR_CODE_BYTES {
        return false;
    }
    let mut i: usize = 0;
    while i < chars.len()
        invariant
            i <= chars@.len(),
            chars@ == code@,
            forall|j: int| 0 <= j < i ==> code_char(#[trigger] chars@[j]),
        decreases chars@.len() - i,
    {
        let c = chars[i];
        if !(('a' <= c && c <= 'z') || c == '_') {
            return false;
        }
        i = i + 1;
    }
    true
}

fn utf8_width_of(c: char) -> (r: u64)
    ensures
        r == utf8_width(c),
{
    let n = c as u32;
    if n < 0x80 {
        1
    } else if n < 0x800 {
        2
    } else if n < 0x10000 {
        3
    } else {
        4
    }
}

/// Whether text takes at most `limit` bytes in UTF-8.
fn utf8_within(text: &String, limit: u64) -> (r: bool)
    requires
        limit <= 1000,
    ensures
        r == (utf8_len(text@) <= limit),
{
    let chars = chars_of(text.as_str());
    let mut total: u64 = 0;
    let mut i: usize = 0;
    while i < chars.len()
        invariant
            i <= chars@.len(),
            chars@ == text@,
            total == utf8_len(chars@.take(i as int)),
            total <= limit,
            limit <= 1000,
        decreases chars@.len() - i,
    {
        proof {
            assert(chars@.take(i + 1).drop_last() =~= chars@.take(i as int));
        }
        total = total + utf8_width_of(chars[i]);
        if total > limit {
            proof {
                lemma_utf8_len_grows(chars@, i + 1);
            }
            return false;
        }
        i = i + 1;
    }
    assert(chars@.take(chars@.len() as int) =~= chars@);
    true
}

proof fn lemma_utf8_len_grows(s: Seq<char>, k: int)
    requires
        0 <= k <= s.len(),
    ensures
        utf8_len(s.take(k)) <= utf8_len(s),
    decreases s.len() - k,
{
    if k < s.len() {
        lemma_utf8_len_grows(s, k + 1);
        assert(s.take(k + 1).drop_last() =~= s.take(k));
    } else {
        assert(s.take(k) =~= s);
    }
}

fn name_fits_of(name: &Option<String>) -> (r: bool)
    ensures
        r == name_fits(*name),
{
    match name {
        Some(n) => n.as_str().unicode_len() <= MAX_SESSION_TITLE_SCALARS,
        None => true,
    }
}

fn summary_ok_of(s: &ControllerSessionSummary) -> (r: bool)
    ensures
        r == summary_ok(*s),
{
    if s.title.as_str().unicode_len() > MAX_SESSION_TITLE_SCALARS {
        return false;
    }
    match &s.runtime {
        Some(r) => {
            if !runtime_ok_of(r) {
                return false;
            }
        },
        None => {},
    }
    if s.capabilities.len() > 5 {
        return false;
    }
    let mut i: usize = 0;
    while i + 1 < s.capabilities.len()
        invariant
            s.capabilities@.len() <= 5,
            i <= s.capabilities@.len(),
            forall|j: int| 0 <= j < i && j < s.capabilities@.len() - 1 ==> rank(#[trigger] s.capabilities@[j]) < rank(s.capabilities@[j + 1]),
        decreases s.capabilities@.len() - i,
    {
        if rank_of(s.capabilities[i]) >= rank_of(s.capabilities[i + 1]) {
            return false;
        }
        i = i + 1;
    }
    name_fits_of(&s.project) && name_fits_of(&s.group) && utf8_within(&s.lifecycle, 64)
        && utf8_within(&s.activity, 64)
}

/// Checks a response before it is sent or acted on.
pub fn validate_response(response: &ControllerResponse) -> (r: Result<(), ListenerError>)
    ensures
        r == response_check(*response),
{
    match response {
        ControllerResponse::Sessions { revision, update_sequence, sessions, next_offset, .. } => {
            let zero_offset = match next_offset {
                Some(o) => *o == 0,
                None => false,
            };
            if *revision == 0 || *update_sequence == 0 || sessions.len() > 1000 || zero_offset {
                return Err(ListenerError { code: ListenerErrorCode::FrameTooLarge });
            }
            let mut i: usize = 0;
            assert(response_check(*response) == (if exists|j: int| 0 <= j < sessions@.len() && !summary_ok(#[trigger] sessions@[j]) {
                failure(ListenerErrorCode::FrameTooLarge)
            } else {
                Ok(())
            }));
            while i < sessions.len()
                invariant
                    i <= sessions@.len(),
                    forall|j: int| 0 <= j < i ==> summary_ok(#[trigger] sessions@[j]),
                    response_check(*response) == (if exists|j: int| 0 <= j < sessions@.len() && !summary_ok(#[trigger] sessions@[j]) {
                        failure(ListenerErrorCode::FrameTooLarge)
                    } else {
                        Ok(())
                    }),
                decreases sessions@.len() - i,
            {
                if !summary_ok_of(&sessions[i]) {
                    assert(!summary_ok(sessions@[i as int]));
                    return Err(ListenerError { code: ListenerErrorCode::FrameTooLarge });
                }
                i = i + 1;
            }
            Ok(())
        },
        ControllerResponse::Output { bytes, .. } => {
            if bytes.len() == 0 {
                Err(ListenerError { code: ListenerErrorCode::MalformedFrame })
            } else {
                Ok(())
            }
        },
        ControllerResponse::Snapshot { columns, rows, chunk_index, chunk_count, bytes, .. } => {
            if *columns == 0 || *rows == 0 || *columns > 400 || *rows > 200 || *chunk_count == 0
                || *chunk_index >= *chunk_count || bytes.len() > MAX_SNAPSHOT_CHUNK_BYTES {
                Err(ListenerError { code: ListenerErrorCode::MalformedFrame })
            } else {
                Ok(())
            }
        },
        ControllerResponse::ScreenOpened { ticket, .. } => {
            if ticket.len() != SCREEN_TICKET_BYTES {
                Err(ListenerError { code: ListenerErrorCode::MalformedFrame })
            } else {
                Ok(())
            }
        },
        ControllerResponse::Error { code, .. } => {
            if !code_ok_of(code) {
                Err(ListenerError { code: ListenerErrorCode::MalformedFrame })
            } else {
                Ok(())
            }
        },
        _ => Ok(()),
    }
}

/// The response's kind, as logs name it.
pub fn response_kind(response: &ControllerResponse) -> (r: &'static str)
    ensures
        r@ == match *response {
            ControllerResponse::Sessions { .. } => "sessions"@,
            ControllerResponse::Attached { .. } => "attached"@,
            ControllerResponse::Snapshot { .. } => "snapshot"@,
            ControllerResponse::Output { .. } => "output"@,
            ControllerResponse::Completed { .. } => "completed"@,
            ControllerResponse::Detached { .. } => "detached"@,
            ControllerResponse::ScreenOpened { .. } => "screen_opened"@,
            ControllerResponse::Unknown => "unknown"@,
            ControllerResponse::Error { .. } => "error"@,
        },
{
    match response {
        ControllerResponse::Sessions { .. } => "sessions",
        ControllerResponse::Attached { .. } => "attached",
        ControllerResponse::Snapshot { .. } => "snapshot",
        ControllerResponse::Output { .. } => "output",
        ControllerResponse::Completed { .. } => "completed",
        ControllerResponse::Detached { .. } => "detached",
        ControllerResponse::ScreenOpened { .. } => "screen_opened",
        ControllerResponse::Unknown => "unknown",
        ControllerResponse::Error { .. } => "error",
    }
}

/// A frame of `length` bytes may be read or sent when it is not empty and at most `maximum`.
pub fn frame_size(length: usize, maximum: usize) -> (r: Result<(), ListenerError>)
    ensures
        r == (if length == 0 || length > maximum { failure(ListenerErrorCode::FrameTooLarge) } else { Ok(()) }),
{
    if length == 0 || length > maximum {
        Err(ListenerError { code: ListenerErrorCode::FrameTooLarge })
    } else {
        Ok(())
    }
}

/// Commands from an older device still read; a newer device's are refused: the version rule
/// accepts exactly the versions from 1 up to this build's.
pub proof fn a_command_version_may_be_older_but_never_newer(envelope: ControllerCommandEnvelope)
    ensures
        envelope.version > CONTROLLER_COMMAND_VERSION ==> envelope_check(envelope) == failure(ListenerErrorCode::MalformedFrame),
        (1 <= envelope.version <= CONTROLLER_COMMAND_VERSION && envelope.deadline_millis > 0)
            ==> envelope_check(envelope) == command_check(envelope.command),
        envelope.command == ControllerCommand::Unsupported ==> command_check(envelope.command) == Ok::<(), ListenerError>(()),
{
}

/// A request within its limits is read, whichever page it asks for: a list of 1 to
/// `MAX_SESSION_PAGE_RECORDS` sessions from any offset up to 10000, with no revision or a
/// revision other than 0; a terminal of 1 to 1000 columns and rows; 1 to `MAX_INPUT_BYTES` bytes
/// of input. A list request outside those limits is refused as malformed.
pub proof fn a_request_within_its_limits_is_read(command: ControllerCommand)
    ensures
        (command matches ControllerCommand::ListSessions { offset, limit, expected_revision }
            ==> (command_check(command) is Ok <==> (1 <= limit <= MAX_SESSION_PAGE_RECORDS && offset <= 10000
                && expected_revision != Some(0u64)))),
        (command matches ControllerCommand::Attach { columns, rows, .. }
            ==> (command_check(command) is Ok <==> (1 <= columns <= 1000 && 1 <= rows <= 1000))),
        (command matches ControllerCommand::Resize { columns, rows, .. }
            ==> (command_check(command) is Ok <==> (1 <= columns <= 1000 && 1 <= rows <= 1000))),
        (command matches ControllerCommand::Input { bytes, .. }
            ==> (command_check(command) is Ok <==> (1 <= bytes@.len() <= MAX_INPUT_BYTES))),
{
}

/// In particular a later page of the session list, sent by this build, is read.
pub proof fn a_later_page_is_read(command_id: u128, session_generation: u64, deadline_millis: u64, offset: u32, limit: u16)
    requires
        deadline_millis > 0,
        1 <= limit <= MAX_SESSION_PAGE_RECORDS,
        offset <= 10000,
    ensures
        envelope_check(
            ControllerCommandEnvelope {
                version: CONTROLLER_COMMAND_VERSION,
                command_id,
                session_generation,
                deadline_millis,
                command: ControllerCommand::ListSessions { offset, limit, expected_revision: None },
            },
        ) == Ok::<(), ListenerError>(()),
{
}

/// A response within its limits is read: output of at least one byte; a snapshot chunk of a
/// terminal of 1 to 400 columns and 1 to 200 rows, whose index is below a nonzero count, of at
/// most `MAX_SNAPSHOT_CHUNK_BYTES` bytes; a screen ticket of exactly `SCREEN_TICKET_BYTES` bytes;
/// and a page of sessions only with a nonzero revision and update sequence, at most
/// `MAX_SESSION_PAGE_RECORDS` sessions, and no next offset of 0. Anything else of these kinds is
/// refused.
pub proof fn a_response_within_its_limits_is_read(response: ControllerResponse)
    ensures
        (response matches ControllerResponse::Output { bytes, .. } ==> (response_check(response) is Ok <==> bytes@.len()
            >= 1)),
        (response matches ControllerResponse::Snapshot { columns, rows, chunk_index, chunk_count, bytes, .. }
            ==> (response_check(response) is Ok <==> (1 <= columns <= 400 && 1 <= rows <= 200 && chunk_index
            < chunk_count && bytes@.len() <= MAX_SNAPSHOT_CHUNK_BYTES))),
        (response matches ControllerResponse::ScreenOpened { ticket, .. } ==> (response_check(response) is Ok
            <==> ticket@.len() == SCREEN_TICKET_BYTES)),
        (response matches ControllerResponse::Sessions { revision, update_sequence, sessions, next_offset, .. }
            ==> (response_check(response) is Ok ==> (revision > 0 && update_sequence > 0 && sessions@.len()
            <= MAX_SESSION_PAGE_RECORDS && next_offset != Some(0u32)))),
        (response matches ControllerResponse::Attached { .. }) ==> response_check(response) is Ok,
        (response matches ControllerResponse::Completed { .. }) ==> response_check(response) is Ok,
        (response matches ControllerResponse::Detached { .. }) ==> response_check(response) is Ok,
        response == ControllerResponse::Unknown ==> response_check(response) is Ok,
{
}

} // verus!
