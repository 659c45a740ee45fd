//! Decisions of the versioned native-host command router: envelope checks,
//! command routing, optimistic revision checks and project edits.
use vstd::prelude::*;
use vstd::string::StringExecFns;

use crate::json::{decimal_text, parse_u128, parse_unsigned, push_decimal};
use crate::project::{Command, CommandError, CommandView, EntityId, Project};
use crate::session::{session_apply, session_redo, session_undo, ProjectSession, SessionView};
use crate::text::{chars_of, is_blank, str_is_blank};

verus! {

/// The protocol version that the router speaks.
pub const HOST_PROTOCOL_VERSION: u32 = 1;

/// The sample rate of the test tone and of a device started without one.
pub const DEFAULT_SAMPLE_RATE: u32 = 48_000;

/// The device period, in frames, when a request names none.
pub const DEFAULT_PERIOD_FRAMES: u32 = 128;

/// The sample rate used when a play request names none.
pub fn default_sample_rate() -> (r: u32)
    ensures
        r == DEFAULT_SAMPLE_RATE,
{
    DEFAULT_SAMPLE_RATE
}

/// The device period used when a play request names none.
pub fn default_period_frames() -> (r: u32)
    ensures
        r == DEFAULT_PERIOD_FRAMES,
{
    DEFAULT_PERIOD_FRAMES
}

/// A failure with a stable machine-readable code and a message for people.
#[derive(Debug)]
pub struct HostError {
    code: &'static str,
    message: String,
}

/// Abstract value of a host error: its code and its message.
pub struct HostErrorView {
    pub code: Seq<char>,
    pub message: Seq<char>,
}

impl View for HostError {
    type V = HostErrorView;

    closed spec fn view(&self) -> HostErrorView {
        HostErrorView { code: self.code@, message: self.message@ }
    }
}

/// A host error as a value.
pub open spec fn host_error(code: Seq<char>, message: Seq<char>) -> HostErrorView {
    HostErrorView { code, message }
}

impl HostError {
    /// A host error with the given code and message.
    pub fn new(code: &'static str, message: String) -> (e: HostError)
        ensures
            e@ == host_error(code@, message@),
    {
        HostError { code, message }
    }

    /// The machine-readable code.
    pub fn code(&self) -> (c: &'static str)
        ensures
            c@ == self@.code,
    {
        self.code
    }

    /// The message for people.
    pub fn message(&self) -> (m: String)
        ensures
            m@ == self@.message,
    {
        self.message.clone()
    }

    /// The error as one line: `code: message`.
    pub fn describe(&self) -> (s: String)
        ensures
            s@ == self@.code + ": "@ + self@.message,
    {
        let mut s = String::from_str(self.code);
        s.append(": ");
        s.append(self.message.as_str());
        s
    }
}

/// The commands of protocol version 1.
#[derive(Clone, Copy, Debug, PartialEq, Eq, Structural)]
pub enum HostCommand {
    GetState,
    ListDevices,
    LoadTestTone,
    Play,
    Stop,
    Seek,
    SetTempo,
    CreateTrack,
    Undo,
    Redo,
    Save,
}

/// The command that a command name selects.
pub open spec fn command_named(name: Seq<char>) -> Option<HostCommand> {
    if name == "host.getState"@ {
        Some(HostCommand::GetState)
    } else if name == "audio.listDevices"@ {
        Some(HostCommand::ListDevices)
    } else if name == "audio.loadTestTone"@ {
        Some(HostCommand::LoadTestTone)
    } else if name == "transport.play"@ {
        Some(HostCommand::Play)
    } else if name == "transport.stop"@ {
        Some(HostCommand::Stop)
    } else if name == "transport.seek"@ {
        Some(HostCommand::Seek)
    } else if name == "project.setTempo"@ {
        Some(HostCommand::SetTempo)
    } else if name == "project.createTrack"@ {
        Some(HostCommand::CreateTrack)
    } else if name == "project.undo"@ {
        Some(HostCommand::Undo)
    } else if name == "project.redo"@ {
        Some(HostCommand::Redo)
    } else if name == "project.save"@ {
        Some(HostCommand::Save)
    } else {
        None
    }
}

/// How a request envelope is routed: the version must be 1, the id must
/// not be blank, and the command must be known.
pub open spec fn route_spec(version: u32, id: Seq<char>, command: Seq<char>) -> Result<HostCommand, HostErrorView> {
    if version != HOST_PROTOCOL_VERSION {
        Err(host_error("unsupported_version"@, "expected protocol version 1"@))
    } else if is_blank(id) {
        Err(host_error("invalid_request"@, "request id cannot be empty"@))
    } else {
        match command_named(command) {
            Some(c) => Ok(c),
            None => Err(
                host_error("unknown_command"@, "unsupported host command '"@ + command + "'"@),
            ),
        }
    }
}

/// Whether the characters `a` spell `b`.
fn spells(a: &Vec<char>, b: &str) -> (r: bool)
    ensures
        r == (a@ == b@),
{
    let w = chars_of(b);
    if a.len() != w.len() {
        return false;
    }
    let mut i: usize = 0;
    while i < w.len()
        invariant
            a@.len() == w@.len(),
            w@ == b@,
            i <= w@.len(),
            forall|k: int| 0 <= k < i ==> a@[k] == w@[k],
        decreases w.len() - i,
    {
        if a[i] != w[i] {
            return false;
        }
        i += 1;
    }
    assert(a@ =~= w@);
    true
}

/// Checks a request envelope and selects its command.
pub fn route(version: u32, id: &str, command: &str) -> (r: Result<HostCommand, HostError>)
    ensures
        match route_spec(version, id@, command@) {
            Ok(c) => r == Ok::<HostCommand, HostError>(c),
            Err(e) => r matches Err(x) && x@ == e,
        },
{
    if version != HOST_PROTOCOL_VERSION {
        return Err(HostError::new("unsupported_version", String::from_str("expected protocol version 1")));
    }
    if str_is_blank(id) {
        return Err(HostError::new("invalid_request", String::from_str("request id cannot be empty")));
    }
    let name = chars_of(command);
    if spells(&name, "host.getState") {
        Ok(HostCommand::GetState)
    } else if spells(&name, "audio.listDevices") {
        Ok(HostCommand::ListDevices)
    } else if spells(&name, "audio.loadTestTone") {
        Ok(HostCommand::LoadTestTone)
    } else if spells(&name, "transport.play") {
        Ok(HostCommand::Play)
    } else if spells(&name, "transport.stop") {
        Ok(HostCommand::Stop)
    } else if spells(&name, "transport.seek") {
        Ok(HostCommand::Seek)
    } else if spells(&name, "project.setTempo") {
        Ok(HostCommand::SetTempo)
    } else if spells(&name, "project.createTrack") {
        Ok(HostCommand::CreateTrack)
    } else if spells(&name, "project.undo") {
        Ok(HostCommand::Undo)
    } else if spells(&name, "project.redo") {
        Ok(HostCommand::Redo)
    } else if spells(&name, "project.save") {
        Ok(HostCommand::Save)
    } else {
        let mut message = String::from_str("unsupported host command '");
        message.append(command);
        message.append("'");
        Err(HostError::new("unknown_command", message))
    }
}

/// The optimistic revision check of a mutating request: a revision must be
/// given and must be the current one.
pub open spec fn revision_check_spec(expected: Option<u64>, actual: u64) -> Result<(), HostErrorView> {
    match expected {
        None => Err(
            host_error(
                "revision_required"@,
                "mutating project commands require expectedProjectRevision"@,
            ),
        ),
        Some(e) => if e != actual {
            Err(
                host_error(
                    "revision_conflict"@,
                    "expected revision "@ + decimal_text(e as nat) + ", current revision is "@
                        + decimal_text(actual as nat),
                ),
            )
        } else {
            Ok(())
        },
    }
}

/// Checks the revision that a mutating request expects.
pub fn require_revision(expected: Option<u64>, actual: u64) -> (r: Result<(), HostError>)
    ensures
        match revision_check_spec(expected, actual) {
            Ok(_) => r is Ok,
            Err(e) => r matches Err(x) && x@ == e,
        },
{
    match expected {
        None => Err(
            HostError::new(
                "revision_required",
                String::from_str("mutating project commands require expectedProjectRevision"),
            ),
        ),
        Some(e) => {
            if e != actual {
                let mut message = String::from_str("expected revision ");
                push_decimal(&mut message, e as u128);
                message.append(", current revision is ");
                push_decimal(&mut message, actual as u128);
                Err(HostError::new("revision_conflict", message))
            } else {
                Ok(())
            }
        },
    }
}

/// The name of a command error, as `Debug` writes it.
pub open spec fn command_error_name(e: CommandError) -> Seq<char> {
    match e {
        CommandError::TempoOutOfRange => "TempoOutOfRange"@,
        CommandError::EmptyTrackName => "EmptyTrackName"@,
        CommandError::TrackAlreadyExists => "TrackAlreadyExists"@,
        CommandError::TrackNotFound => "TrackNotFound"@,
        CommandError::NothingToUndo => "NothingToUndo"@,
        CommandError::NothingToRedo => "NothingToRedo"@,
    }
}

impl CommandError {
    /// The name of the error.
    pub fn name(&self) -> (n: &'static str)
        ensures
            n@ == command_error_name(*self),
    {
        match self {
            CommandError::TempoOutOfRange => "TempoOutOfRange",
            CommandError::EmptyTrackName => "EmptyTrackName",
            CommandError::TrackAlreadyExists => "TrackAlreadyExists",
            CommandError::TrackNotFound => "TrackNotFound",
            CommandError::NothingToUndo => "NothingToUndo",
            CommandError::NothingToRedo => "NothingToRedo",
        }
    }
}

/// A refused project command as a host error.
pub fn command_error(error: CommandError) -> (e: HostError)
    ensures
        e@ == host_error("command_rejected"@, command_error_name(error)),
{
    HostError::new("command_rejected", String::from_str(error.name()))
}

/// The error that a refused command gives, as a value.
pub open spec fn rejected(e: CommandError) -> HostErrorView {
    host_error("command_rejected"@, command_error_name(e))
}

/// A host result with its error taken by value.
pub open spec fn result_view<T>(r: Result<T, HostError>) -> Result<T, HostErrorView> {
    match r {
        Ok(v) => Ok(v),
        Err(e) => Err(e@),
    }
}

/// The outcome of a session edit, with a refused command reported as
/// `command_rejected`.
pub open spec fn edit_outcome(edit: (SessionView, Result<(), CommandError>)) -> (SessionView, Result<(), HostErrorView>) {
    match edit.1 {
        Ok(_) => (edit.0, Ok(())),
        Err(e) => (edit.0, Err(rejected(e))),
    }
}

/// A mutating request: the revision check comes first, then the decoded
/// payload, then the edit that the payload selects.
pub open spec fn mutation_spec<T>(
    s: SessionView,
    expected: Option<u64>,
    payload: Result<T, HostErrorView>,
    edit: spec_fn(T) -> (SessionView, Result<(), HostErrorView>),
) -> (SessionView, Result<(), HostErrorView>) {
    match revision_check_spec(expected, s.project.revision) {
        Err(e) => (s, Err(e)),
        Ok(_) => match payload {
            Err(e) => (s, Err(e)),
            Ok(p) => edit(p),
        },
    }
}

/// `project.setTempo` on a session.
pub open spec fn set_tempo_spec(s: SessionView, expected: Option<u64>, payload: Result<u64, HostErrorView>) -> (SessionView, Result<(), HostErrorView>) {
    mutation_spec(s, expected, payload, |bpm: u64| edit_outcome(session_apply(s, CommandView::SetTempo { bpm })))
}

/// `project.setTempo`: checks the revision, then the decoded payload (the
/// tempo bit pattern), then applies the tempo change.
pub fn set_tempo(session: &mut ProjectSession, expected: Option<u64>, payload: Result<u64, HostError>) -> (r: Result<(), HostError>)
    ensures
        set_tempo_spec(old(session)@, expected, result_view(payload)) == (final(session)@, result_view(r)),
{
    let actual = session.project().revision;
    require_revision(expected, actual)?;
    let bpm = payload?;
    match session.apply(&Command::SetTempo { bpm }) {
        Ok(()) => Ok(()),
        Err(e) => Err(command_error(e)),
    }
}

/// The id of a new track as the request gives it, parsed as `u128`.
pub open spec fn create_track_spec(
    s: SessionView,
    expected: Option<u64>,
    payload: Result<(Seq<char>, Seq<char>), HostErrorView>,
) -> (SessionView, Result<(), HostErrorView>) {
    mutation_spec(
        s,
        expected,
        payload,
        |p: (Seq<char>, Seq<char>)|
            match parse_unsigned(p.0, u128::MAX as nat) {
                None => (s, Err(host_error("invalid_payload"@, "track id must be a u128 string"@))),
                Some(id) => edit_outcome(
                    session_apply(s, CommandView::CreateTrack { id: id as u128, name: p.1 }),
                ),
            },
    )
}

/// A decoded create-track payload (id text and name) by value.
pub open spec fn track_payload_view(p: Result<(String, String), HostError>) -> Result<(Seq<char>, Seq<char>), HostErrorView> {
    match p {
        Ok((id, name)) => Ok((id@, name@)),
        Err(e) => Err(e@),
    }
}

/// `project.createTrack`: checks the revision, then the decoded payload (id
/// text and name), then that the id is a `u128`, then creates the track.
pub fn create_track(
    session: &mut ProjectSession,
    expected: Option<u64>,
    payload: Result<(String, String), HostError>,
) -> (r: Result<(), HostError>)
    ensures
        create_track_spec(old(session)@, expected, track_payload_view(payload)) == (final(session)@, result_view(r)),
{
    let actual = session.project().revision;
    require_revision(expected, actual)?;
    let (id_text, name) = payload?;
    let cs = chars_of(id_text.as_str());
    let id: EntityId = match parse_u128(cs.as_slice(), 0, cs.len()) {
        Some(v) => v,
        None => {
            assert(cs@.subrange(0, cs@.len() as int) =~= cs@);
            return Err(HostError::new("invalid_payload", String::from_str("track id must be a u128 string")));
        },
    };
    assert(cs@.subrange(0, cs@.len() as int) =~= cs@);
    match session.apply(&Command::CreateTrack { id, name }) {
        Ok(()) => Ok(()),
        Err(e) => Err(command_error(e)),
    }
}

/// `project.undo` on a session.
pub open spec fn undo_spec(s: SessionView, expected: Option<u64>) -> (SessionView, Result<(), HostErrorView>) {
    mutation_spec(s, expected, Ok::<(), HostErrorView>(()), |u: ()| edit_outcome(session_undo(s)))
}

/// `project.redo` on a session.
pub open spec fn redo_spec(s: SessionView, expected: Option<u64>) -> (SessionView, Result<(), HostErrorView>) {
    mutation_spec(s, expected, Ok::<(), HostErrorView>(()), |u: ()| edit_outcome(session_redo(s)))
}

/// `project.undo`: checks the revision, then reverts the latest command.
pub fn undo(session: &mut ProjectSession, expected: Option<u64>) -> (r: Result<(), HostError>)
    ensures
        undo_spec(old(session)@, expected) == (final(session)@, result_view(r)),
{
    let actual = session.project().revision;
    require_revision(expected, actual)?;
    match session.undo() {
        Ok(()) => Ok(()),
        Err(e) => Err(command_error(e)),
    }
}

/// `project.redo`: checks the revision, then reapplies the latest reverted
/// command.
pub fn redo(session: &mut ProjectSession, expected: Option<u64>) -> (r: Result<(), HostError>)
    ensures
        redo_spec(old(session)@, expected) == (final(session)@, result_view(r)),
{
    let actual = session.project().revision;
    require_revision(expected, actual)?;
    match session.redo() {
        Ok(()) => Ok(()),
        Err(e) => Err(command_error(e)),
    }
}

/// The id that answers a request that could not be read.
pub const UNKNOWN_REQUEST_ID: &'static str = "unknown";

/// The envelope of a response: the protocol version, the request's id, and
/// either a result (`ok`) or an error.
pub struct Envelope<T> {
    pub version: u32,
    pub id: String,
    pub ok: bool,
    pub result: Option<T>,
    pub error: Option<HostError>,
}

/// The response to the request `id` with the given outcome.
pub fn envelope<T>(id: String, outcome: Result<T, HostError>) -> (e: Envelope<T>)
    ensures
        e.version == HOST_PROTOCOL_VERSION,
        e.id@ == id@,
        e.ok == outcome is Ok,
        match outcome {
            Ok(v) => e.result == Some(v) && e.error is None,
            Err(x) => e.result is None && (e.error matches Some(y) && y@ == x@),
        },
{
    match outcome {
        Ok(v) => Envelope { version: HOST_PROTOCOL_VERSION, id, ok: true, result: Some(v), error: None },
        Err(x) => Envelope { version: HOST_PROTOCOL_VERSION, id, ok: false, result: None, error: Some(x) },
    }
}

/// The response to a request that could not be read: id `unknown`, with
/// the error `invalid_request` and the reader's message.
pub fn unreadable_request<T>(message: String) -> (e: Envelope<T>)
    ensures
        e.version == HOST_PROTOCOL_VERSION,
        e.id@ == "unknown"@,
        !e.ok,
        e.result is None,
        e.error matches Some(y) && y@ == host_error("invalid_request"@, message@),
{
    envelope(String::from_str(UNKNOWN_REQUEST_ID), Err(HostError::new("invalid_request", message)))
}

/// `transport.play` first needs a loaded sample.
pub fn require_sample(sample_loaded: bool) -> (r: Result<(), HostError>)
    ensures
        result_view(r) == (if sample_loaded {
            Ok(())
        } else {
            Err(host_error("sample_not_loaded"@, "load audio before starting transport"@))
        }),
{
    if sample_loaded {
        Ok(())
    } else {
        Err(HostError::new("sample_not_loaded", String::from_str("load audio before starting transport")))
    }
}

/// A mutating request whose expected revision is missing or stale is
/// refused with `revision_required` or `revision_conflict` and changes
/// nothing, whatever its payload.
pub proof fn lemma_stale_requests_change_nothing(
    s: SessionView,
    expected: Option<u64>,
    tempo: Result<u64, HostErrorView>,
    track: Result<(Seq<char>, Seq<char>), HostErrorView>,
)
    requires
        expected != Some(s.project.revision),
    ensures
        set_tempo_spec(s, expected, tempo).0 == s,
        create_track_spec(s, expected, track).0 == s,
        undo_spec(s, expected).0 == s,
        redo_spec(s, expected).0 == s,
        set_tempo_spec(s, expected, tempo).1 matches Err(e) && (e.code == "revision_required"@ || e.code == "revision_conflict"@),
        create_track_spec(s, expected, track).1 matches Err(e) && (e.code == "revision_required"@ || e.code == "revision_conflict"@),
        undo_spec(s, expected).1 matches Err(e) && (e.code == "revision_required"@ || e.code == "revision_conflict"@),
        redo_spec(s, expected).1 matches Err(e) && (e.code == "revision_required"@ || e.code == "revision_conflict"@),
{
}

} // verus!
