//! The per-connection audit trail: every action a visitor takes, with the time
//! since the connection started.

use vstd::prelude::*;

verus! {

pub const NANOS_PER_SEC: u32 = 1_000_000_000;

#[verifier::external_type_specification]
#[verifier::external_body]
pub struct ExInstant(std::time::Instant);

/// Relies on std's `Instant::now`: a reading of the monotonic clock.
pub assume_specification[ std::time::Instant::now ]() -> std::time::Instant;

/// Relies on uuid's `Uuid::new_v4`: a random identifier, as its 128-bit value.
#[verifier::external_body]
pub(crate) fn random_uuid() -> (r: u128) {
    uuid::Uuid::new_v4().as_u128()
}

/// Relies on time's `OffsetDateTime::now_utc`: the current time, as
/// nanoseconds since the UNIX epoch.
#[verifier::external_body]
fn now_unix_nanos() -> (r: i128) {
    time::OffsetDateTime::now_utc().unix_timestamp_nanos()
}

/// Relies on std's `Instant::elapsed`, read through `Duration::as_secs` and
/// `Duration::subsec_nanos`, which is always below one second.
#[verifier::external_body]
fn elapsed_since(start: &std::time::Instant) -> (r: Elapsed)
    ensures
        r.nanos < NANOS_PER_SEC,
{
    let d = start.elapsed();
    Elapsed { secs: d.as_secs(), nanos: d.subsec_nanos() }
}

/// A span of time: whole seconds and the nanoseconds beyond them.
#[derive(Debug, Clone, Copy, PartialEq, Eq, Structural)]
pub struct Elapsed {
    pub secs: u64,
    pub nanos: u32,
}

impl Elapsed {
    pub open spec fn total(self) -> int {
        self.secs * (NANOS_PER_SEC as int) + self.nanos
    }

    /// Whether `self` is no later than `other`.
    pub fn le(&self, other: &Elapsed) -> (r: bool)
        requires
            self.nanos < NANOS_PER_SEC,
            other.nanos < NANOS_PER_SEC,
        ensures
            r == (self.total() <= other.total()),
    {
        proof {
            assert(self.secs < other.secs ==> self.total() < other.total()) by (nonlinear_arith)
                requires
                    self.nanos < NANOS_PER_SEC,
                    other.nanos < NANOS_PER_SEC,
            ;
            assert(self.secs > other.secs ==> self.total() > other.total()) by (nonlinear_arith)
                requires
                    self.nanos < NANOS_PER_SEC,
                    other.nanos < NANOS_PER_SEC,
            ;
        }
        self.secs < other.secs || (self.secs == other.secs && self.nanos <= other.nanos)
    }
}

#[derive(Debug, PartialEq, Eq)]
pub struct MkdirEvent {
    pub path: Vec<u8>,
}

#[derive(Debug, PartialEq, Eq)]
pub struct WriteFileEvent {
    pub path: Vec<u8>,
    pub content: Vec<u8>,
}

#[derive(Debug, PartialEq, Eq)]
pub struct ExecCommandEvent {
    pub args: Vec<Vec<u8>>,
}

#[derive(Debug, PartialEq, Eq)]
pub struct WindowAdjustedEvent {
    pub new_size: usize,
}

#[derive(Debug, PartialEq, Eq)]
pub struct SubsystemRequestEvent {
    pub name: Vec<u8>,
}

#[derive(Debug, PartialEq, Eq)]
pub struct SignalEvent {
    pub name: Vec<u8>,
}

#[derive(Debug, PartialEq, Eq)]
pub enum LoginAttemptEvent {
    UsernamePassword { username: Vec<u8>, password: Vec<u8> },
    PublicKey { kind: Vec<u8>, fingerprint: Vec<u8> },
}

#[derive(Debug, PartialEq, Eq)]
pub struct PtyRequestEvent {
    pub term: Vec<u8>,
    pub col_width: u32,
    pub row_height: u32,
    pub pix_width: u32,
    pub pix_height: u32,
    pub modes: Vec<(u8, u32)>,
}

#[derive(Debug, PartialEq, Eq)]
pub struct OpenX11Event {
    pub originator_address: Vec<u8>,
    pub originator_port: u32,
}

#[derive(Debug, PartialEq, Eq)]
pub struct X11RequestEvent {
    pub single_connection: bool,
    pub x11_auth_protocol: Vec<u8>,
    pub x11_auth_cookie: Vec<u8>,
    pub x11_screen_number: u32,
}

#[derive(Debug, PartialEq, Eq)]
pub struct OpenDirectTcpIpEvent {
    pub host_to_connect: Vec<u8>,
    pub port_to_connect: u32,
    pub originator_address: Vec<u8>,
    pub originator_port: u32,
}

#[derive(Debug, PartialEq, Eq)]
pub struct WindowChangeRequestEvent {
    pub col_width: u32,
    pub row_height: u32,
    pub pix_width: u32,
    pub pix_height: u32,
}

#[derive(Debug, PartialEq, Eq)]
pub struct TcpIpForwardEvent {
    pub address: Vec<u8>,
    pub port: u32,
}

/// Something a visitor did.
#[derive(Debug, PartialEq, Eq)]
pub enum AuditLogAction {
    LoginAttempt(LoginAttemptEvent),
    PtyRequest(PtyRequestEvent),
    X11Request(X11RequestEvent),
    OpenX11(OpenX11Event),
    OpenDirectTcpIp(OpenDirectTcpIpEvent),
    ExecCommand(ExecCommandEvent),
    WindowAdjusted(WindowAdjustedEvent),
    ShellRequested,
    SubsystemRequest(SubsystemRequestEvent),
    WindowChangeRequest(WindowChangeRequestEvent),
    Signal(SignalEvent),
    TcpIpForward(TcpIpForwardEvent),
    CancelTcpIpForward(TcpIpForwardEvent),
    Mkdir(MkdirEvent),
    WriteFile(WriteFileEvent),
}

/// An action and when it happened, counted from the start of the connection.
#[derive(Debug)]
pub struct AuditLogEvent {
    pub start_offset: Elapsed,
    pub action: AuditLogAction,
}

/// Offsets that never go back in time, each a proper span.
pub open spec fn offsets_ordered(events: Seq<AuditLogEvent>) -> bool {
    &&& forall|i: int| 0 <= i < events.len() ==> (#[trigger] events[i]).start_offset.nanos
        < NANOS_PER_SEC
    &&& forall|i: int, j: int|
        0 <= i <= j < events.len() ==> (#[trigger] events[i]).start_offset.total() <= (
        #[trigger] events[j]).start_offset.total()
}

/// Everything recorded about one connection.
pub struct AuditLog {
    pub connection_id: u128,
    /// When the connection started, in nanoseconds since the UNIX epoch.
    pub ts: i128,
    pub peer_address: Option<Vec<u8>>,
    pub host: Vec<u8>,
    pub environment_variables: Vec<(Vec<u8>, Vec<u8>)>,
    pub events: Vec<AuditLogEvent>,
    pub start: std::time::Instant,
}

impl AuditLog {
    pub open spec fn wf(&self) -> bool {
        offsets_ordered(self.events@)
    }

    /// The actions recorded, in order.
    pub open spec fn actions(&self) -> Seq<AuditLogAction> {
        self.events@.map_values(|e: AuditLogEvent| e.action)
    }

    /// A log for a connection from `peer_address` to `host`, started now,
    /// with a fresh random identifier and no events.
    pub fn new(host: Vec<u8>, peer_address: Option<Vec<u8>>) -> (r: Self)
        ensures
            r.wf(),
            r.host@ == host@,
            r.peer_address == peer_address,
            r.events@.len() == 0,
            r.environment_variables@.len() == 0,
    {
        AuditLog {
            connection_id: random_uuid(),
            ts: now_unix_nanos(),
            peer_address,
            host,
            environment_variables: Vec::new(),
            events: Vec::new(),
            start: std::time::Instant::now(),
        }
    }

    /// Records `action` as the latest event. Its offset is the time since the
    /// connection started, and never earlier than the offset before it.
    pub fn push_action(&mut self, action: AuditLogAction)
        requires
            old(self).wf(),
        ensures
            final(self).wf(),
            final(self).events@.len() == old(self).events@.len() + 1,
            final(self).events@.drop_last() == old(self).events@,
            final(self).events@.last().action == action,
            final(self).actions() == old(self).actions().push(action),
            final(self).connection_id == old(self).connection_id,
            final(self).ts == old(self).ts,
            final(self).start == old(self).start,
            final(self).host == old(self).host,
            final(self).peer_address == old(self).peer_address,
            final(self).environment_variables == old(self).environment_variables,
    {
        let mut offset = elapsed_since(&self.start);
        let n = self.events.len();
        if n > 0 {
            let last = self.events[n - 1].start_offset;
            assert(self.events@[n - 1].start_offset.nanos < NANOS_PER_SEC);
            if !last.le(&offset) {
                offset = last;
            }
        }
        let ghost before = self.events@;
        self.events.push(AuditLogEvent { start_offset: offset, action });
        assert(self.events@.drop_last() =~= before);
        assert(self.actions() =~= before.map_values(|e: AuditLogEvent| e.action).push(action));
        assert forall|i: int, j: int|
            0 <= i <= j < self.events@.len() implies (#[trigger] self.events@[i]).start_offset.total()
            <= (#[trigger] self.events@[j]).start_offset.total() by {
            if j == n && i < n {
                assert(before[i].start_offset.total() <= before[n - 1].start_offset.total());
            }
        }
    }
}

/// Whether `a` records a write of `content` to `path`.
pub open spec fn is_write(a: AuditLogAction, path: Seq<u8>, content: Seq<u8>) -> bool {
    a matches AuditLogAction::WriteFile(e) && e.path@ == path && e.content@ == content
}

/// Whether `after` is `before` followed by one write action for each of `w`.
pub open spec fn appended_writes(
    before: Seq<AuditLogAction>,
    after: Seq<AuditLogAction>,
    w: Seq<(Seq<u8>, Seq<u8>)>,
) -> bool {
    &&& after.len() == before.len() + w.len()
    &&& after.take(before.len() as int) == before
    &&& forall|i: int| 0 <= i < w.len() ==> is_write(#[trigger] after[before.len() + i], w[i].0, w[i].1)
}

} // verus!
