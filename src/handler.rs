//! The connection handler: what the honeypot decides on each callback of
//! the SSH layer, and what it records.

use vstd::prelude::*;
use vstd::string::StringSliceAdditionalSpecFns;
use crate::audit::{
    AuditLog, AuditLogAction, LoginAttemptEvent, OpenDirectTcpIpEvent, OpenX11Event,
    PtyRequestEvent, SignalEvent, SubsystemRequestEvent, TcpIpForwardEvent, WindowAdjustedEvent,
    WindowChangeRequestEvent, X11RequestEvent,
};
use crate::connection::{ConnectionState, env_view};
use crate::file_system::FileSystem;
use crate::sftp::{appended_records, sftp_run, Sftp};
use std::collections::HashMap;
use crate::shell::{
    actions_view, simple_line, simple_line_actions, ActionView, SessionAction, Shell,
    SHELL_PROMPT,
};
use crate::state::StoredPasswords;
use crate::text::{copy_bytes, is_text};

verus! {

/// The answer to an authentication attempt.
#[derive(Debug, Clone, Copy, PartialEq, Eq, Structural)]
pub enum Auth {
    Accept,
    Reject,
    UnsupportedMethod,
    /// Ask for a password, without echo.
    Partial,
}

/// What a channel runs.
pub enum Subsystem {
    Shell(Shell),
    Sftp(Sftp),
}

impl Subsystem {
    pub open spec fn wf(&self) -> bool {
        match self {
            Subsystem::Shell(_) => true,
            Subsystem::Sftp(s) => s.wf(),
        }
    }
}

/// One connection: its state and the subsystem of each channel.
pub struct Connection {
    pub state: ConnectionState,
    pub subsystems: HashMap<u32, Subsystem>,
}

/// The subsystem bound to channel `ch`, if any.
pub open spec fn bound(subs: Map<u32, Subsystem>, ch: u32) -> Option<Subsystem> {
    if subs.contains_key(ch) {
        Some(subs[ch])
    } else {
        None
    }
}

/// Whether `after` is `before` with one more action at the end.
pub open spec fn appended(before: Seq<AuditLogAction>, after: Seq<AuditLogAction>) -> bool {
    after.len() == before.len() + 1 && after.drop_last() == before
}

/// Whether a login with these credentials is accepted: credentials seen
/// before always are, others when luck says so.
pub open spec fn login_accepted(stored: Set<(Seq<u8>, Seq<u8>)>, user: Seq<u8>, password: Seq<u8>, lucky: bool) -> bool {
    stored.contains((user, password)) || lucky
}

/// The credentials stored after a login attempt.
pub open spec fn stored_after(stored: Set<(Seq<u8>, Seq<u8>)>, user: Seq<u8>, password: Seq<u8>, lucky: bool) -> Set<(Seq<u8>, Seq<u8>)> {
    if login_accepted(stored, user, password, lucky) {
        stored.insert((user, password))
    } else {
        stored
    }
}

/// The credentials stored after a run of attempts, each with its luck.
pub open spec fn stored_after_all(stored: Set<(Seq<u8>, Seq<u8>)>, attempts: Seq<(Seq<u8>, Seq<u8>, bool)>) -> Set<(Seq<u8>, Seq<u8>)>
    decreases attempts.len(),
{
    if attempts.len() == 0 {
        stored
    } else {
        stored_after_all(
            stored_after(stored, attempts[0].0, attempts[0].1, attempts[0].2),
            attempts.drop_first(),
        )
    }
}

/// Credentials accepted once are accepted on every later attempt, whatever
/// the attempts in between and whatever luck says then.
pub proof fn law_accepted_stays_accepted(
    stored: Set<(Seq<u8>, Seq<u8>)>,
    user: Seq<u8>,
    password: Seq<u8>,
    lucky: bool,
    between: Seq<(Seq<u8>, Seq<u8>, bool)>,
    later_luck: bool,
)
    requires
        login_accepted(stored, user, password, lucky),
    ensures
        login_accepted(
            stored_after_all(stored_after(stored, user, password, lucky), between),
            user,
            password,
            later_luck,
        ),
    decreases between.len(),
{
    lemma_stored_grows(stored_after(stored, user, password, lucky), between, (user, password));
}

/// Attempts never forget stored credentials.
pub proof fn lemma_stored_grows(
    stored: Set<(Seq<u8>, Seq<u8>)>,
    attempts: Seq<(Seq<u8>, Seq<u8>, bool)>,
    pair: (Seq<u8>, Seq<u8>),
)
    requires
        stored.contains(pair),
    ensures
        stored_after_all(stored, attempts).contains(pair),
    decreases attempts.len(),
{
    if attempts.len() > 0 {
        lemma_stored_grows(
            stored_after(stored, attempts[0].0, attempts[0].1, attempts[0].2),
            attempts.drop_first(),
            pair,
        );
    }
}

impl Connection {
    pub open spec fn wf(&self) -> bool {
        &&& self.state.wf()
        &&& forall|c: u32| #[trigger] self.subsystems@.contains_key(c) ==> self.subsystems@[c].wf()
    }

    pub fn new(audit_log: AuditLog) -> (r: Self)
        requires
            audit_log.wf(),
        ensures
            r.wf(),
            r.state.audit_log == audit_log,
            r.state.username is None,
            r.subsystems@ == Map::<u32, Subsystem>::empty(),
    {
        broadcast use vstd::std_specs::hash::group_hash_axioms;
        let r = Connection { state: ConnectionState::new(audit_log), subsystems: HashMap::new() };
        assert(r.subsystems@ =~= Map::<u32, Subsystem>::empty());
        r
    }

    /// The user name: `root` until a login names one.
    pub fn username(&self) -> (r: Vec<u8>)
        ensures
            r@ == self.state.username_view(),
    {
        self.state.username()
    }

    pub fn file_system(&mut self) -> (r: &mut FileSystem)
        requires
            old(self).wf(),
        ensures
            r.wf(),
            final(self).state.file_system == Some(*final(r)),
            final(self).subsystems == old(self).subsystems,
            final(self).state.audit_log == old(self).state.audit_log,
    {
        self.state.file_system()
    }

    pub fn audit_log(&self) -> (r: &AuditLog)
        ensures
            *r == self.state.audit_log,
    {
        &self.state.audit_log
    }

    /// A password attempt: accepted when the pair was accepted before, or
    /// when `lucky` (the random draw against the configured probability);
    /// an accepted pair is stored. The attempt is recorded either way.
    pub fn try_login(
        &mut self,
        stored: &mut StoredPasswords,
        user: &[u8],
        password: &[u8],
        lucky: bool,
    ) -> (r: bool)
        requires
            old(self).wf(),
        ensures
            final(self).wf(),
            r == login_accepted(old(stored)@, user@, password@, lucky),
            final(stored)@ == stored_after(old(stored)@, user@, password@, lucky),
            final(self).state.username_view() == user@,
            final(self).state.audit_log.actions().len() == old(self).state.audit_log.actions().len() + 1,
            final(self).state.audit_log.actions().drop_last() == old(self).state.audit_log.actions(),
            final(self).state.audit_log.actions().last() matches AuditLogAction::LoginAttempt(
                LoginAttemptEvent::UsernamePassword { username, password: pw },
            ) && username@ == user@ && pw@ == password@,
    {
        self.state.username = Some(copy_bytes(user));
        let res = if stored.seen(user, password) {
            true
        } else if lucky {
            stored.store(user, password);
            true
        } else {
            false
        };
        proof {
            if res {
                assert(stored@ =~= old(stored)@.insert((user@, password@)));
            }
        }
        let ghost acts = self.state.audit_log.actions();
        self.state.audit_log.push_action(
            AuditLogAction::LoginAttempt(
                LoginAttemptEvent::UsernamePassword {
                    username: copy_bytes(user),
                    password: copy_bytes(password),
                },
            ),
        );
        assert(self.state.audit_log.actions().drop_last() =~= acts);
        res
    }

    pub fn auth_none(&self) -> (r: Auth)
        ensures
            r == Auth::UnsupportedMethod,
    {
        Auth::UnsupportedMethod
    }

    pub fn auth_password(
        &mut self,
        stored: &mut StoredPasswords,
        user: &[u8],
        password: &[u8],
        lucky: bool,
    ) -> (r: Auth)
        requires
            old(self).wf(),
        ensures
            final(self).wf(),
            r == if login_accepted(old(stored)@, user@, password@, lucky) {
                Auth::Accept
            } else {
                Auth::Reject
            },
            final(stored)@ == stored_after(old(stored)@, user@, password@, lucky),
            appended(old(self).state.audit_log.actions(), final(self).state.audit_log.actions()),
            final(self).state.audit_log.actions().last() matches AuditLogAction::LoginAttempt(
                LoginAttemptEvent::UsernamePassword { username, password: pw },
            ) && username@ == user@ && pw@ == password@,
    {
        if self.try_login(stored, user, password, lucky) {
            Auth::Accept
        } else {
            Auth::Reject
        }
    }

    /// Public keys are always rejected, and recorded.
    pub fn auth_publickey(&mut self, kind: &[u8], fingerprint: &[u8]) -> (r: Auth)
        requires
            old(self).wf(),
        ensures
            final(self).wf(),
            r == Auth::Reject,
            final(self).state.audit_log.actions().len() == old(self).state.audit_log.actions().len() + 1,
            final(self).state.audit_log.actions().last() matches AuditLogAction::LoginAttempt(
                LoginAttemptEvent::PublicKey { kind: k, fingerprint: f },
            ) && k@ == kind@ && f@ == fingerprint@,
    {
        self.record(
            AuditLogAction::LoginAttempt(
                LoginAttemptEvent::PublicKey { kind: copy_bytes(kind), fingerprint: copy_bytes(fingerprint) },
            ),
        );
        Auth::Reject
    }

    /// Keyboard-interactive: without a response the client is asked for a
    /// password; a response is tried as one.
    pub fn auth_keyboard_interactive(
        &mut self,
        stored: &mut StoredPasswords,
        user: &[u8],
        response: Option<&[u8]>,
        lucky: bool,
    ) -> (r: Auth)
        requires
            old(self).wf(),
        ensures
            final(self).wf(),
            response is None ==> r == Auth::Partial && final(stored)@ == old(stored)@ && *final(self)
                == *old(self),
            response matches Some(p) ==> r == if login_accepted(old(stored)@, user@, p@, lucky) {
                Auth::Accept
            } else {
                Auth::Reject
            } && final(stored)@ == stored_after(old(stored)@, user@, p@, lucky),
            response matches Some(p) ==> appended(
                old(self).state.audit_log.actions(),
                final(self).state.audit_log.actions(),
            ),
            response matches Some(p) ==> (final(self).state.audit_log.actions().last() matches AuditLogAction::LoginAttempt(
                LoginAttemptEvent::UsernamePassword { username, password: pw },
            ) && username@ == user@ && pw@ == p@),
    {
        match response {
            None => Auth::Partial,
            Some(p) => self.auth_password(stored, user, p, lucky),
        }
    }

    /// Records an action in the audit log.
    pub fn record(&mut self, action: AuditLogAction)
        requires
            old(self).wf(),
        ensures
            final(self).wf(),
            final(self).state.audit_log.actions() == old(self).state.audit_log.actions().push(action),
            appended(old(self).state.audit_log.actions(), final(self).state.audit_log.actions()),
            final(self).state.audit_log.actions().last() == action,
            final(self).subsystems == old(self).subsystems,
            final(self).state.username == old(self).state.username,
            final(self).state.environment == old(self).state.environment,
            final(self).state.file_system == old(self).state.file_system,
    {
        let ghost before = self.state.audit_log.actions();
        self.state.audit_log.push_action(action);
        assert(self.state.audit_log.actions().drop_last() =~= before);
    }

    /// A session channel is always granted.
    pub fn channel_open_session(&self) -> (r: bool)
        ensures
            r,
    {
        true
    }

    /// X11 channels are recorded and refused.
    pub fn channel_open_x11(&mut self, originator_address: &[u8], originator_port: u32) -> (r: bool)
        requires
            old(self).wf(),
        ensures
            final(self).wf(),
            !r,
            appended(old(self).state.audit_log.actions(), final(self).state.audit_log.actions()),
            final(self).state.audit_log.actions().last() matches AuditLogAction::OpenX11(e) && e.originator_address@
                == originator_address@ && e.originator_port == originator_port,
    {
        self.record(
            AuditLogAction::OpenX11(
                OpenX11Event { originator_address: copy_bytes(originator_address), originator_port },
            ),
        );
        false
    }

    /// Direct TCP/IP channels are recorded and refused.
    pub fn channel_open_direct_tcpip(
        &mut self,
        host_to_connect: &[u8],
        port_to_connect: u32,
        originator_address: &[u8],
        originator_port: u32,
    ) -> (r: bool)
        requires
            old(self).wf(),
        ensures
            final(self).wf(),
            !r,
            appended(old(self).state.audit_log.actions(), final(self).state.audit_log.actions()),
            final(self).state.audit_log.actions().last() matches AuditLogAction::OpenDirectTcpIp(e)
                && e.host_to_connect@ == host_to_connect@ && e.port_to_connect == port_to_connect
                && e.originator_address@ == originator_address@ && e.originator_port == originator_port,
    {
        self.record(
            AuditLogAction::OpenDirectTcpIp(
                OpenDirectTcpIpEvent {
                    host_to_connect: copy_bytes(host_to_connect),
                    port_to_connect,
                    originator_address: copy_bytes(originator_address),
                    originator_port,
                },
            ),
        );
        false
    }

    /// PTY requests are recorded and answered with a failure.
    pub fn pty_request(&mut self, event: PtyRequestEvent) -> (r: SessionAction)
        requires
            old(self).wf(),
        ensures
            final(self).wf(),
            r == SessionAction::Failure,
            final(self).state.audit_log.actions() == old(self).state.audit_log.actions().push(
                AuditLogAction::PtyRequest(event),
            ),
    {
        self.record(AuditLogAction::PtyRequest(event));
        SessionAction::Failure
    }

    /// X11 requests are recorded and answered with a failure.
    pub fn x11_request(&mut self, event: X11RequestEvent) -> (r: SessionAction)
        requires
            old(self).wf(),
        ensures
            final(self).wf(),
            r == SessionAction::Failure,
            final(self).state.audit_log.actions() == old(self).state.audit_log.actions().push(
                AuditLogAction::X11Request(event),
            ),
    {
        self.record(AuditLogAction::X11Request(event));
        SessionAction::Failure
    }

    /// An environment variable is recorded and set for the session.
    pub fn env_request(&mut self, name: &[u8], value: &[u8]) -> (r: SessionAction)
        requires
            old(self).wf(),
        ensures
            final(self).wf(),
            r == SessionAction::Success,
            env_view(final(self).state.environment@) == env_view(old(self).state.environment@).push((name@, value@)),
            env_view(final(self).state.audit_log.environment_variables@) == env_view(
                old(self).state.audit_log.environment_variables@,
            ).push((name@, value@)),
            final(self).state.audit_log.events == old(self).state.audit_log.events,
    {
        let ghost aenv = env_view(self.state.audit_log.environment_variables@);
        self.state.audit_log.environment_variables.push((copy_bytes(name), copy_bytes(value)));
        assert(env_view(self.state.audit_log.environment_variables@) =~= aenv.push((name@, value@)));
        let ghost before = env_view(self.state.environment@);
        self.state.environment.push((copy_bytes(name), copy_bytes(value)));
        assert(env_view(self.state.environment@) =~= before.push((name@, value@)));
        SessionAction::Success
    }

    pub fn window_change_request(&mut self, event: WindowChangeRequestEvent) -> (r: SessionAction)
        requires
            old(self).wf(),
        ensures
            final(self).wf(),
            r == SessionAction::Success,
            final(self).state.audit_log.actions() == old(self).state.audit_log.actions().push(
                AuditLogAction::WindowChangeRequest(event),
            ),
    {
        self.record(AuditLogAction::WindowChangeRequest(event));
        SessionAction::Success
    }

    pub fn signal(&mut self, name: &[u8])
        requires
            old(self).wf(),
        ensures
            final(self).wf(),
            appended(old(self).state.audit_log.actions(), final(self).state.audit_log.actions()),
            final(self).state.audit_log.actions().last() matches AuditLogAction::Signal(e) && e.name@ == name@,
    {
        self.record(AuditLogAction::Signal(SignalEvent { name: copy_bytes(name) }));
    }

    /// Forwarding is recorded and refused.
    pub fn tcpip_forward(&mut self, address: &[u8], port: u32) -> (r: bool)
        requires
            old(self).wf(),
        ensures
            final(self).wf(),
            !r,
            appended(old(self).state.audit_log.actions(), final(self).state.audit_log.actions()),
            final(self).state.audit_log.actions().last() matches AuditLogAction::TcpIpForward(e) && e.address@ == address@
                && e.port == port,
    {
        self.record(AuditLogAction::TcpIpForward(TcpIpForwardEvent { address: copy_bytes(address), port }));
        false
    }

    pub fn cancel_tcpip_forward(&mut self, address: &[u8], port: u32) -> (r: bool)
        requires
            old(self).wf(),
        ensures
            final(self).wf(),
            !r,
            appended(old(self).state.audit_log.actions(), final(self).state.audit_log.actions()),
            final(self).state.audit_log.actions().last() matches AuditLogAction::CancelTcpIpForward(e) && e.address@
                == address@ && e.port == port,
    {
        self.record(
            AuditLogAction::CancelTcpIpForward(TcpIpForwardEvent { address: copy_bytes(address), port }),
        );
        false
    }

    pub fn window_adjusted(&mut self, new_size: usize)
        requires
            old(self).wf(),
        ensures
            final(self).wf(),
            final(self).state.audit_log.actions() == old(self).state.audit_log.actions().push(
                AuditLogAction::WindowAdjusted(WindowAdjustedEvent { new_size }),
            ),
    {
        self.record(AuditLogAction::WindowAdjusted(WindowAdjustedEvent { new_size }));
    }

    /// Binds a subsystem to a channel, replacing any bound before.
    fn install(&mut self, channel: u32, subsystem: Subsystem)
        requires
            old(self).wf(),
            subsystem.wf(),
        ensures
            final(self).wf(),
            final(self).state == old(self).state,
            final(self).subsystems@ == old(self).subsystems@.insert(channel, subsystem),
            bound(final(self).subsystems@, channel) == Some(subsystem),
            forall|c: u32| c != channel ==> bound(final(self).subsystems@, c) == bound(old(self).subsystems@, c),
    {
        broadcast use vstd::std_specs::hash::group_hash_axioms;
        self.subsystems.insert(channel, subsystem);
    }

    /// A shell: recorded, started interactively on the channel, granted.
    pub fn shell_request(&mut self, channel: u32, actions: &mut Vec<SessionAction>)
        requires
            old(self).wf(),
        ensures
            final(self).wf(),
            final(self).state.audit_log.actions() == old(self).state.audit_log.actions().push(
                AuditLogAction::ShellRequested,
            ),
            actions_view(final(actions)@) == actions_view(old(actions)@) + seq![
                ActionView::Data(SHELL_PROMPT.spec_bytes()),
                ActionView::Success,
            ],
            bound(final(self).subsystems@, channel) matches Some(Subsystem::Shell(sh)) && sh.interactive
                && sh.state is Prompt,
            forall|c: u32| c != channel ==> bound(final(self).subsystems@, c) == bound(old(self).subsystems@, c),
    {
        let ghost a0 = actions@;
        self.record(AuditLogAction::ShellRequested);
        let shell = Shell::new(true, actions);
        self.install(channel, Subsystem::Shell(shell));
        actions.push(SessionAction::Success);
        proof {
            assert(actions@.drop_last().drop_last() =~= a0);
            assert(actions_view(actions@) =~= actions_view(a0) + seq![
                ActionView::Data(SHELL_PROMPT.spec_bytes()),
                ActionView::Success,
            ]);
        }
    }

    /// A command to run: a shell that is not interactive runs it as its
    /// first line.
    pub fn exec_request(&mut self, channel: u32, data: &[u8], actions: &mut Vec<SessionAction>)
        requires
            old(self).wf(),
        ensures
            final(self).wf(),
            final(actions)@.last() == SessionAction::Success,
            final(self).state.audit_log.actions().drop_last() == old(self).state.audit_log.actions()
                && (final(self).state.audit_log.actions().last() matches AuditLogAction::ExecCommand(e)
                && e.args@.len() == 1 && e.args@[0]@ == data@),
            simple_line(data@, env_view(old(self).state.environment@), old(self).state.username_view())
                matches Some((o, close, status)) ==> actions_view(final(actions)@) == actions_view(
                old(actions)@,
            ) + simple_line_actions(o, close, status, false).push(ActionView::Success),
    {
        let ghost a0 = actions@;
        let mut shell = Shell::new(false, actions);
        let ghost acts = self.state.audit_log.actions();
        shell.data(&mut self.state, data, actions);
        assert(self.state.audit_log.actions().drop_last() =~= acts);
        self.install(channel, Subsystem::Shell(shell));
        let ghost a1 = actions@;
        actions.push(SessionAction::Success);
        assert(actions_view(actions@) =~= actions_view(a1).push(ActionView::Success));
    }

    /// A subsystem: recorded; `sftp` is started and granted, anything else
    /// refused.
    pub fn subsystem_request(&mut self, channel: u32, name: &[u8]) -> (r: SessionAction)
        requires
            old(self).wf(),
        ensures
            final(self).wf(),
            r == if name@ == "sftp".spec_bytes() {
                SessionAction::Success
            } else {
                SessionAction::Failure
            },
            appended(old(self).state.audit_log.actions(), final(self).state.audit_log.actions()),
            final(self).state.audit_log.actions().last() matches AuditLogAction::SubsystemRequest(e) && e.name@
                == name@,
            name@ == "sftp".spec_bytes() ==> (bound(final(self).subsystems@, channel) matches Some(
                Subsystem::Sftp(sf),
            ) && sf.files() == crate::sftp::Files::empty() && sf.pending().len() == 0),
            name@ == "sftp".spec_bytes() ==> forall|c: u32|
                c != channel ==> bound(final(self).subsystems@, c) == bound(old(self).subsystems@, c),
            name@ != "sftp".spec_bytes() ==> final(self).subsystems == old(self).subsystems,
    {
        self.record(AuditLogAction::SubsystemRequest(SubsystemRequestEvent { name: copy_bytes(name) }));
        if is_text(name, "sftp") {
            self.install(channel, Subsystem::Sftp(Sftp::new()));
            SessionAction::Success
        } else {
            SessionAction::Failure
        }
    }

    /// End of input on a channel: with a subsystem bound it exits with 0 and
    /// succeeds, else fails; the channel is closed either way, and no
    /// subsystem stays bound to it.
    pub fn channel_eof(&mut self, channel: u32) -> (r: Vec<SessionAction>)
        requires
            old(self).wf(),
        ensures
            final(self).wf(),
            final(self).state == old(self).state,
            bound(old(self).subsystems@, channel) is Some ==> r@ == seq![
                SessionAction::ExitStatus(0),
                SessionAction::Success,
                SessionAction::Close,
            ],
            bound(old(self).subsystems@, channel) is None ==> r@ == seq![
                SessionAction::Failure,
                SessionAction::Close,
            ],
            final(self).subsystems@ == old(self).subsystems@.remove(channel),
    {
        broadcast use vstd::std_specs::hash::group_hash_axioms;
        let mut r: Vec<SessionAction> = Vec::new();
        match self.subsystems.remove(&channel) {
            Some(_) => {
                r.push(SessionAction::ExitStatus(0));
                r.push(SessionAction::Success);
            },
            None => {
                r.push(SessionAction::Failure);
            },
        }
        r.push(SessionAction::Close);
        proof {
            if old(self).subsystems@.contains_key(channel) {
                assert(r@ =~= seq![SessionAction::ExitStatus(0), SessionAction::Success, SessionAction::Close]);
            } else {
                assert(r@ =~= seq![SessionAction::Failure, SessionAction::Close]);
            }
        }
        r
    }

    /// Data on a channel goes to its subsystem; what the subsystem sends
    /// back is appended to `actions`: for a shell, what `Shell::data`
    /// sends; for SFTP, the replies as one `Data` when there are any, then
    /// `Success`. Data on a channel without a subsystem changes nothing.
    pub fn data(&mut self, channel: u32, data: &[u8], actions: &mut Vec<SessionAction>)
        requires
            old(self).wf(),
        ensures
            final(self).wf(),
            bound(old(self).subsystems@, channel) is None ==> *final(self) == *old(self),
            bound(old(self).subsystems@, channel) is None ==> final(actions)@ == old(actions)@,
            forall|c: u32| c != channel ==> bound(final(self).subsystems@, c) == bound(old(self).subsystems@, c),
            bound(old(self).subsystems@, channel) matches Some(Subsystem::Shell(sh)) ==> shell_data_done(
                sh,
                old(self).state,
                data@,
                bound(final(self).subsystems@, channel),
                final(self).state,
                old(actions)@,
                final(actions)@,
            ),
            bound(old(self).subsystems@, channel) matches Some(Subsystem::Sftp(sf)) ==> sftp_data_done(
                sf,
                old(self).state,
                data@,
                bound(final(self).subsystems@, channel),
                final(self).state,
                old(actions)@,
                final(actions)@,
            ),
    {
        broadcast use vstd::std_specs::hash::group_hash_axioms;
        if !self.subsystems.contains_key(&channel) {
            return;
        }
        let sub = match self.subsystems.remove(&channel) {
            Some(sub) => sub,
            None => {
                return;
            },
        };
        let sub = match sub {
            Subsystem::Shell(shell) => Subsystem::Shell(shell_data(shell, &mut self.state, data, actions)),
            Subsystem::Sftp(sftp) => Subsystem::Sftp(sftp_data(sftp, &mut self.state, data, actions)),
        };
        self.subsystems.insert(channel, sub);
        proof {
            assert(self.subsystems@ =~= old(self).subsystems@.insert(channel, sub));
        }
    }
}

fn shell_data(
    shell: Shell,
    connection: &mut ConnectionState,
    data: &[u8],
    actions: &mut Vec<SessionAction>,
) -> (r: Shell)
    requires
        old(connection).wf(),
    ensures
        final(connection).wf(),
        shell_data_done(
            shell,
            *old(connection),
            data@,
            Some(Subsystem::Shell(r)),
            *final(connection),
            old(actions)@,
            final(actions)@,
        ),
{
    let mut shell = shell;
    let ghost acts = connection.audit_log.actions();
    let ghost at_prompt = shell.state is Prompt;
    shell.data(connection, data, actions);
    proof {
        reveal(shell_data_done);
        if at_prompt {
            assert(connection.audit_log.actions().drop_last() =~= acts);
        }
    }
    shell
}

fn sftp_data(
    sftp: Sftp,
    connection: &mut ConnectionState,
    data: &[u8],
    actions: &mut Vec<SessionAction>,
) -> (r: Sftp)
    requires
        sftp.wf(),
        old(connection).wf(),
    ensures
        r.wf(),
        final(connection).wf(),
        sftp_data_done(
            sftp,
            *old(connection),
            data@,
            Some(Subsystem::Sftp(r)),
            *final(connection),
            old(actions)@,
            final(actions)@,
        ),
{
    let mut sftp = sftp;
    let mut out: Vec<u8> = Vec::new();
    sftp.data(connection, data, &mut out);
    let ghost a1 = actions@;
    let ghost ov = out@;
    if out.len() > 0 {
        actions.push(SessionAction::Data(out));
    }
    actions.push(SessionAction::Success);
    proof {
        reveal(sftp_data_done);
        if ov.len() > 0 {
            assert(actions_view(actions@) =~= actions_view(a1) + seq![ActionView::Data(ov), ActionView::Success]);
        } else {
            assert(actions_view(actions@) =~= actions_view(a1) + seq![ActionView::Success]);
        }
        assert(ov =~= Seq::<u8>::empty() + ov);
    }
    sftp
}

/// What `Shell::data` states of a shell given `data`: it stays a shell of
/// the same kind; at the prompt the line is recorded, and a line without
/// substitutions that runs a built-in which never waits sends exactly its
/// output, status, and a close or the prompt.
#[verifier::opaque]
pub open spec fn shell_data_done(
    sh: Shell,
    conn: ConnectionState,
    data: Seq<u8>,
    after: Option<Subsystem>,
    conn_after: ConnectionState,
    actions: Seq<SessionAction>,
    actions_after: Seq<SessionAction>,
) -> bool {
    &&& after matches Some(Subsystem::Shell(sh2)) && sh2.interactive == sh.interactive
    &&& conn_after.username == conn.username
    &&& conn_after.environment == conn.environment
    &&& sh.state is Prompt ==> appended(conn.audit_log.actions(), conn_after.audit_log.actions())
    &&& sh.state is Prompt ==> (conn_after.audit_log.actions().last() matches AuditLogAction::ExecCommand(e)
        && e.args@.len() == 1 && e.args@[0]@ == data)
    &&& (sh.state is Prompt && simple_line(data, env_view(conn.environment@), conn.username_view())
        is Some) ==> ({
        let (o, close, status) = simple_line(data, env_view(conn.environment@), conn.username_view())->Some_0;
        actions_view(actions_after) == actions_view(actions) + simple_line_actions(
            o,
            close,
            status,
            sh.interactive,
        )
    })
}

/// What `Sftp::data` states of an SFTP subsystem given `data`, with the
/// replies sent as one `Data` when there are any, then `Success`.
#[verifier::opaque]
pub open spec fn sftp_data_done(
    sf: Sftp,
    conn: ConnectionState,
    data: Seq<u8>,
    after: Option<Subsystem>,
    conn_after: ConnectionState,
    actions: Seq<SessionAction>,
    actions_after: Seq<SessionAction>,
) -> bool {
    &&& after matches Some(Subsystem::Sftp(sf2))
    &&& conn_after.username == conn.username
    &&& conn_after.file_system == conn.file_system
    &&& conn_after.environment == conn.environment
    &&& exists|ids: Seq<u128>| {
        let run = #[trigger] sftp_run(sf.files(), sf.pending() + data, ids);
        &&& after matches Some(Subsystem::Sftp(sf2)) && sf2.files() == run.0 && sf2.pending() == run.3
        &&& appended_records(conn.audit_log.actions(), conn_after.audit_log.actions(), run.2)
        &&& actions_view(actions_after) == actions_view(actions) + if run.1.len() > 0 {
            seq![ActionView::Data(run.1), ActionView::Success]
        } else {
            seq![ActionView::Success]
        }
    }
}

} // verus!
