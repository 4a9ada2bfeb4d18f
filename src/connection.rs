//! What one connection knows about its visitor: who they logged in as, their
//! fake file system, their environment and the audit trail.

use vstd::prelude::*;
use vstd::utf8::is_ascii_chars;
use crate::audit::AuditLog;
use crate::file_system::{components, dirs_along, home_of, FileSystem};
use crate::text::{ascii_bytes, bytes_eq, copy_bytes};

verus! {

/// The environment as pairs of name and value, latest last.
pub type EnvView = Seq<(Seq<u8>, Seq<u8>)>;

/// The value of variable `name`: the latest one set, else empty.
pub open spec fn env_lookup(env: EnvView, name: Seq<u8>) -> Seq<u8>
    decreases env.len(),
{
    if env.len() == 0 {
        Seq::empty()
    } else if env.last().0 == name {
        env.last().1
    } else {
        env_lookup(env.drop_last(), name)
    }
}

pub open spec fn env_view(env: Seq<(Vec<u8>, Vec<u8>)>) -> EnvView {
    env.map_values(|p: (Vec<u8>, Vec<u8>)| (p.0@, p.1@))
}

/// Whether `fs` is the file system a new session of `user` starts with.
pub open spec fn fresh_file_system(fs: FileSystem, user: Seq<u8>) -> bool {
    &&& fs.wf()
    &&& fs.home_view() == home_of(user)
    &&& fs.pwd_view() == home_of(user)
    &&& fs.entries_view() == dirs_along(Seq::empty(), components(home_of(user)))
}

/// The per-connection state that commands and subsystems work on.
pub struct ConnectionState {
    pub username: Option<Vec<u8>>,
    pub file_system: Option<FileSystem>,
    pub environment: Vec<(Vec<u8>, Vec<u8>)>,
    pub audit_log: AuditLog,
}

impl ConnectionState {
    pub open spec fn wf(&self) -> bool {
        &&& self.audit_log.wf()
        &&& (self.file_system matches Some(f) ==> f.wf())
    }

    /// The name the visitor logged in as; `root` until a login names one.
    pub open spec fn username_view(&self) -> Seq<u8> {
        match self.username {
            Some(u) => u@,
            None => ascii_bytes("root"@),
        }
    }

    /// A fresh connection: nobody logged in, no file system yet.
    pub fn new(audit_log: AuditLog) -> (r: Self)
        requires
            audit_log.wf(),
        ensures
            r.wf(),
            r.username is None,
            r.file_system is None,
            r.environment@.len() == 0,
            r.audit_log == audit_log,
    {
        ConnectionState { username: None, file_system: None, environment: Vec::new(), audit_log }
    }

    pub fn username(&self) -> (r: Vec<u8>)
        ensures
            r@ == self.username_view(),
    {
        match &self.username {
            Some(u) => copy_bytes(u.as_slice()),
            None => {
                proof {
                    reveal_strlit("root");
                    assert(is_ascii_chars("root"@));
                }
                crate::text::str_bytes("root")
            },
        }
    }

    /// Creates the file system on first use, for the current user.
    pub fn ensure_file_system(&mut self)
        requires
            old(self).wf(),
        ensures
            final(self).wf(),
            final(self).file_system is Some,
            old(self).file_system is Some ==> final(self).file_system == old(self).file_system,
            old(self).file_system is None ==> fresh_file_system(
                final(self).file_system.unwrap(),
                old(self).username_view(),
            ),
            final(self).username == old(self).username,
            final(self).environment == old(self).environment,
            final(self).audit_log == old(self).audit_log,
    {
        if self.file_system.is_none() {
            let user = self.username();
            self.file_system = Some(FileSystem::new(user.as_slice()));
        }
    }

    /// The file system, created on first use.
    pub fn file_system(&mut self) -> (r: &mut FileSystem)
        requires
            old(self).wf(),
        ensures
            r.wf(),
            old(self).file_system is Some ==> *r == old(self).file_system.unwrap(),
            old(self).file_system is None ==> fresh_file_system(*r, old(self).username_view()),
            final(self).file_system == Some(*final(r)),
            final(self).username == old(self).username,
            final(self).environment == old(self).environment,
            final(self).audit_log == old(self).audit_log,
    {
        self.ensure_file_system();
        self.file_system.as_mut().unwrap()
    }

    /// The value of an environment variable, empty when unset.
    pub fn env_get(&self, name: &[u8]) -> (r: Vec<u8>)
        ensures
            r@ == env_lookup(env_view(self.environment@), name@),
    {
        let ghost env = env_view(self.environment@);
        let mut i: usize = self.environment.len();
        assert(env.take(i as int) =~= env);
        while i > 0
            invariant
                env == env_view(self.environment@),
                0 <= i <= env.len(),
                env_lookup(env.take(i as int), name@) == env_lookup(env, name@),
            decreases i,
        {
            assert(env.take(i as int).drop_last() =~= env.take(i - 1));
            if bytes_eq(self.environment[i - 1].0.as_slice(), name) {
                return copy_bytes(self.environment[i - 1].1.as_slice());
            }
            i = i - 1;
        }
        assert(env.take(0) =~= Seq::<(Seq<u8>, Seq<u8>)>::empty());
        Vec::new()
    }
}

} // verus!
