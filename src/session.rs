//! The lifecycle of a privileged session.
//!
//! A session starts by spawning the escalation provider with the shell as
//! its argument. It then asks the shell who it runs as, and becomes ready
//! only when the answer is the superuser. Teardown tells the shell to exit
//! and reaps it, once: a second teardown finds nothing left to do.
use vstd::prelude::*;

use crate::framing::{response_text, sentinel};
use crate::text::{lemma_trimmed_idempotent, remove_all, trim, trimmed};

verus! {

/// The escalation provider used when none is named.
pub const DEFAULT_PROVIDER: &'static str = "pkexec";

/// The shell used when none is named.
pub const DEFAULT_SHELL: &'static str = "sh";

/// The command that reports the identity the shell runs as.
pub const IDENTITY_CHECK: &'static str = "whoami";

/// The identity a privileged shell must report.
pub const PRIVILEGED_USER: &'static str = "root";

/// The command that makes the shell exit.
pub const EXIT_COMMAND: &'static str = "exit";

/// Why a session could not be opened or used.
#[derive(Clone, Copy, Debug, PartialEq, Eq, Structural)]
pub enum ShellError {
    /// The provider or the shell could not be launched.
    Spawn,
    /// The shell did not confirm that it runs as the superuser.
    PrivilegeCheck,
    /// Writing to or reading from the shell failed.
    Io,
}

/// Where a session stands.
#[derive(Clone, Copy, Debug, PartialEq, Eq, Structural)]
pub enum Phase {
    /// Nothing has been spawned yet.
    Starting,
    /// The shell runs; its identity is not confirmed.
    Verifying,
    /// The shell runs as the superuser and takes commands.
    Ready,
    /// The shell has been told to exit and reaped, or was never spawned.
    Closed,
}

/// Whether a shell process is alive in this phase.
pub open spec fn has_process(p: Phase) -> bool {
    p == Phase::Verifying || p == Phase::Ready
}

/// Whether an identity answer names the superuser, once trimmed.
pub open spec fn is_privileged(answer: Seq<char>) -> bool {
    trimmed(answer) == PRIVILEGED_USER@
}

/// One teardown step: whether the exit sequence must be performed, and the
/// phase after it.
pub open spec fn exit_step(p: Phase) -> (bool, Phase) {
    (has_process(p), Phase::Closed)
}

/// The decisions of one session, from its spawn to its teardown.
pub struct Lifecycle {
    phase: Phase,
}

impl View for Lifecycle {
    type V = Phase;

    closed spec fn view(&self) -> Phase {
        self.phase
    }
}

impl Lifecycle {
    /// A session about to be spawned.
    pub fn new() -> (r: Self)
        ensures
            r@ == Phase::Starting,
    {
        Lifecycle { phase: Phase::Starting }
    }

    /// The current phase.
    pub fn phase(&self) -> (r: Phase)
        ensures
            r == self@,
    {
        self.phase
    }

    /// Records whether the provider could be launched. A launch failure is a
    /// spawn failure and leaves nothing to tear down.
    pub fn spawn_finished(&mut self, spawned: bool) -> (r: Result<(), ShellError>)
        requires
            old(self)@ == Phase::Starting,
        ensures
            spawned ==> r == Ok::<(), ShellError>(()) && final(self)@ == Phase::Verifying,
            !spawned ==> r == Err::<(), ShellError>(ShellError::Spawn) && final(self)@
                == Phase::Closed,
    {
        if spawned {
            self.phase = Phase::Verifying;
            Ok(())
        } else {
            self.phase = Phase::Closed;
            Err(ShellError::Spawn)
        }
    }

    /// Records the shell's answer to the identity check; `None` when the
    /// shell ended or the pipes failed before it answered. The session is
    /// ready exactly when the answer names the superuser; otherwise the
    /// check failed and the shell still has to be torn down.
    pub fn identity_reported(&mut self, answer: Option<&str>) -> (r: Result<(), ShellError>)
        requires
            old(self)@ == Phase::Verifying,
        ensures
            r is Ok <==> (answer matches Some(a) && is_privileged(a@)),
            r is Ok ==> final(self)@ == Phase::Ready,
            r is Err ==> r == Err::<(), ShellError>(ShellError::PrivilegeCheck) && final(self)@
                == Phase::Verifying,
    {
        match answer {
            Some(a) => {
                let t = trim(a);
                if t == String::from_str(PRIVILEGED_USER) {
                    self.phase = Phase::Ready;
                    Ok(())
                } else {
                    Err(ShellError::PrivilegeCheck)
                }
            },
            None => Err(ShellError::PrivilegeCheck),
        }
    }

    /// Whether commands may be sent.
    pub fn can_execute(&self) -> (r: bool)
        ensures
            r == (self@ == Phase::Ready),
    {
        self.phase == Phase::Ready
    }

    /// Starts teardown: returns whether the shell must be told to exit and
    /// reaped. Afterwards the session is closed, whatever the reaping gives.
    pub fn begin_exit(&mut self) -> (r: bool)
        ensures
            (r, final(self)@) == exit_step(old(self)@),
    {
        let alive = self.phase == Phase::Verifying || self.phase == Phase::Ready;
        self.phase = Phase::Closed;
        alive
    }
}

/// A session is ready only when the identity check, run through the framing
/// protocol, answered the superuser's name itself: the answer of a response
/// is already trimmed, so it passes the check exactly when it is that name.
pub proof fn lemma_identity_answer(raw: Seq<char>)
    ensures
        is_privileged(response_text(raw)) <==> response_text(raw) == PRIVILEGED_USER@,
{
    lemma_trimmed_idempotent(remove_all(raw, sentinel()));
}

/// Teardown is idempotent: after one teardown step, from any phase, a second
/// one has nothing to do and leaves the session closed.
pub proof fn lemma_exit_twice(p: Phase)
    ensures
        exit_step(exit_step(p).1) == (false, Phase::Closed),
{
}

} // verus!
