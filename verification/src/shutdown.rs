//! The shutdown coordinator: it turns the one external close-request signal
//! into a close-sequence run, and defers process termination until that run
//! finishes — or asks for it at once when there is no close sequence. A
//! close request that arrives while any run is in flight is ignored
//! entirely: the run finishes undisturbed and the process stays alive.

use crate::sequencer::{emissions, KnockKind, Notification, SequenceRun, Sequencer};
use vstd::prelude::*;

verus! {

/// What a close-request signal led to.
#[derive(Clone, Copy, PartialEq, Eq, Structural, Debug)]
pub enum CloseDecision {
    /// A run was in flight: the signal is dropped, nothing changes.
    Ignored,
    /// No close sequence is configured: terminate at once.
    TerminateNow,
    /// The close run was started; termination waits for its completion.
    CloseRunStarted,
}

/// Owns the one `closeRequested` flag: set at most once, never reset.
pub struct ShutdownCoordinator {
    pub close_requested: bool,
}

/// Termination is requested exactly when a close run completes after a close
/// request was accepted.
pub open spec fn terminates_on(c: ShutdownCoordinator, kind: KnockKind) -> bool {
    kind == KnockKind::Close && c.close_requested
}

/// What handling one close-request signal does. While the sequencer is busy
/// the signal is ignored outright: no flag is set, no run is started. On an
/// idle sequencer the flag is set; an empty close sequence terminates at
/// once, a non-empty one becomes the single close run.
pub open spec fn close_signal_post(
    pre_c: ShutdownCoordinator,
    post_c: ShutdownCoordinator,
    pre_s: Sequencer,
    post_s: Sequencer,
    ports: Vec<u16>,
    host: String,
    delay: u64,
    decision: CloseDecision,
) -> bool {
    &&& (pre_s.busy() ==> decision == CloseDecision::Ignored && post_c == pre_c && post_s
        == pre_s)
    &&& (!pre_s.busy() && ports@.len() == 0 ==> decision == CloseDecision::TerminateNow
        && post_c.close_requested && post_s == pre_s)
    &&& (!pre_s.busy() && ports@.len() > 0 ==> decision == CloseDecision::CloseRunStarted
        && post_c.close_requested && post_s.run == Some(
        SequenceRun { kind: KnockKind::Close, next_index: 0, ports, host, delay },
    ))
    &&& (pre_c.close_requested ==> post_c.close_requested)
}

impl ShutdownCoordinator {
    /// Initially no close has been requested.
    pub fn new() -> (c: ShutdownCoordinator)
        ensures
            !c.close_requested,
    {
        ShutdownCoordinator { close_requested: false }
    }

    /// Handles the external close-request signal.
    pub fn on_close_signal(
        &mut self,
        seq: &mut Sequencer,
        close_ports: Vec<u16>,
        host: String,
        delay: u64,
    ) -> (decision: CloseDecision)
        requires
            old(seq).wf(),
        ensures
            final(seq).wf(),
            close_signal_post(
                *old(self),
                *final(self),
                *old(seq),
                *final(seq),
                close_ports,
                host,
                delay,
                decision,
            ),
    {
        if seq.is_busy() {
            return CloseDecision::Ignored;
        }
        self.close_requested = true;
        if close_ports.len() == 0 {
            return CloseDecision::TerminateNow;
        }
        let _accepted = seq.start(KnockKind::Close, close_ports, host, delay);
        CloseDecision::CloseRunStarted
    }

    /// Asks whether a run that has just completed must now terminate the
    /// process: only a close run, and only under a pending close request. An
    /// open run never triggers exit.
    pub fn should_terminate(&self, kind: KnockKind) -> (t: bool)
        ensures
            t == terminates_on(*self, kind),
    {
        match kind {
            KnockKind::Close => self.close_requested,
            KnockKind::Open => false,
        }
    }
}

/// A close request that arrives while a run of either kind is in flight
/// changes nothing: no second run starts, `closeRequested` is never set, and
/// no termination is requested.
pub proof fn lemma_close_request_while_busy_ignored(
    pre_c: ShutdownCoordinator,
    post_c: ShutdownCoordinator,
    pre_s: Sequencer,
    post_s: Sequencer,
    ports: Vec<u16>,
    host: String,
    delay: u64,
    decision: CloseDecision,
)
    requires
        pre_s.busy(),
        close_signal_post(pre_c, post_c, pre_s, post_s, ports, host, delay, decision),
    ensures
        decision == CloseDecision::Ignored,
        post_c == pre_c,
        post_c.close_requested == pre_c.close_requested,
        post_s == pre_s,
        !terminates_on(post_c, KnockKind::Close) || pre_c.close_requested,
{
}

/// A close request on an idle sequencer with an empty close sequence asks
/// for termination immediately, and no run — hence no step — is started.
pub proof fn lemma_empty_close_terminates_now(
    pre_c: ShutdownCoordinator,
    post_c: ShutdownCoordinator,
    pre_s: Sequencer,
    post_s: Sequencer,
    ports: Vec<u16>,
    host: String,
    delay: u64,
    decision: CloseDecision,
)
    requires
        !pre_s.busy(),
        ports@.len() == 0,
        close_signal_post(pre_c, post_c, pre_s, post_s, ports, host, delay, decision),
    ensures
        decision == CloseDecision::TerminateNow,
        post_c.close_requested,
        !post_s.busy(),
{
}

/// A close request on an idle sequencer with a non-empty close sequence
/// starts the close run; that run will emit exactly one step per close port,
/// in order, then its completion — and at that completion, and only for a
/// close run, termination is requested.
pub proof fn lemma_close_request_drains_then_terminates(
    pre_c: ShutdownCoordinator,
    post_c: ShutdownCoordinator,
    pre_s: Sequencer,
    post_s: Sequencer,
    ports: Vec<u16>,
    host: String,
    delay: u64,
    decision: CloseDecision,
)
    requires
        !pre_s.busy(),
        ports@.len() > 0,
        close_signal_post(pre_c, post_c, pre_s, post_s, ports, host, delay, decision),
    ensures
        decision == CloseDecision::CloseRunStarted,
        post_s.busy(),
        post_c.close_requested,
        emissions(post_s.cur()).len() == ports@.len() + 1,
        forall|i: int|
            0 <= i < ports@.len() ==> emissions(post_s.cur())[i] == (Notification::StepCompleted {
                index: i as usize,
                port: ports@[i],
                kind: KnockKind::Close,
            }),
        emissions(post_s.cur())[ports@.len() as int] == (Notification::SequenceCompleted {
            kind: KnockKind::Close,
        }),
        terminates_on(post_c, KnockKind::Close),
        !terminates_on(post_c, KnockKind::Open),
{
    crate::sequencer::lemma_emissions_shape(KnockKind::Close, ports@, 0);
}

} // verus!
