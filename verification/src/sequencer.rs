//! The knock sequencer: a restartable, single-flight state machine that
//! drives one ordered, timed pass over a port sequence. The sequencer holds
//! the decisions only; the caller performs each probe and delay, then reports
//! back, so every probe outcome is ignored by construction and no two steps
//! are ever in flight at once.

use vstd::prelude::*;

verus! {

/// Which of the two configured sequences a run knocks.
#[derive(Clone, Copy, PartialEq, Eq, Structural, Debug)]
pub enum KnockKind {
    Open,
    Close,
}

/// A progress event, one per knocked port, then one per finished run.
#[derive(Clone, Copy, PartialEq, Eq, Structural, Debug)]
pub enum Notification {
    /// Step `index` of the running sequence delivered its knock on `port`.
    StepCompleted { index: usize, port: u16, kind: KnockKind },
    /// The whole sequence has been knocked.
    SequenceCompleted { kind: KnockKind },
}

/// The state of one run: which kind it is, the next port position to knock,
/// and the sequence, host and inter-knock delay it was started with.
pub struct SequenceRun {
    pub kind: KnockKind,
    pub next_index: usize,
    pub ports: Vec<u16>,
    pub host: String,
    pub delay: u64,
}

/// The sequencer: at most one run exists at any time, and `busy` is exactly
/// the existence of that run.
pub struct Sequencer {
    pub run: Option<SequenceRun>,
}

/// The notification that finishing the next step of `r` emits.
pub open spec fn step_note(r: SequenceRun) -> Notification {
    Notification::StepCompleted {
        index: r.next_index,
        port: r.ports@[r.next_index as int],
        kind: r.kind,
    }
}

/// Every notification a run over `ports` will emit from position `i` on, in
/// order: one `StepCompleted` per remaining port, then one
/// `SequenceCompleted`.
pub open spec fn emissions_from(kind: KnockKind, ports: Seq<u16>, i: int) -> Seq<Notification>
    decreases ports.len() - i,
{
    if 0 <= i < ports.len() {
        seq![
            Notification::StepCompleted { index: i as usize, port: ports[i], kind },
        ] + emissions_from(kind, ports, i + 1)
    } else {
        seq![Notification::SequenceCompleted { kind }]
    }
}

/// Every notification that the rest of run `r` will emit, in order.
pub open spec fn emissions(r: SequenceRun) -> Seq<Notification> {
    emissions_from(r.kind, r.ports@, r.next_index as int)
}

/// What `start` does: accepted exactly when idle and given a non-empty
/// sequence; an accepted start creates the one run at position zero; a
/// rejected start changes nothing at all.
pub open spec fn start_post(
    pre: Sequencer,
    post: Sequencer,
    kind: KnockKind,
    ports: Vec<u16>,
    host: String,
    delay: u64,
    accepted: bool,
) -> bool {
    &&& accepted == (!pre.busy() && ports@.len() > 0)
    &&& (accepted ==> post.run == Some(
        SequenceRun { kind, next_index: 0, ports, host, delay },
    ))
    &&& (!accepted ==> post == pre)
}

impl Sequencer {
    /// A run is in flight.
    pub open spec fn busy(self) -> bool {
        self.run is Some
    }

    /// The run in flight.
    pub open spec fn cur(self) -> SequenceRun
        recommends
            self.busy(),
    {
        self.run->Some_0
    }

    /// A run never outlives its sequence: its position stays within the
    /// non-empty port list.
    pub open spec fn wf(self) -> bool {
        self.busy() ==> 0 < self.cur().ports@.len() && self.cur().next_index
            < self.cur().ports@.len()
    }

    /// An idle sequencer.
    pub fn new() -> (s: Sequencer)
        ensures
            !s.busy(),
            s.wf(),
    {
        Sequencer { run: None }
    }

    pub fn is_busy(&self) -> (b: bool)
        ensures
            b == self.busy(),
    {
        self.run.is_some()
    }

    /// Requests a run. A no-op returning `false` while a run is in flight or
    /// for an empty sequence; otherwise the one run is created at position
    /// zero and `busy` becomes true.
    pub fn start(&mut self, kind: KnockKind, ports: Vec<u16>, host: String, delay: u64) -> (accepted:
        bool)
        requires
            old(self).wf(),
        ensures
            final(self).wf(),
            start_post(*old(self), *final(self), kind, ports, host, delay, accepted),
            accepted == (!old(self).busy() && ports@.len() > 0),
            final(self).busy() == (old(self).busy() || accepted),
    {
        if self.run.is_some() {
            return false;
        }
        if ports.len() == 0 {
            return false;
        }
        self.run = Some(SequenceRun { kind, next_index: 0, ports, host, delay });
        true
    }

    /// The port the next probe must knock.
    pub fn current_port(&self) -> (p: u16)
        requires
            self.wf(),
            self.busy(),
        ensures
            p == self.cur().ports@[self.cur().next_index as int],
    {
        let r = self.run.as_ref().unwrap();
        r.ports[r.next_index]
    }

    /// Reports that the probe for the current position, and the delay after
    /// it, have finished — whatever the probe's outcome was. Emits the
    /// `StepCompleted` notification for that position; on the last position
    /// the run is destroyed, `busy` falls back to false, and the
    /// `SequenceCompleted` notification is emitted with it.
    pub fn advance(&mut self) -> (r: (Notification, Option<Notification>))
        requires
            old(self).wf(),
            old(self).busy(),
        ensures
            final(self).wf(),
            r.0 == step_note(old(self).cur()),
            old(self).cur().next_index + 1 == old(self).cur().ports@.len() ==> {
                &&& r.1 == Some(Notification::SequenceCompleted { kind: old(self).cur().kind })
                &&& !final(self).busy()
            },
            old(self).cur().next_index + 1 < old(self).cur().ports@.len() ==> {
                &&& r.1 is None
                &&& final(self).busy()
                &&& final(self).cur().kind == old(self).cur().kind
                &&& final(self).cur().next_index == old(self).cur().next_index + 1
                &&& final(self).cur().ports == old(self).cur().ports
                &&& final(self).cur().host == old(self).cur().host
                &&& final(self).cur().delay == old(self).cur().delay
            },
            emissions(old(self).cur()) == notes_of(r) + (if final(self).busy() {
                emissions(final(self).cur())
            } else {
                Seq::<Notification>::empty()
            }),
    {
        let mut taken: Option<SequenceRun> = None;
        core::mem::swap(&mut taken, &mut self.run);
        let run = taken.unwrap();
        let idx = run.next_index;
        let len = run.ports.len();
        let port = run.ports[idx];
        let kind = run.kind;
        let note = Notification::StepCompleted { index: idx, port, kind };
        if idx + 1 == len {
            proof {
                assert(emissions_from(kind, run.ports@, idx + 1) =~= seq![
                    Notification::SequenceCompleted { kind },
                ]);
                assert(emissions(old(self).cur()) =~= seq![note, Notification::SequenceCompleted {
                    kind,
                }]);
                assert(notes_of((note, Some(Notification::SequenceCompleted { kind })))
                    + Seq::<Notification>::empty() =~= emissions(old(self).cur()));
            }
            (note, Some(Notification::SequenceCompleted { kind }))
        } else {
            let next = SequenceRun {
                kind: run.kind,
                next_index: idx + 1,
                ports: run.ports,
                host: run.host,
                delay: run.delay,
            };
            self.run = Some(next);
            proof {
                assert(emissions(old(self).cur()) =~= seq![note] + emissions(
                    final(self).cur(),
                ));
                assert(notes_of((note, None::<Notification>)) + emissions(final(self).cur()) =~= seq![note]
                    + emissions(final(self).cur()));
            }
            (note, None)
        }
    }
}

/// The notifications one `advance` call hands back, in order.
pub open spec fn notes_of(r: (Notification, Option<Notification>)) -> Seq<Notification> {
    match r.1 {
        Some(n2) => seq![r.0, n2],
        None => seq![r.0],
    }
}

/// The shape of everything a run emits from any position it has reached: one
/// `StepCompleted` per remaining position, indices ascending, ports taken in
/// sequence order, closed by exactly one `SequenceCompleted`.
pub proof fn lemma_emissions_shape(kind: KnockKind, ports: Seq<u16>, start: int)
    requires
        0 <= start <= ports.len(),
    ensures
        emissions_from(kind, ports, start).len() == ports.len() - start + 1,
        forall|i: int|
            0 <= i < ports.len() - start ==> emissions_from(kind, ports, start)[i]
                == (Notification::StepCompleted {
                index: (start + i) as usize,
                port: ports[start + i],
                kind,
            }),
        emissions_from(kind, ports, start)[ports.len() - start] == (
        Notification::SequenceCompleted { kind }),
    decreases ports.len() - start,
{
    if start < ports.len() {
        lemma_emissions_shape(kind, ports, start + 1);
    }
}

/// One whole run, from an idle sequencer: a start with a non-empty sequence
/// is always accepted, makes the sequencer busy, and the run then emits
/// exactly one `StepCompleted` per port, in ascending index order with the
/// ports in sequence order, followed by exactly one `SequenceCompleted` —
/// after which the sequencer is idle again.
pub proof fn lemma_run_protocol(
    pre: Sequencer,
    post: Sequencer,
    kind: KnockKind,
    ports: Vec<u16>,
    host: String,
    delay: u64,
    accepted: bool,
)
    requires
        !pre.busy(),
        ports@.len() > 0,
        start_post(pre, post, kind, ports, host, delay, accepted),
    ensures
        accepted,
        post.busy(),
        emissions(post.cur()).len() == ports@.len() + 1,
        forall|i: int|
            0 <= i < ports@.len() ==> emissions(post.cur())[i] == (Notification::StepCompleted {
                index: i as usize,
                port: ports@[i],
                kind,
            }),
        emissions(post.cur())[ports@.len() as int] == (Notification::SequenceCompleted { kind }),
{
    lemma_emissions_shape(kind, ports@, 0);
}

/// Invoking `start` while a run is already in flight is idempotent with
/// respect to state: the request is rejected, no second run is created, and
/// the original run's progress is untouched.
pub proof fn lemma_start_while_busy_is_noop(
    pre: Sequencer,
    post: Sequencer,
    kind: KnockKind,
    ports: Vec<u16>,
    host: String,
    delay: u64,
    accepted: bool,
)
    requires
        pre.busy(),
        start_post(pre, post, kind, ports, host, delay, accepted),
    ensures
        !accepted,
        post == pre,
        post.run == pre.run,
{
}

} // verus!
