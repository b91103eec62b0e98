//! The application core: settings fields, the two parsed port sequences, the
//! knock sequencer and the shutdown coordinator, with one method per
//! user-visible command. The surrounding event loop performs probes, delays
//! and persistence; every decision is made here.

use crate::config::Config;
use crate::ports::{parse, parse_delay, parsed_diags, parsed_ports, views_of_diags, ParseDiagnostic};
use crate::sequencer::{notes_of, KnockKind, Notification, Sequencer};
use crate::shutdown::{terminates_on, CloseDecision, ShutdownCoordinator};
use vstd::prelude::*;

verus! {

/// A verified element-for-element copy of a port list.
fn copy_ports(v: &Vec<u16>) -> (r: Vec<u16>)
    ensures
        r@ == v@,
{
    let mut r: Vec<u16> = Vec::new();
    let mut i: usize = 0;
    while i < v.len()
        invariant
            i <= v@.len(),
            r@ == v@.take(i as int),
        decreases v@.len() - i,
    {
        r.push(v[i]);
        proof {
            assert(v@.take(i + 1) =~= v@.take(i as int).push(v@[i as int]));
        }
        i = i + 1;
    }
    proof {
        assert(v@.take(v@.len() as int) =~= v@);
    }
    r
}

/// The whole client state: the editable settings, the port sequences those
/// settings parse to, and the two coordinators.
pub struct Knocker {
    pub host: String,
    pub ports_str: String,
    pub ports: Vec<u16>,
    pub close_ports_str: String,
    pub close_ports: Vec<u16>,
    pub delay: u64,
    pub sequencer: Sequencer,
    pub shutdown: ShutdownCoordinator,
}

impl Knocker {
    /// The parsed sequences always correspond to the raw texts, and the
    /// sequencer is well-formed.
    pub open spec fn wf(self) -> bool {
        &&& self.ports@ == parsed_ports(self.ports_str@)
        &&& self.close_ports@ == parsed_ports(self.close_ports_str@)
        &&& self.sequencer.wf()
    }

    /// Builds the client state from a settings record: both port lists are
    /// parsed from their texts, nothing is running, no close was requested.
    /// Returns the diagnostics of the open and close lists, in that order.
    pub fn from_config(config: Config) -> (r: (Knocker, Vec<ParseDiagnostic>, Vec<
        ParseDiagnostic,
    >))
        requires
            config.ports_str@.len() < usize::MAX,
            config.close_ports_str@.len() < usize::MAX,
        ensures
            r.0.wf(),
            r.0.host@ == config.host@,
            r.0.ports_str@ == config.ports_str@,
            r.0.close_ports_str@ == config.close_ports_str@,
            r.0.delay == config.delay,
            !r.0.sequencer.busy(),
            !r.0.shutdown.close_requested,
            views_of_diags(r.1@) == parsed_diags(config.ports_str@),
            views_of_diags(r.2@) == parsed_diags(config.close_ports_str@),
    {
        let (ports, open_diags) = parse(config.ports_str.as_str());
        let (close_ports, close_diags) = parse(config.close_ports_str.as_str());
        let k = Knocker {
            host: config.host,
            ports_str: config.ports_str,
            ports,
            close_ports_str: config.close_ports_str,
            close_ports,
            delay: config.delay,
            sequencer: Sequencer::new(),
            shutdown: ShutdownCoordinator::new(),
        };
        (k, open_diags, close_diags)
    }

    /// The host field was edited.
    pub fn set_host(&mut self, host: String)
        requires
            old(self).wf(),
        ensures
            final(self).wf(),
            final(self).host@ == host@,
            final(self).ports_str == old(self).ports_str,
            final(self).ports == old(self).ports,
            final(self).close_ports_str == old(self).close_ports_str,
            final(self).close_ports == old(self).close_ports,
            final(self).delay == old(self).delay,
            final(self).sequencer == old(self).sequencer,
            final(self).shutdown == old(self).shutdown,
    {
        self.host = host;
    }

    /// The open-list text was edited: it is reparsed at once, and the
    /// diagnostics of the new text are handed back.
    pub fn set_ports_str(&mut self, text: String) -> (diags: Vec<ParseDiagnostic>)
        requires
            old(self).wf(),
            text@.len() < usize::MAX,
        ensures
            final(self).wf(),
            final(self).ports_str@ == text@,
            final(self).ports@ == parsed_ports(text@),
            views_of_diags(diags@) == parsed_diags(text@),
            final(self).host == old(self).host,
            final(self).close_ports_str == old(self).close_ports_str,
            final(self).close_ports == old(self).close_ports,
            final(self).delay == old(self).delay,
            final(self).sequencer == old(self).sequencer,
            final(self).shutdown == old(self).shutdown,
    {
        let (ports, diags) = parse(text.as_str());
        self.ports = ports;
        self.ports_str = text;
        diags
    }

    /// The close-list text was edited: reparsed the same way.
    pub fn set_close_ports_str(&mut self, text: String) -> (diags: Vec<ParseDiagnostic>)
        requires
            old(self).wf(),
            text@.len() < usize::MAX,
        ensures
            final(self).wf(),
            final(self).close_ports_str@ == text@,
            final(self).close_ports@ == parsed_ports(text@),
            views_of_diags(diags@) == parsed_diags(text@),
            final(self).host == old(self).host,
            final(self).ports_str == old(self).ports_str,
            final(self).ports == old(self).ports,
            final(self).delay == old(self).delay,
            final(self).sequencer == old(self).sequencer,
            final(self).shutdown == old(self).shutdown,
    {
        let (close_ports, diags) = parse(text.as_str());
        self.close_ports = close_ports;
        self.close_ports_str = text;
        diags
    }

    /// The delay field was edited. A trimmed decimal number of milliseconds
    /// is accepted; anything else is rejected and the old delay stays.
    pub fn set_delay_str(&mut self, text: &str) -> (accepted: bool)
        requires
            old(self).wf(),
        ensures
            final(self).wf(),
            accepted == (crate::ports::is_numeric_token(crate::ports::trim(text@))
                && crate::ports::numeric_value(crate::ports::trim(text@)) <= u64::MAX),
            accepted ==> final(self).delay == crate::ports::numeric_value(
                crate::ports::trim(text@),
            ),
            !accepted ==> final(self).delay == old(self).delay,
            final(self).host == old(self).host,
            final(self).ports_str == old(self).ports_str,
            final(self).ports == old(self).ports,
            final(self).close_ports_str == old(self).close_ports_str,
            final(self).close_ports == old(self).close_ports,
            final(self).sequencer == old(self).sequencer,
            final(self).shutdown == old(self).shutdown,
    {
        match parse_delay(text) {
            Some(v) => {
                self.delay = v;
                true
            },
            None => false,
        }
    }

    /// The user asked to knock the open sequence. Rejected while a run is in
    /// flight or when the open sequence is empty.
    pub fn start_open(&mut self) -> (accepted: bool)
        requires
            old(self).wf(),
        ensures
            final(self).wf(),
            accepted == (!old(self).sequencer.busy() && old(self).ports@.len() > 0),
            !accepted ==> final(self).sequencer == old(self).sequencer,
            accepted ==> final(self).sequencer.busy() && final(self).sequencer.cur().kind
                == KnockKind::Open && final(self).sequencer.cur().next_index == 0 && final(self).sequencer.cur().ports@ == old(self).ports@ && final(self).sequencer.cur().host@ == old(self).host@ && final(self).sequencer.cur().delay == old(self).delay,
            final(self).host == old(self).host,
            final(self).ports_str == old(self).ports_str,
            final(self).ports == old(self).ports,
            final(self).close_ports_str == old(self).close_ports_str,
            final(self).close_ports == old(self).close_ports,
            final(self).delay == old(self).delay,
            final(self).shutdown == old(self).shutdown,
    {
        let ports = copy_ports(&self.ports);
        let host = self.host.clone();
        self.sequencer.start(KnockKind::Open, ports, host, self.delay)
    }

    /// The user asked to knock the close sequence, without requesting exit.
    pub fn start_close(&mut self) -> (accepted: bool)
        requires
            old(self).wf(),
        ensures
            final(self).wf(),
            accepted == (!old(self).sequencer.busy() && old(self).close_ports@.len() > 0),
            !accepted ==> final(self).sequencer == old(self).sequencer,
            accepted ==> final(self).sequencer.busy() && final(self).sequencer.cur().kind
                == KnockKind::Close && final(self).sequencer.cur().next_index == 0 && final(self).sequencer.cur().ports@ == old(self).close_ports@ && final(self).sequencer.cur().host@ == old(self).host@ && final(self).sequencer.cur().delay == old(self).delay,
            final(self).host == old(self).host,
            final(self).ports_str == old(self).ports_str,
            final(self).ports == old(self).ports,
            final(self).close_ports_str == old(self).close_ports_str,
            final(self).close_ports == old(self).close_ports,
            final(self).delay == old(self).delay,
            final(self).shutdown == old(self).shutdown,
    {
        let ports = copy_ports(&self.close_ports);
        let host = self.host.clone();
        self.sequencer.start(KnockKind::Close, ports, host, self.delay)
    }

    /// The probe and delay for the current position have finished, whatever
    /// the probe's outcome. Hands back the notifications of the step and, as
    /// the last component, whether the process must terminate now — true
    /// exactly when this completed a close run under a pending close request.
    pub fn step_done(&mut self) -> (r: (Notification, Option<Notification>, bool))
        requires
            old(self).wf(),
            old(self).sequencer.busy(),
        ensures
            final(self).wf(),
            r.0 == crate::sequencer::step_note(old(self).sequencer.cur()),
            r.1 is Some <==> old(self).sequencer.cur().next_index + 1 == old(self).sequencer.cur().ports@.len(),
            r.1 is Some ==> !final(self).sequencer.busy() && r.1 == Some(
                Notification::SequenceCompleted { kind: old(self).sequencer.cur().kind },
            ),
            r.1 is None ==> final(self).sequencer.busy(),
            r.2 == (r.1 is Some && terminates_on(old(self).shutdown, old(self).sequencer.cur().kind)),
            crate::sequencer::emissions(old(self).sequencer.cur()) == notes_of(((r.0, r.1)))
                + (if final(self).sequencer.busy() {
                crate::sequencer::emissions(final(self).sequencer.cur())
            } else {
                Seq::<Notification>::empty()
            }),
            final(self).host == old(self).host,
            final(self).ports_str == old(self).ports_str,
            final(self).ports == old(self).ports,
            final(self).close_ports_str == old(self).close_ports_str,
            final(self).close_ports == old(self).close_ports,
            final(self).delay == old(self).delay,
            final(self).shutdown == old(self).shutdown,
    {
        let (step, done) = self.sequencer.advance();
        let terminate = match done {
            Some(_) => {
                let kind = match step {
                    Notification::StepCompleted { kind, .. } => kind,
                    Notification::SequenceCompleted { kind } => kind,
                };
                self.shutdown.should_terminate(kind)
            },
            None => false,
        };
        (step, done, terminate)
    }

    /// The external close-request signal arrived.
    pub fn close_signal(&mut self) -> (decision: CloseDecision)
        requires
            old(self).wf(),
        ensures
            final(self).wf(),
            old(self).sequencer.busy() ==> decision == CloseDecision::Ignored && final(self).sequencer == old(self).sequencer && final(self).shutdown == old(self).shutdown,
            !old(self).sequencer.busy() && old(self).close_ports@.len() == 0 ==> decision
                == CloseDecision::TerminateNow && final(self).shutdown.close_requested && final(self).sequencer == old(self).sequencer,
            !old(self).sequencer.busy() && old(self).close_ports@.len() > 0 ==> decision
                == CloseDecision::CloseRunStarted && final(self).shutdown.close_requested && final(self).sequencer.busy() && final(self).sequencer.cur().kind == KnockKind::Close && final(self).sequencer.cur().next_index == 0 && final(self).sequencer.cur().ports@ == old(self).close_ports@ && final(self).sequencer.cur().host@ == old(self).host@ && final(self).sequencer.cur().delay == old(self).delay,
            old(self).shutdown.close_requested ==> final(self).shutdown.close_requested,
            final(self).host == old(self).host,
            final(self).ports_str == old(self).ports_str,
            final(self).ports == old(self).ports,
            final(self).close_ports_str == old(self).close_ports_str,
            final(self).close_ports == old(self).close_ports,
            final(self).delay == old(self).delay,
    {
        let ports = copy_ports(&self.close_ports);
        let host = self.host.clone();
        let delay = self.delay;
        self.shutdown.on_close_signal(&mut self.sequencer, ports, host, delay)
    }

    /// The settings record that saving must persist: exactly the current
    /// host, the two raw texts, and the delay.
    pub fn config_snapshot(&self) -> (c: Config)
        ensures
            c.host@ == self.host@,
            c.ports_str@ == self.ports_str@,
            c.close_ports_str@ == self.close_ports_str@,
            c.delay == self.delay,
    {
        Config {
            host: self.host.clone(),
            ports_str: self.ports_str.clone(),
            close_ports_str: self.close_ports_str.clone(),
            delay: self.delay,
        }
    }
}

} // verus!
