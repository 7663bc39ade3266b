//! Deadline-driven supervision of one external process, as a state machine.
//!
//! The caller owns the PTY, the fork and the waits; this module owns every
//! decision.  The caller reports events — output drained from the PTY
//! master, clock ticks, the child's exit — and performs the actions the
//! machine orders: take the stuck snapshot, send the graceful stop to the
//! process group, send the forceful kill.  Escalation is two-phase with no
//! retry beyond the kill: a process that survives both is reported as timed
//! out, never waited on forever.

use vstd::prelude::*;

verus! {

/// Terminal outcome of one supervised run.
pub struct RunResult {
    pub exit_code: i32,
    pub timed_out: bool,
    pub transcript: Vec<u8>,
}

/// What a run is bounded by: the wall-clock deadline, the grace window
/// between the graceful stop and the forceful kill, and an optional instant
/// at which to take a stuck snapshot.
pub struct SupervisorConfig {
    pub deadline_ms: u64,
    pub grace_ms: u64,
    pub snapshot_at_ms: Option<u64>,
}

/// Where the run stands.
pub enum SupervisorPhase {
    /// The child runs; the deadline clock is live.
    Running,
    /// The deadline passed and the graceful stop was ordered.
    Grace,
    /// The grace window passed and the forceful kill was ordered.
    Killed,
}

/// What the caller must do after a tick.
pub struct TickActions {
    pub take_snapshot: bool,
    pub send_term: bool,
    pub send_kill: bool,
}

/// The supervisor's whole state.
pub struct Supervisor {
    pub config: SupervisorConfig,
    pub phase: SupervisorPhase,
    pub grace_started_ms: u64,
    pub did_snapshot: bool,
    pub timed_out: bool,
    pub max_elapsed_ms: u64,
    pub transcript: Vec<u8>,
}

/// The exit code a raw wait status denotes: a normal exit yields its code,
/// a signal termination yields 128 plus the signal number, anything else
/// yields 1.
pub open spec fn exit_code_spec(status: i32) -> int {
    if status & 0x7f == 0 {
        ((status >> 8) & 0xff) as int
    } else if status & 0x7f != 0x7f {
        128 + ((status & 0x7f) as int)
    } else {
        1
    }
}

/// Decode a raw wait status.
pub fn exit_status_code(status: i32) -> (r: i32)
    ensures
        r as int == exit_code_spec(status),
{
    if status & 0x7f == 0 {
        (status >> 8) & 0xff
    } else if status & 0x7f != 0x7f {
        proof {
            assert(0 <= status & 0x7f < 128) by (bit_vector);
        }
        128 + (status & 0x7f)
    } else {
        1
    }
}

impl Supervisor {
    /// The state is consistent: the run is marked timed out exactly when
    /// the deadline has been seen to pass, and escalation bookkeeping
    /// matches the phase.
    pub open spec fn wf(self) -> bool {
        &&& (self.timed_out <==> !(self.phase is Running))
        &&& (self.timed_out ==> self.max_elapsed_ms >= self.config.deadline_ms)
        &&& (!(self.phase is Running) ==> self.grace_started_ms >= self.config.deadline_ms)
    }

    /// The tick transition: on a running machine the deadline fires the
    /// snapshot (at most once over the whole run) and the graceful stop; in
    /// the grace window the clock fires the forceful kill; afterwards
    /// nothing more is ordered.
    pub open spec fn spec_tick(self, elapsed: u64) -> (Supervisor, TickActions) {
        let bumped = Supervisor {
            max_elapsed_ms: if elapsed > self.max_elapsed_ms {
                elapsed
            } else {
                self.max_elapsed_ms
            },
            ..self
        };
        match self.phase {
            SupervisorPhase::Running => {
                if elapsed >= self.config.deadline_ms {
                    (
                        Supervisor {
                            phase: SupervisorPhase::Grace,
                            grace_started_ms: elapsed,
                            timed_out: true,
                            did_snapshot: true,
                            ..bumped
                        },
                        TickActions {
                            take_snapshot: !self.did_snapshot,
                            send_term: true,
                            send_kill: false,
                        },
                    )
                } else {
                    let want_snap = !self.did_snapshot && match self.config.snapshot_at_ms {
                        Some(at) => elapsed >= at,
                        None => false,
                    };
                    (
                        Supervisor { did_snapshot: self.did_snapshot || want_snap, ..bumped },
                        TickActions { take_snapshot: want_snap, send_term: false, send_kill: false },
                    )
                }
            },
            SupervisorPhase::Grace => {
                if elapsed >= self.grace_started_ms + self.config.grace_ms {
                    (
                        Supervisor { phase: SupervisorPhase::Killed, ..bumped },
                        TickActions { take_snapshot: false, send_term: false, send_kill: true },
                    )
                } else {
                    (
                        bumped,
                        TickActions { take_snapshot: false, send_term: false, send_kill: false },
                    )
                }
            },
            SupervisorPhase::Killed => (
                bumped,
                TickActions { take_snapshot: false, send_term: false, send_kill: false },
            ),
        }
    }

    /// Start supervising: nothing seen, nothing ordered.
    pub fn new(config: SupervisorConfig) -> (r: Supervisor)
        ensures
            r.wf(),
            r.config == config,
            r.phase is Running,
            !r.did_snapshot,
            !r.timed_out,
            r.max_elapsed_ms == 0,
            r.transcript@ == Seq::<u8>::empty(),
    {
        Supervisor {
            config,
            phase: SupervisorPhase::Running,
            grace_started_ms: 0,
            did_snapshot: false,
            timed_out: false,
            max_elapsed_ms: 0,
            transcript: Vec::new(),
        }
    }

    /// Append a chunk the caller drained from the PTY master.
    pub fn on_output(&mut self, chunk: &[u8])
        ensures
            final(self).transcript@ == old(self).transcript@ + chunk@,
            final(self).config == old(self).config,
            final(self).phase == old(self).phase,
            final(self).grace_started_ms == old(self).grace_started_ms,
            final(self).did_snapshot == old(self).did_snapshot,
            final(self).timed_out == old(self).timed_out,
            final(self).max_elapsed_ms == old(self).max_elapsed_ms,
            old(self).wf() ==> final(self).wf(),
    {
        let mut i: usize = 0;
        let n = chunk.len();
        while i < n
            invariant
                i <= n,
                n == chunk@.len(),
                self.transcript@ == old(self).transcript@ + chunk@.subrange(0, i as int),
                self.config == old(self).config,
                self.phase == old(self).phase,
                self.grace_started_ms == old(self).grace_started_ms,
                self.did_snapshot == old(self).did_snapshot,
                self.timed_out == old(self).timed_out,
                self.max_elapsed_ms == old(self).max_elapsed_ms,
            decreases n - i,
        {
            self.transcript.push(chunk[i]);
            proof {
                assert(self.transcript@ =~= old(self).transcript@ + chunk@.subrange(0, i + 1));
            }
            i += 1;
        }
        proof {
            assert(chunk@.subrange(0, n as int) =~= chunk@);
        }
    }

    /// Advance the clock: returns what to do now.
    pub fn on_tick(&mut self, elapsed_ms: u64) -> (r: TickActions)
        requires
            old(self).wf(),
        ensures
            (*final(self), r) == old(self).spec_tick(elapsed_ms),
            final(self).wf(),
    {
        if elapsed_ms > self.max_elapsed_ms {
            self.max_elapsed_ms = elapsed_ms;
        }
        match self.phase {
            SupervisorPhase::Running => {
                if elapsed_ms >= self.config.deadline_ms {
                    let take_snapshot = !self.did_snapshot;
                    self.phase = SupervisorPhase::Grace;
                    self.grace_started_ms = elapsed_ms;
                    self.timed_out = true;
                    self.did_snapshot = true;
                    TickActions { take_snapshot, send_term: true, send_kill: false }
                } else {
                    let want_snap = !self.did_snapshot && match self.config.snapshot_at_ms {
                        Some(at) => elapsed_ms >= at,
                        None => false,
                    };
                    if want_snap {
                        self.did_snapshot = true;
                    }
                    TickActions { take_snapshot: want_snap, send_term: false, send_kill: false }
                }
            },
            SupervisorPhase::Grace => {
                if elapsed_ms >= self.grace_started_ms && elapsed_ms - self.grace_started_ms
                    >= self.config.grace_ms {
                    self.phase = SupervisorPhase::Killed;
                    TickActions { take_snapshot: false, send_term: false, send_kill: true }
                } else {
                    TickActions { take_snapshot: false, send_term: false, send_kill: false }
                }
            },
            SupervisorPhase::Killed => TickActions {
                take_snapshot: false,
                send_term: false,
                send_kill: false,
            },
        }
    }

    /// The child was reaped with raw wait status `raw_status`: the run is
    /// over.  The result reports the decoded exit status, whether the
    /// deadline had passed, and everything the PTY produced.
    pub fn on_exit(self, raw_status: i32) -> (r: RunResult)
        ensures
            r.exit_code as int == exit_code_spec(raw_status),
            r.timed_out == self.timed_out,
            r.transcript@ == self.transcript@,
    {
        let code = exit_status_code(raw_status);
        RunResult { exit_code: code, timed_out: self.timed_out, transcript: self.transcript }
    }
}

/// The state after a whole sequence of ticks.
pub open spec fn run_ticks(s: Supervisor, es: Seq<u64>) -> Supervisor
    decreases es.len(),
{
    if es.len() == 0 {
        s
    } else {
        run_ticks(s.spec_tick(es[0]).0, es.drop_first())
    }
}

/// A supervised run whose child exits before the deadline is never marked
/// timed out, and its result carries the child's real decoded exit status:
/// however many ticks pass, as long as each comes before the deadline, the
/// machine stays in its running phase with `timed_out` false, so the
/// result that [`Supervisor::on_exit`] then builds reports `timed_out ==
/// false` and `exit_code == exit_code_spec(raw_status)`.
pub proof fn lemma_exit_before_deadline(s: Supervisor, es: Seq<u64>)
    requires
        s.wf(),
        s.phase is Running,
        !s.timed_out,
        forall|i: int| 0 <= i < es.len() ==> es[i] < s.config.deadline_ms,
    ensures
        run_ticks(s, es).wf(),
        run_ticks(s, es).phase is Running,
        !run_ticks(s, es).timed_out,
        run_ticks(s, es).config == s.config,
        run_ticks(s, es).transcript == s.transcript,
    decreases es.len(),
{
    if es.len() > 0 {
        let s1 = s.spec_tick(es[0]).0;
        assert(forall|i: int| 0 <= i < es.drop_first().len() ==> es.drop_first()[i] == es[i + 1]);
        lemma_exit_before_deadline(s1, es.drop_first());
    }
}

/// Once the deadline passes, escalation is ordered and sticks: the tick at
/// or after the deadline orders the graceful stop of the process group and
/// marks the run timed out, and the tick at or after the end of the grace
/// window orders the forceful kill.  From then on the run is reported as
/// timed out whatever the child does.  That the kill then removes the
/// process from the process table is the kernel's promise for an
/// unblockable signal, not something this machine can state.
pub proof fn lemma_deadline_escalation(s: Supervisor, e1: u64, e2: u64)
    requires
        s.wf(),
        s.phase is Running,
        e1 >= s.config.deadline_ms,
        e2 >= e1 + s.config.grace_ms,
    ensures
        s.spec_tick(e1).1.send_term,
        s.spec_tick(e1).0.timed_out,
        s.spec_tick(e1).0.spec_tick(e2).1.send_kill,
        s.spec_tick(e1).0.spec_tick(e2).0.timed_out,
        s.spec_tick(e1).0.spec_tick(e2).0.phase is Killed,
{
}

/// The stuck snapshot fires at most once over a whole run: any tick that
/// orders one leaves the machine with `did_snapshot` set, and no tick of a
/// machine with `did_snapshot` set orders another.
pub proof fn lemma_snapshot_fires_once(s: Supervisor, e: u64)
    requires
        s.did_snapshot,
    ensures
        !s.spec_tick(e).1.take_snapshot,
        s.spec_tick(e).0.did_snapshot,
{
}

} // verus!
