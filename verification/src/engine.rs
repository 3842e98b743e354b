//! The realtime engine's decision logic.
//!
//! The engine owns one or two compiled graphs: a startup graph, always
//! present, and optionally a sustained graph for two-phase behaviour. The
//! stream's start time is captured once, lazily, on the first frame. On
//! every frame the phase is chosen purely by elapsed time against a
//! configured threshold, and latched: once sustained, never back. The
//! sample evaluation and loudness multiply that follow the decision are
//! floating-point work and live with the caller; this module decides
//! which graph drives the frame.

use vstd::prelude::*;
use crate::graph::SignalGraph;

verus! {

/// Which graph drives the output.
#[derive(Clone, Copy, PartialEq, Eq, Structural, Debug)]
pub enum Phase {
    Startup,
    Sustained,
}

/// The phase that pure elapsed time asks for.
pub open spec fn phase_of(elapsed_ms: u64, threshold_ms: u64) -> Phase {
    if elapsed_ms >= threshold_ms {
        Phase::Sustained
    } else {
        Phase::Startup
    }
}

/// Milliseconds since the captured start (zero if the clock stepped back).
pub open spec fn elapsed_of(start_ms: u64, now_ms: u64) -> u64 {
    if now_ms >= start_ms {
        (now_ms - start_ms) as u64
    } else {
        0
    }
}

/// The start time after a frame at `now_ms`: captured now if this is the
/// first frame, kept otherwise.
pub open spec fn started_at(e: Engine, now_ms: u64) -> u64 {
    match e.start_ms {
        Some(s) => s,
        None => now_ms,
    }
}

/// The latch after a frame at `now_ms`: set once elapsed time reaches the
/// threshold, and never cleared.
pub open spec fn next_latched(e: Engine, now_ms: u64) -> bool {
    e.latched || phase_of(elapsed_of(started_at(e, now_ms), now_ms), e.threshold_ms)
        == Phase::Sustained
}

/// The phase the engine emits while the latch stands as given.
pub open spec fn emitted_phase(latched: bool) -> Phase {
    if latched {
        Phase::Sustained
    } else {
        Phase::Startup
    }
}

/// The realtime engine: compiled graphs plus the phase decision state.
pub struct Engine {
    /// Drives output until the threshold is reached.
    pub startup: SignalGraph,
    /// Drives output from the threshold on; absent for single-phase use.
    pub sustained: Option<SignalGraph>,
    /// Configured phase-switch threshold, in milliseconds.
    pub threshold_ms: u64,
    /// Wall-clock of the first frame, captured lazily.
    pub start_ms: Option<u64>,
    /// Whether the sustained phase has been reached.
    pub latched: bool,
}

impl Engine {
    pub open spec fn wf(self) -> bool {
        &&& self.startup.wf()
        &&& match self.sustained {
            Some(g) => g.wf(),
            None => true,
        }
    }

    /// A fresh engine: no frame seen yet, startup phase.
    pub fn new(startup: SignalGraph, sustained: Option<SignalGraph>, threshold_ms: u64) -> (e:
        Engine)
        requires
            startup.wf(),
            match sustained {
                Some(g) => g.wf(),
                None => true,
            },
        ensures
            e.wf(),
            e.startup == startup,
            e.sustained == sustained,
            e.threshold_ms == threshold_ms,
            e.start_ms is None,
            !e.latched,
    {
        Engine { startup, sustained, threshold_ms, start_ms: None, latched: false }
    }

    /// One frame's phase decision at wall-clock `now_ms`.
    ///
    /// Captures the start time on the first call; thereafter the decision
    /// is a pure function of elapsed time, latched so that the phase never
    /// reverts within a session even if the clock steps back.
    pub fn select_phase(&mut self, now_ms: u64) -> (p: Phase)
        requires
            old(self).wf(),
        ensures
            final(self).wf(),
            final(self).startup == old(self).startup,
            final(self).sustained == old(self).sustained,
            final(self).threshold_ms == old(self).threshold_ms,
            final(self).start_ms == Some(started_at(*old(self), now_ms)),
            final(self).latched == next_latched(*old(self), now_ms),
            p == emitted_phase(final(self).latched),
            old(self).latched ==> final(self).latched,
    {
        let start = match self.start_ms {
            Some(s) => s,
            None => {
                self.start_ms = Some(now_ms);
                now_ms
            },
        };
        let elapsed = if now_ms >= start {
            now_ms - start
        } else {
            0
        };
        if !self.latched && elapsed >= self.threshold_ms {
            self.latched = true;
        }
        if self.latched {
            Phase::Sustained
        } else {
            Phase::Startup
        }
    }

    /// The graph the chosen phase asks for: the sustained graph once in
    /// the sustained phase and one is present, the startup graph otherwise.
    pub fn active_graph(&self, p: Phase) -> (g: &SignalGraph)
        requires
            self.wf(),
        ensures
            g.wf(),
            p == Phase::Sustained && self.sustained is Some ==> Some(*g) == self.sustained,
            p == Phase::Startup || self.sustained is None ==> *g == self.startup,
    {
        match p {
            Phase::Sustained => {
                match &self.sustained {
                    Some(g) => g,
                    None => &self.startup,
                }
            },
            Phase::Startup => &self.startup,
        }
    }
}

/// Law: before the latch is set, the emitted phase is a pure function of
/// elapsed time — strictly before the threshold only the startup graph
/// drives output, at or after it only the sustained side.
pub proof fn lemma_phase_pure(e: Engine, now_ms: u64)
    requires
        !e.latched,
    ensures
        emitted_phase(next_latched(e, now_ms)) == phase_of(
            elapsed_of(started_at(e, now_ms), now_ms),
            e.threshold_ms,
        ),
{
}

/// Law: the phase transition is monotone — once the engine is latched
/// sustained, every later frame stays sustained.
pub proof fn lemma_phase_monotone(e: Engine, now_ms: u64)
    requires
        e.latched,
    ensures
        next_latched(e, now_ms),
        emitted_phase(next_latched(e, now_ms)) == Phase::Sustained,
{
}

} // verus!
