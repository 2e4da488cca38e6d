//! Bounding how many archives are in flight, and the run's preflight.
//!
//! The scheduler dispatches archives from the catalog with at most a
//! configured number running at any instant; one slot covers an
//! archive's whole fetch–decode–convert span.  Before any network work
//! begins, the three external extraction tools must resolve, since a
//! missing tool invalidates the entire run.

use vstd::prelude::*;

use crate::errors::RunError;

verus! {

/// The resolved paths of the three external extraction tools.
pub struct Tools {
    pub schema_tool: String,
    pub tables_tool: String,
    pub export_tool: String,
}

/// The run's eager preflight: every tool must resolve on the search
/// path, each argument carrying its resolved path or `None`.
pub fn preflight(
    schema_tool: Option<String>,
    tables_tool: Option<String>,
    export_tool: Option<String>,
) -> (r: Result<Tools, RunError>)
    ensures
        match r {
            Ok(t) => {
                &&& schema_tool matches Some(s) && t.schema_tool == s
                &&& tables_tool matches Some(u) && t.tables_tool == u
                &&& export_tool matches Some(v) && t.export_tool == v
            },
            Err(e) => e == RunError::ToolNotFound && (schema_tool is None || tables_tool is None
                || export_tool is None),
        },
{
    match (schema_tool, tables_tool, export_tool) {
        (Some(s), Some(u), Some(v)) => Ok(
            Tools { schema_tool: s, tables_tool: u, export_tool: v },
        ),
        _ => Err(RunError::ToolNotFound),
    }
}

/// A scheduling event: an archive attempting to start, or a finished
/// archive returning its slot.
pub enum GateEvent {
    TryStart,
    Finish,
}

/// The number of archives in flight after a trace of gate events: a
/// start is admitted only below the bound, a finish only releases a
/// held slot.
pub open spec fn active_after(evs: Seq<GateEvent>, limit: nat) -> nat
    decreases evs.len(),
{
    if evs.len() == 0 {
        0
    } else {
        let a = active_after(evs.drop_last(), limit);
        match evs.last() {
            GateEvent::TryStart => if a < limit {
                a + 1
            } else {
                a
            },
            GateEvent::Finish => if a > 0 {
                (a - 1) as nat
            } else {
                a
            },
        }
    }
}

/// After every trace of gate events, no more archives hold a slot
/// than the bound admits.
pub proof fn lemma_active_never_exceeds(evs: Seq<GateEvent>, limit: nat)
    ensures
        active_after(evs, limit) <= limit,
    decreases evs.len(),
{
    if evs.len() > 0 {
        lemma_active_never_exceeds(evs.drop_last(), limit);
    }
}

/// A counting gate bounding concurrent archives, carrying the trace
/// of its own events as its instrumentation.
pub struct Gate {
    pub limit: usize,
    pub active: usize,
    pub trace: Ghost<Seq<GateEvent>>,
}

impl Gate {
    /// The in-flight count is exactly what the recorded trace admits.
    pub open spec fn inv(&self) -> bool {
        self.active == active_after(self.trace@, self.limit as nat)
    }

    /// An idle gate for the configured bound.
    pub fn new(limit: usize) -> (g: Gate)
        ensures
            g.inv(),
            g.limit == limit,
            g.active == 0,
            g.trace@ == Seq::<GateEvent>::empty(),
    {
        Gate { limit, active: 0, trace: Ghost(Seq::empty()) }
    }

    /// Admits one archive when a slot is free, and never admits one
    /// beyond the bound.
    pub fn try_acquire(&mut self) -> (admitted: bool)
        requires
            old(self).inv(),
        ensures
            final(self).inv(),
            final(self).limit == old(self).limit,
            final(self).trace@ == old(self).trace@.push(GateEvent::TryStart),
            admitted ==> old(self).active < old(self).limit && final(self).active == old(
                self,
            ).active + 1,
            !admitted ==> old(self).active == old(self).limit && final(self).active == old(
                self,
            ).active,
            final(self).active <= final(self).limit,
    {
        proof {
            lemma_active_never_exceeds(self.trace@, self.limit as nat);
        }
        self.trace = Ghost(self.trace@.push(GateEvent::TryStart));
        proof {
            assert(self.trace@.drop_last() =~= old(self).trace@);
            assert(self.trace@.last() == GateEvent::TryStart);
        }
        if self.active < self.limit {
            self.active = self.active + 1;
            true
        } else {
            false
        }
    }

    /// Releases the slot of one finished archive.
    pub fn release(&mut self)
        requires
            old(self).inv(),
            old(self).active > 0,
        ensures
            final(self).inv(),
            final(self).limit == old(self).limit,
            final(self).trace@ == old(self).trace@.push(GateEvent::Finish),
            final(self).active == old(self).active - 1,
    {
        self.trace = Ghost(self.trace@.push(GateEvent::Finish));
        proof {
            assert(self.trace@.drop_last() =~= old(self).trace@);
            assert(self.trace@.last() == GateEvent::Finish);
        }
        self.active = self.active - 1;
    }
}

} // verus!
