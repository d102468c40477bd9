//! The observable effects of one lifecycle dispatch, in the order they happen.
//!
//! `trigger_event` returns the trace of what it did: built-in state changes,
//! scheduler operations, and which services and handlers ran for which event.
//! The trace is pinned by the dispatch contract, so the ordering guarantees of
//! the lifecycle are stated over it.

use vstd::prelude::*;

verus! {

/// One step of a dispatch, in occurrence order.
#[derive(Debug, PartialEq, Eq)]
pub enum Effect {
    /// The profile was marked opened.
    Opened,
    /// The profile was marked active.
    Activated,
    /// The profile was marked inactive.
    Deactivated,
    /// The profile was marked closed (and inactive).
    Closed,
    /// The profile's scheduler was resumed.
    SchedulerResumed,
    /// The profile's scheduler ran its due work once.
    SchedulerStepped,
    /// The profile's scheduler was paused.
    SchedulerPaused,
    /// The named service ran for the named event.
    ServiceRan { service_name: String, event_name: String },
    /// The event handler with this index ran for the named event.
    HandlerRan { handler_index: usize, event_name: String },
}

/// The abstract value of an [`Effect`]: names as character sequences.
pub enum EffectView {
    Opened,
    Activated,
    Deactivated,
    Closed,
    SchedulerResumed,
    SchedulerStepped,
    SchedulerPaused,
    ServiceRan { service_name: Seq<char>, event_name: Seq<char> },
    HandlerRan { handler_index: usize, event_name: Seq<char> },
}

impl View for Effect {
    type V = EffectView;

    open spec fn view(&self) -> EffectView {
        match self {
            Effect::Opened => EffectView::Opened,
            Effect::Activated => EffectView::Activated,
            Effect::Deactivated => EffectView::Deactivated,
            Effect::Closed => EffectView::Closed,
            Effect::SchedulerResumed => EffectView::SchedulerResumed,
            Effect::SchedulerStepped => EffectView::SchedulerStepped,
            Effect::SchedulerPaused => EffectView::SchedulerPaused,
            Effect::ServiceRan { service_name, event_name } => EffectView::ServiceRan {
                service_name: service_name@,
                event_name: event_name@,
            },
            Effect::HandlerRan { handler_index, event_name } => EffectView::HandlerRan {
                handler_index: *handler_index,
                event_name: event_name@,
            },
        }
    }
}

/// The abstract values of a trace.
pub open spec fn trace_view(t: Seq<Effect>) -> Seq<EffectView> {
    t.map_values(|e: Effect| e@)
}

/// Pushing an effect pushes its abstract value onto the trace view.
pub proof fn lemma_trace_view_push(t: Seq<Effect>, e: Effect)
    ensures
        trace_view(t.push(e)) == trace_view(t).push(e@),
{
    assert(trace_view(t.push(e)) =~= trace_view(t).push(e@));
}

} // verus!
