//! The boundary between the verified coordination logic and its collaborators.
//!
//! A host implements the outside work that profiles coordinate: the per-profile
//! task scheduler, the bodies of services and event handlers, named operations,
//! custom activation predicates, and the error handler. The lifecycle and
//! switching logic is verified for every host; nothing is assumed of what a
//! host's methods do.

use crate::window::WindowSnapshot;
use vstd::prelude::*;

verus! {

/// The collaborator that a profile system drives.
///
/// Methods that run user code return `Err` with a message to abort the rest of
/// the dispatch that invoked them; the message is routed to `handle_error` at
/// the system boundary.
///
/// A profile's task scheduler begins paused: the host keeps it paused from the
/// moment it exists until the profile's first activation calls
/// `resume_scheduler`, so a never-activated profile's scheduler runs no work.
pub trait WindowRelativeHost {
    /// Names of events that the profile's scheduler has queued for dispatch.
    fn pending_scheduler_events(&mut self, profile_id: &str) -> Vec<String>;

    /// Resume the profile's task scheduler.
    fn resume_scheduler(&mut self, profile_id: &str);

    /// Let the profile's task scheduler run its due work once.
    fn step_scheduler(&mut self, profile_id: &str);

    /// Pause the profile's task scheduler.
    fn pause_scheduler(&mut self, profile_id: &str);

    /// A service was attached to a profile; invoked exactly once per service.
    fn install_service(&mut self, profile_id: &str, service_name: &str);

    /// Run the body of the named service for the given event.
    fn run_service(
        &mut self,
        profile_id: &str,
        service_name: &str,
        window: &WindowSnapshot,
        event_name: &str,
    ) -> Result<(), String>;

    /// Run the profile's event handler with the given index for the event.
    fn run_handler(
        &mut self,
        profile_id: &str,
        handler_index: usize,
        window: &WindowSnapshot,
        event_name: &str,
    ) -> Result<(), String>;

    /// Run the named operation that the profile registered.
    fn run_named_operation(&mut self, profile_id: &str, operation_name: &str) -> Result<
        (),
        String,
    >;

    /// A custom activation predicate: whether the profile fits the window.
    fn check_active(
        &mut self,
        profile_id: &str,
        window: &WindowSnapshot,
        process_name: &str,
        title: &str,
    ) -> bool;

    /// Receive an error that a profile's dispatch raised in the given phase.
    fn handle_error(&mut self, profile_id: &str, event_name: &str, message: &str);
}

} // verus!
