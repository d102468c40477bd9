//! The profile: identity, lifecycle flags, services, event handlers and data,
//! driven by the lifecycle state machine.
//!
//! `trigger_event` dispatches an event: built-in state changes happen before
//! the services and handlers of the same phase run, `activate` on a
//! never-opened profile synthesizes `open` first, `deactivate` synthesizes
//! `close` when the window is gone, and a host error aborts the rest of the
//! dispatch. Scheduler-queued events are dispatched once, at the outermost
//! `trigger_event` call only (single-level re-entry suppression); synthesized
//! and batch dispatches never fetch the queue again.

use crate::effect::{lemma_trace_view_push, trace_view, Effect, EffectView};
use crate::host::WindowRelativeHost;
use crate::profile_data::{spec_lookup, spec_store, WindowRelativeProfileData,
    WindowRelativeProfileDataConvertible};
use crate::profile_service::{
    service_run_trace, surviving_services, WindowRelativeProfileService,
    WindowRelativeProfileServiceSet,
};
use crate::trigger::{lemma_builtin_names_distinct, str_eq};
use crate::window::WindowSnapshot;
use vstd::prelude::*;

verus! {

/// How a profile decides whether it fits the focused window.
pub enum ActiveChecker {
    /// Never fits: the fallback profile's checker.
    Never,
    /// Fits when the focused process name equals the profile's process name
    /// (the default).
    ProcessNameEquals,
    /// The host decides, through `WindowRelativeHost::check_active`.
    Host,
}

/// The part of a profile that the lifecycle state machine reads and writes.
#[verifier::ext_equal]
pub struct LifecycleState {
    pub opened: bool,
    pub active: bool,
    pub services: Seq<WindowRelativeProfileService>,
    pub handler_count: nat,
}

impl LifecycleState {
    /// The lifecycle invariant: an active profile is opened.
    pub open spec fn wf(self) -> bool {
        self.active ==> self.opened
    }
}

/// The `HandlerRan` effects of one pass: every handler runs, in registration
/// order, for every dispatched event.
pub open spec fn handler_run_trace(count: nat, e: Seq<char>) -> Seq<EffectView> {
    Seq::new(count, |i: int| EffectView::HandlerRan { handler_index: i as usize, event_name: e })
}

/// The effects of one service-and-handler pass: matching services in order,
/// then every handler.
pub open spec fn pass_trace(st: LifecycleState, e: Seq<char>) -> Seq<EffectView> {
    service_run_trace(st.services, e) + handler_run_trace(st.handler_count, e)
}

/// The state after one pass: expired services are gone, flags untouched.
pub open spec fn pass_state(st: LifecycleState, e: Seq<char>) -> LifecycleState {
    LifecycleState { services: surviving_services(st.services, e), ..st }
}

/// The recursion depth that dispatching the event may add: `activate` and
/// `deactivate` can synthesize one further built-in event.
pub open spec fn event_rank(e: Seq<char>) -> nat {
    if e == "activate"@ || e == "deactivate"@ {
        1
    } else {
        0
    }
}

/// One dispatch of the event named `e` against lifecycle state `st`, with the
/// window's liveness given by `exists_` and `visible`: the state afterwards
/// and the full effect trace, assuming every service and handler succeeds.
pub open spec fn step(st: LifecycleState, e: Seq<char>, exists_: bool, visible: bool) -> (
    LifecycleState,
    Seq<EffectView>,
)
    decreases event_rank(e),
    via step_decreases
{
    if e == "open"@ {
        let st1 = LifecycleState { opened: true, ..st };
        (pass_state(st1, e), seq![EffectView::Opened] + pass_trace(st1, e))
    } else if e == "activate"@ {
        let opened = if !st.opened {
            step(st, "open"@, exists_, visible)
        } else {
            (st, Seq::empty())
        };
        let st1 = LifecycleState { active: true, ..opened.0 };
        (
            pass_state(st1, e),
            opened.1 + seq![EffectView::Activated, EffectView::SchedulerResumed] + pass_trace(
                st1,
                e,
            ) + seq![EffectView::SchedulerStepped],
        )
    } else if e == "update"@ {
        (pass_state(st, e), seq![EffectView::SchedulerStepped] + pass_trace(st, e))
    } else if e == "deactivate"@ {
        let st1 = LifecycleState { active: false, ..st };
        let st2 = pass_state(st1, e);
        let base = seq![EffectView::Deactivated] + pass_trace(st1, e) + seq![
            EffectView::SchedulerStepped,
            EffectView::SchedulerPaused,
        ];
        if !exists_ || !visible {
            let closed = step(st2, "close"@, exists_, visible);
            (closed.0, base + closed.1)
        } else {
            (st2, base)
        }
    } else if e == "close"@ {
        let st1 = LifecycleState { opened: false, active: false, ..st };
        (pass_state(st1, e), seq![EffectView::Closed] + pass_trace(st1, e))
    } else {
        (pass_state(st, e), pass_trace(st, e))
    }
}

#[via_fn]
proof fn step_decreases(st: LifecycleState, e: Seq<char>, exists_: bool, visible: bool) {
    lemma_builtin_names_distinct();
}

/// Dispatching preserves the lifecycle invariant.
pub proof fn lemma_step_preserves_invariant(
    st: LifecycleState,
    e: Seq<char>,
    exists_: bool,
    visible: bool,
)
    requires
        st.wf(),
    ensures
        step(st, e, exists_, visible).0.wf(),
    decreases event_rank(e),
{
    lemma_builtin_names_distinct();
    if e == "activate"@ {
        if !st.opened {
            lemma_step_preserves_invariant(st, "open"@, exists_, visible);
        }
    } else if e == "deactivate"@ {
        let st1 = LifecycleState { active: false, ..st };
        let st2 = pass_state(st1, e);
        if !exists_ || !visible {
            lemma_step_preserves_invariant(st2, "close"@, exists_, visible);
        }
    }
}

/// A dispatch against a profile with no services keeps it without services
/// and does not touch the handler count.
pub proof fn lemma_step_preserves_empty(st: LifecycleState, e: Seq<char>, exists_: bool, visible: bool)
    requires
        st.services.len() == 0,
    ensures
        step(st, e, exists_, visible).0.services.len() == 0,
        step(st, e, exists_, visible).0.handler_count == st.handler_count,
    decreases event_rank(e),
{
    lemma_builtin_names_distinct();
    assert(surviving_services(st.services, e) =~= Seq::<WindowRelativeProfileService>::empty());
    if e == "activate"@ {
        if !st.opened {
            lemma_step_preserves_empty(st, "open"@, exists_, visible);
            assert(surviving_services(step(st, "open"@, exists_, visible).0.services, e)
                =~= Seq::<WindowRelativeProfileService>::empty());
        }
    } else if e == "deactivate"@ {
        let st1 = LifecycleState { active: false, ..st };
        let st2 = pass_state(st1, e);
        if !exists_ || !visible {
            lemma_step_preserves_empty(st2, "close"@, exists_, visible);
        }
    }
}

/// A run of dispatches against a profile with no services keeps it without
/// services and does not touch the handler count.
pub proof fn lemma_steps_preserve_empty(
    st: LifecycleState,
    events: Seq<Seq<char>>,
    exists_: bool,
    visible: bool,
)
    requires
        st.services.len() == 0,
    ensures
        steps(st, events, exists_, visible).0.services.len() == 0,
        steps(st, events, exists_, visible).0.handler_count == st.handler_count,
    decreases events.len(),
{
    if events.len() > 0 {
        lemma_step_preserves_empty(st, events[0], exists_, visible);
        lemma_steps_preserve_empty(
            step(st, events[0], exists_, visible).0,
            events.drop_first(),
            exists_,
            visible,
        );
    }
}

/// A sequence of dispatches, one per event, in order.
pub open spec fn steps(
    st: LifecycleState,
    events: Seq<Seq<char>>,
    exists_: bool,
    visible: bool,
) -> (LifecycleState, Seq<EffectView>)
    decreases events.len(),
{
    if events.len() == 0 {
        (st, Seq::empty())
    } else {
        let first = step(st, events[0], exists_, visible);
        let rest = steps(first.0, events.drop_first(), exists_, visible);
        (rest.0, first.1 + rest.1)
    }
}

/// An aborted pass appended a prefix of the full pass trace: the runs before
/// the failing service or handler, and none of those after it.
pub open spec fn pass_trace_prefix(
    st: LifecycleState,
    e: Seq<char>,
    t0: Seq<Effect>,
    t_fin: Seq<Effect>,
) -> bool {
    exists|k: int|
        0 <= k <= pass_trace(st, e).len() && trace_view(t_fin) == trace_view(t0)
            + #[trigger] pass_trace(st, e).take(k)
}

/// An aborted dispatch appended a prefix of the full dispatch trace: the
/// effects up to the failing service or handler, and none of those after it.
pub open spec fn dispatch_trace_prefix(
    st: LifecycleState,
    e: Seq<char>,
    exists_: bool,
    visible: bool,
    t0: Seq<Effect>,
    t_fin: Seq<Effect>,
) -> bool {
    exists|k: int|
        0 <= k <= step(st, e, exists_, visible).1.len() && trace_view(t_fin) == trace_view(t0)
            + #[trigger] step(st, e, exists_, visible).1.take(k)
}

/// An aborted `trigger_event` returned a prefix of one legitimate run: some
/// scheduler batch dispatched whole, then a prefix of one more dispatch — so
/// nothing ordered after the failing service or handler was invoked.
pub open spec fn trigger_trace_prefix(
    st: LifecycleState,
    exists_: bool,
    visible: bool,
    t: Seq<Effect>,
) -> bool {
    exists|done: Seq<Seq<char>>, failing: Seq<char>, k: int|
        #![trigger steps(st, done, exists_, visible), step(steps(st, done, exists_, visible).0, failing, exists_, visible).1.take(k)]
        {
            let pre = steps(st, done, exists_, visible);
            let last = step(pre.0, failing, exists_, visible);
            0 <= k <= last.1.len() && trace_view(t) == pre.1 + last.1.take(k)
        }
}

/// Appending an event to a sequence of dispatches appends its dispatch.
pub proof fn lemma_steps_push(
    st: LifecycleState,
    events: Seq<Seq<char>>,
    e: Seq<char>,
    exists_: bool,
    visible: bool,
)
    ensures
        ({
            let upto = steps(st, events, exists_, visible);
            let last = step(upto.0, e, exists_, visible);
            steps(st, events.push(e), exists_, visible) == (last.0, upto.1 + last.1)
        }),
    decreases events.len(),
{
    let upto = steps(st, events, exists_, visible);
    let last = step(upto.0, e, exists_, visible);
    let whole = steps(st, events.push(e), exists_, visible);
    if events.len() == 0 {
        assert(events.push(e)[0] == e);
        assert(events.push(e).drop_first() =~= Seq::<Seq<char>>::empty());
        assert(events =~= Seq::<Seq<char>>::empty());
        assert(upto.0 == st && upto.1 == Seq::<EffectView>::empty());
        assert(steps(step(st, e, exists_, visible).0, events.push(e).drop_first(), exists_, visible)
            == (step(st, e, exists_, visible).0, Seq::<EffectView>::empty()));
        assert(whole.0 == last.0);
        assert(whole.1 =~= upto.1 + last.1);
    } else {
        assert(events.push(e)[0] == events[0]);
        assert(events.push(e).drop_first() =~= events.drop_first().push(e));
        let first = step(st, events[0], exists_, visible);
        lemma_steps_push(first.0, events.drop_first(), e, exists_, visible);
        assert(whole.0 == last.0);
        assert(whole.1 =~= upto.1 + last.1);
    }
}

/// A named profile bound to a process, with lifecycle flags, services, event
/// handlers, named operations and a data store.
pub struct WindowRelativeProfile {
    /// The profile's id, unique within a system.
    pub id: String,
    /// The profile's title.
    pub title: String,
    /// The process name the default activation predicate compares against.
    pub process_name: String,
    /// Whether this is the reserved fallback profile at slot 0.
    pub is_default_profile: bool,
    /// How the profile decides whether it fits the focused window.
    pub active_checker: ActiveChecker,
    /// The attached services, in attachment order.
    pub services: WindowRelativeProfileServiceSet,
    /// How many generic event handlers the host holds for this profile.
    pub event_handler_count: usize,
    /// The names of the operations the profile registered with the host.
    pub named_operations: Vec<String>,
    /// The profile's key/value data.
    pub data: WindowRelativeProfileData,
    /// Whether the profile has been opened and not closed since.
    pub is_opened: bool,
    /// Whether the profile is the active one.
    pub is_active: bool,
    /// Guards against re-fetching the scheduler's queued events while they are
    /// being dispatched.
    pub is_recursing_scheduler_events: bool,
}

impl WindowRelativeProfile {
    /// The lifecycle invariant: an active profile is opened.
    pub open spec fn wf(self) -> bool {
        self.lifecycle().wf()
    }

    /// The part of the profile that the state machine reads and writes.
    pub open spec fn lifecycle(self) -> LifecycleState {
        LifecycleState {
            opened: self.is_opened,
            active: self.is_active,
            services: self.services@,
            handler_count: self.event_handler_count as nat,
        }
    }

    /// Everything outside the lifecycle state and the re-entry guard is kept
    /// by a dispatch.
    pub open spec fn same_identity(self, other: WindowRelativeProfile) -> bool {
        &&& self.id == other.id
        &&& self.title == other.title
        &&& self.process_name == other.process_name
        &&& self.is_default_profile == other.is_default_profile
        &&& self.active_checker == other.active_checker
        &&& self.event_handler_count == other.event_handler_count
        &&& self.named_operations == other.named_operations
        &&& self.data == other.data
    }

    /// Create a new profile: closed, inactive, with the default activation
    /// predicate and nothing attached.
    pub fn new(id: &str, title: &str, process_name: &str) -> (r: WindowRelativeProfile)
        ensures
            r.id@ == id@,
            r.title@ == title@,
            r.process_name@ == process_name@,
            !r.is_default_profile,
            r.active_checker is ProcessNameEquals,
            r.services@ == Seq::<WindowRelativeProfileService>::empty(),
            r.event_handler_count == 0,
            r.named_operations@ == Seq::<String>::empty(),
            r.data@ == Seq::<(Seq<char>, Seq<u8>)>::empty(),
            !r.is_opened,
            !r.is_active,
            !r.is_recursing_scheduler_events,
            r.wf(),
    {
        WindowRelativeProfile {
            id: id.to_owned(),
            title: title.to_owned(),
            process_name: process_name.to_owned(),
            is_default_profile: false,
            active_checker: ActiveChecker::ProcessNameEquals,
            services: WindowRelativeProfileServiceSet::new(),
            event_handler_count: 0,
            named_operations: Vec::new(),
            data: WindowRelativeProfileData::new(),
            is_opened: false,
            is_active: false,
            is_recursing_scheduler_events: false,
        }
    }

    /// Create the reserved fallback profile: its activation predicate never
    /// matches, so it is chosen only when no other profile fits.
    pub(crate) fn default_profile() -> (r: WindowRelativeProfile)
        ensures
            r.is_default_profile,
            r.active_checker is Never,
            !r.is_opened,
            !r.is_active,
            !r.is_recursing_scheduler_events,
            r.services@ == Seq::<WindowRelativeProfileService>::empty(),
            r.event_handler_count == 0,
            r.wf(),
    {
        let mut p = WindowRelativeProfile::new(
            "DEFAULT_PROFILE_ID",
            "DEFAULT_PROFILE_TITLE",
            "DEFAULT_PROFILE_PROCESS_NAME",
        );
        p.is_default_profile = true;
        p.active_checker = ActiveChecker::Never;
        p
    }

    /// Return self with the given modifications applied, first to last.
    pub fn with_modifications<F: Fn(WindowRelativeProfile) -> WindowRelativeProfile>(
        self,
        modifications: Vec<F>,
    ) -> (r: WindowRelativeProfile)
        requires
            forall|i: int, p: WindowRelativeProfile|
                0 <= i < modifications@.len() ==> #[trigger] call_requires(
                    modifications@[i],
                    (p,),
                ),
        ensures
            modified_chain(modifications@, self, r),
    {
        let ghost start = self;
        let ghost all = modifications@;
        let mut current = self;
        let mut remaining = modifications;
        let ghost k: int = 0;
        proof {
            assert(all.take(0) =~= Seq::<F>::empty());
            assert(modified_chain(all.take(0), start, current));
            assert(remaining@ =~= all.skip(0));
        }
        while remaining.len() > 0
            invariant
                0 <= k <= all.len(),
                start == self,
                remaining@ =~= all.skip(k),
                modified_chain(all.take(k), start, current),
                forall|i: int, p: WindowRelativeProfile|
                    0 <= i < all.len() ==> #[trigger] call_requires(all[i], (p,)),
            decreases remaining@.len(),
        {
            let ghost before = current;
            let modification = remaining.remove(0);
            proof {
                assert(modification == all[k]);
                assert(remaining@ =~= all.skip(k + 1));
                assert(call_requires(all[k], (before,)));
            }
            current = modification(current);
            proof {
                assert(call_ensures(all[k], (before,), current));
                assert(all.take(k + 1) =~= all.take(k).push(all[k]));
                lemma_modified_chain_push(all.take(k), all[k], start, before, current);
                k = k + 1;
            }
        }
        proof {
            assert(all.take(k) =~= all);
        }
        current
    }

    /// Return self with the given modification applied.
    pub fn with_modification<F: FnOnce(WindowRelativeProfile) -> WindowRelativeProfile>(
        self,
        modification: F,
    ) -> (r: WindowRelativeProfile)
        requires
            call_requires(modification, (self,)),
        ensures
            call_ensures(modification, (self,), r),
    {
        modification(self)
    }

    /// Return self with a new active checker.
    pub fn with_active_checker(self, active_checker: ActiveChecker) -> (r: WindowRelativeProfile)
        ensures
            r == (WindowRelativeProfile { active_checker, ..self }),
    {
        WindowRelativeProfile { active_checker, ..self }
    }

    /// Set the active checker of the profile.
    pub fn set_active_checker(&mut self, active_checker: ActiveChecker)
        ensures
            *final(self) == (WindowRelativeProfile { active_checker, ..*old(self) }),
    {
        self.active_checker = active_checker;
    }

    /// Return self with an added service; the host's install hook is told of
    /// the attachment.
    pub fn with_service<H: WindowRelativeHost>(
        self,
        host: &mut H,
        service: WindowRelativeProfileService,
    ) -> (r: WindowRelativeProfile)
        ensures
            r.services@ == self.services@.push(service),
            r.same_identity(self),
            r.is_opened == self.is_opened,
            r.is_active == self.is_active,
            r.is_recursing_scheduler_events == self.is_recursing_scheduler_events,
    {
        let mut p = self;
        p.add_service(host, service);
        p
    }

    /// Add a new service to the profile; the host's install hook is invoked
    /// exactly once, at attachment.
    pub fn add_service<H: WindowRelativeHost>(
        &mut self,
        host: &mut H,
        service: WindowRelativeProfileService,
    )
        ensures
            final(self).services@ == old(self).services@.push(service),
            final(self).same_identity(*old(self)),
            final(self).is_opened == old(self).is_opened,
            final(self).is_active == old(self).is_active,
            final(self).is_recursing_scheduler_events == old(self).is_recursing_scheduler_events,
    {
        host.install_service(self.id.as_str(), service.name.as_str());
        self.services.push(service);
    }

    /// Return self with one more generic event handler registered.
    pub fn with_handler(self) -> (r: WindowRelativeProfile)
        requires
            self.event_handler_count < usize::MAX,
        ensures
            r == (WindowRelativeProfile {
                event_handler_count: (self.event_handler_count + 1) as usize,
                ..self
            }),
    {
        WindowRelativeProfile { event_handler_count: self.event_handler_count + 1, ..self }
    }

    /// Register one more generic event handler; the host runs it, under this
    /// profile's id and the handler's index, for every dispatched event.
    pub fn add_handler(&mut self)
        requires
            old(self).event_handler_count < usize::MAX,
        ensures
            final(self).event_handler_count == old(self).event_handler_count + 1,
            *final(self) == (WindowRelativeProfile {
                event_handler_count: (old(self).event_handler_count + 1) as usize,
                ..*old(self)
            }),
    {
        self.event_handler_count = self.event_handler_count + 1;
    }

    /// Register a named operation; the host runs it on request by name.
    pub fn register_named_operation(&mut self, name: &str)
        ensures
            final(self).named_operations@.len() == old(self).named_operations@.len() + 1,
            final(self).named_operations@.last()@ == name@,
            final(self).named_operations@.take(old(self).named_operations@.len() as int) == old(
                self,
            ).named_operations@,
    {
        self.named_operations.push(name.to_owned());
        proof {
            assert(self.named_operations@.take(self.named_operations@.len() - 1) =~= old(
                self,
            ).named_operations@);
        }
    }

    /// Whether a named operation with the given name is registered.
    pub fn has_named_operation(&self, name: &str) -> (r: bool)
        ensures
            r == exists|i: int|
                0 <= i < self.named_operations@.len() && (#[trigger] self.named_operations@[i])@
                    == name@,
    {
        let mut i: usize = 0;
        while i < self.named_operations.len()
            invariant
                0 <= i <= self.named_operations@.len(),
                forall|j: int|
                    0 <= j < i ==> (#[trigger] self.named_operations@[j])@ != name@,
            decreases self.named_operations@.len() - i,
        {
            if str_eq(self.named_operations[i].as_str(), name) {
                return true;
            }
            i += 1;
        }
        false
    }

    /// Get some data from the profile.
    pub fn get_data<T: WindowRelativeProfileDataConvertible>(&self, name: &str) -> (r: Option<T>)
        ensures
            match spec_lookup(self.data@, name@) {
                None => r is None,
                Some(bytes) => (r is Some) == T::spec_decodable(bytes) && (r matches Some(v)
                    ==> v.spec_decoded_from(bytes)),
            },
    {
        self.data.get(name)
    }

    /// Set some data on the profile.
    pub fn set_data<T: WindowRelativeProfileDataConvertible>(&mut self, name: &str, value: T)
        ensures
            final(self).data@ == spec_store(old(self).data@, name@, value.spec_encode()),
            final(self).id == old(self).id,
            final(self).lifecycle() == old(self).lifecycle(),
    {
        self.data.set(name, value);
    }

    /// Get the id of the profile.
    pub fn id(&self) -> (r: &str)
        ensures
            r@ == self.id@,
    {
        self.id.as_str()
    }

    /// Get the title of the profile.
    pub fn title(&self) -> (r: &str)
        ensures
            r@ == self.title@,
    {
        self.title.as_str()
    }

    /// Get the process name of the profile.
    pub fn process_name(&self) -> (r: &str)
        ensures
            r@ == self.process_name@,
    {
        self.process_name.as_str()
    }

    /// Whether or not this is the fallback profile.
    pub fn is_default_profile(&self) -> (r: bool)
        ensures
            r == self.is_default_profile,
    {
        self.is_default_profile
    }

    /// Whether this profile fits the focused window: never for the fallback
    /// profile, by process-name equality for the default checker, and by the
    /// host's predicate otherwise.
    pub fn is_active<H: WindowRelativeHost>(
        &self,
        host: &mut H,
        window: &WindowSnapshot,
        active_process_name: &str,
        active_process_title: &str,
    ) -> (r: bool)
        ensures
            self.active_checker is Never ==> !r,
            self.active_checker is ProcessNameEquals ==> r == (active_process_name@
                == self.process_name@),
    {
        match self.active_checker {
            ActiveChecker::Never => false,
            ActiveChecker::ProcessNameEquals => str_eq(active_process_name, self.process_name.as_str()),
            ActiveChecker::Host => host.check_active(
                self.id.as_str(),
                window,
                active_process_name,
                active_process_title,
            ),
        }
    }

    /// Run one service-and-handler pass for the event: matching services in
    /// order (expired ones removed after their run), then every handler. A
    /// host error aborts the pass.
    fn run_pass<H: WindowRelativeHost>(
        &mut self,
        host: &mut H,
        window: &WindowSnapshot,
        event_name: &str,
        trace: &mut Vec<Effect>,
    ) -> (r: Result<(), String>)
        ensures
            final(self).same_identity(*old(self)),
            final(self).is_opened == old(self).is_opened,
            final(self).is_active == old(self).is_active,
            final(self).is_recursing_scheduler_events == old(self).is_recursing_scheduler_events,
            old(self).services@.len() == 0 && old(self).event_handler_count == 0 ==> r is Ok,
            r is Ok ==> final(self).services@ == surviving_services(
                old(self).services@,
                event_name@,
            ) && trace_view(final(trace)@) == trace_view(old(trace)@) + pass_trace(
                old(self).lifecycle(),
                event_name@,
            ),
            r is Err ==> pass_trace_prefix(
                old(self).lifecycle(),
                event_name@,
                old(trace)@,
                final(trace)@,
            ),
    {
        let ghost st0 = self.lifecycle();
        let ghost trace0 = trace@;
        let r = self.services.run(host, self.id.as_str(), window, event_name, trace);
        match r {
            Err(message) => {
                proof {
                    let e = event_name@;
                    let svcs = st0.services;
                    let j = choose|j: int|
                        0 <= j <= svcs.len() && self.services@ == surviving_services(
                            #[trigger] svcs.take(j),
                            e,
                        ) + svcs.skip(j) && trace_view(trace@) == trace_view(trace0)
                            + service_run_trace(svcs.take(j), e);
                    crate::profile_service::lemma_service_run_trace_split(svcs, e, j);
                    let partial = service_run_trace(svcs.take(j), e);
                    let k = partial.len() as int;
                    assert(pass_trace(st0, e).take(k) =~= partial);
                    assert(pass_trace_prefix(st0, e, trace0, trace@)) by {
                        assert(0 <= k <= pass_trace(st0, e).len() && trace_view(trace@)
                            == trace_view(trace0) + #[trigger] pass_trace(st0, e).take(k));
                    }
                }
                Err(message)
            },
            Ok(()) => {
                let ghost trace1 = trace@;
                let mut h: usize = 0;
                while h < self.event_handler_count
                    invariant
                        0 <= h <= self.event_handler_count,
                        same_profile_fields(*self, *old(self)),
                        self.services@ == surviving_services(st0.services, event_name@),
                        st0 == old(self).lifecycle(),
                        trace_view(trace@) == trace_view(trace1) + handler_run_trace(
                            h as nat,
                            event_name@,
                        ),
                        trace_view(trace1) == trace_view(trace0) + service_run_trace(
                            st0.services,
                            event_name@,
                        ),
                        trace0 == old(trace)@,
                    decreases self.event_handler_count - h,
                {
                    match host.run_handler(self.id.as_str(), h, window, event_name) {
                        Err(message) => {
                            proof {
                                let e = event_name@;
                                let srt = service_run_trace(st0.services, e);
                                let k = srt.len() + h as int;
                                assert(handler_run_trace(h as nat, e) =~= handler_run_trace(
                                    st0.handler_count,
                                    e,
                                ).take(h as int));
                                assert(pass_trace(st0, e).take(k) =~= srt + handler_run_trace(
                                    h as nat,
                                    e,
                                ));
                                assert(pass_trace_prefix(st0, e, trace0, trace@)) by {
                                    assert(0 <= k <= pass_trace(st0, e).len() && trace_view(trace@)
                                        == trace_view(trace0) + #[trigger] pass_trace(st0, e).take(
                                        k,
                                    ));
                                }
                            }
                            return Err(message);
                        },
                        Ok(()) => {
                            let effect = Effect::HandlerRan {
                                handler_index: h,
                                event_name: event_name.to_owned(),
                            };
                            proof {
                                lemma_trace_view_push(trace@, effect);
                            }
                            trace.push(effect);
                            proof {
                                assert(handler_run_trace((h + 1) as nat, event_name@)
                                    =~= handler_run_trace(h as nat, event_name@).push(effect@));
                            }
                        },
                    }
                    h += 1;
                }
                proof {
                    assert(trace_view(trace@) =~= trace_view(old(trace)@) + pass_trace(
                        old(self).lifecycle(),
                        event_name@,
                    ));
                }
                Ok(())
            },
        }
    }

    /// Dispatch the `open` phase: mark opened, then run the pass. Like every
    /// phase dispatch: on success, the lifecycle state and the appended trace
    /// are exactly what one `step` of the event gives; identity fields and the
    /// re-entry guard are untouched, and the lifecycle invariant holds either
    /// way.
    fn dispatch_open<H: WindowRelativeHost>(
        &mut self,
        host: &mut H,
        window: &WindowSnapshot,
        event_name: &str,
        trace: &mut Vec<Effect>,
    ) -> (r: Result<(), String>)
        requires
            old(self).wf(),
            event_name@ == "open"@,
        ensures
            final(self).same_identity(*old(self)),
            final(self).is_recursing_scheduler_events == old(self).is_recursing_scheduler_events,
            final(self).wf(),
            old(self).services@.len() == 0 && old(self).event_handler_count == 0 ==> r is Ok,
            r is Ok ==> ({
                let outcome = step(
                    old(self).lifecycle(),
                    event_name@,
                    window.exists,
                    window.is_visible,
                );
                final(self).lifecycle() == outcome.0 && trace_view(final(trace)@) == trace_view(
                    old(trace)@,
                ) + outcome.1
            }),
            r is Err ==> dispatch_trace_prefix(
                old(self).lifecycle(),
                event_name@,
                window.exists,
                window.is_visible,
                old(trace)@,
                final(trace)@,
            ),
    {
        let ghost st = self.lifecycle();
        let ghost trace0 = trace@;
        self.is_opened = true;
        proof {
            lemma_trace_view_push(trace@, Effect::Opened);
        }
        trace.push(Effect::Opened);
        let ghost trace_marked = trace@;
        let ghost st1 = LifecycleState { opened: true, ..st };
        proof {
            assert(self.lifecycle() =~= st1);
        }
        match self.run_pass(host, window, event_name, trace) {
            Err(message) => {
                proof {
                    let e = event_name@;
                    let full = step(st, e, window.exists, window.is_visible).1;
                    let k = choose|k: int|
                        0 <= k <= pass_trace(st1, e).len() && trace_view(trace@) == trace_view(
                            trace_marked,
                        ) + #[trigger] pass_trace(st1, e).take(k);
                    assert(full.take(1 + k) =~= seq![EffectView::Opened] + pass_trace(st1, e).take(
                        k,
                    ));
                    assert(trace_view(trace@) =~= trace_view(trace0) + full.take(1 + k));
                    assert(dispatch_trace_prefix(
                        st,
                        e,
                        window.exists,
                        window.is_visible,
                        trace0,
                        trace@,
                    )) by {
                        assert(0 <= 1 + k <= step(st, e, window.exists, window.is_visible).1.len()
                            && trace_view(trace@) == trace_view(trace0) + #[trigger] step(
                            st,
                            e,
                            window.exists,
                            window.is_visible,
                        ).1.take(1 + k));
                    }
                }
                Err(message)
            },
            Ok(()) => {
                proof {
                    let outcome = step(st, event_name@, window.exists, window.is_visible);
                    assert(self.lifecycle() =~= outcome.0);
                    assert(trace_view(trace@) =~= trace_view(trace0) + outcome.1);
                }
                Ok(())
            },
        }
    }

    /// Dispatch the `close` phase: mark closed and inactive, then run the
    /// pass.
    fn dispatch_close<H: WindowRelativeHost>(
        &mut self,
        host: &mut H,
        window: &WindowSnapshot,
        event_name: &str,
        trace: &mut Vec<Effect>,
    ) -> (r: Result<(), String>)
        requires
            old(self).wf(),
            event_name@ == "close"@,
        ensures
            final(self).same_identity(*old(self)),
            final(self).is_recursing_scheduler_events == old(self).is_recursing_scheduler_events,
            final(self).wf(),
            old(self).services@.len() == 0 && old(self).event_handler_count == 0 ==> r is Ok,
            r is Ok ==> ({
                let outcome = step(
                    old(self).lifecycle(),
                    event_name@,
                    window.exists,
                    window.is_visible,
                );
                final(self).lifecycle() == outcome.0 && trace_view(final(trace)@) == trace_view(
                    old(trace)@,
                ) + outcome.1
            }),
            r is Err ==> dispatch_trace_prefix(
                old(self).lifecycle(),
                event_name@,
                window.exists,
                window.is_visible,
                old(trace)@,
                final(trace)@,
            ),
    {
        proof {
            lemma_builtin_names_distinct();
        }
        let ghost st = self.lifecycle();
        let ghost trace0 = trace@;
        self.is_opened = false;
        self.is_active = false;
        proof {
            lemma_trace_view_push(trace@, Effect::Closed);
        }
        trace.push(Effect::Closed);
        let ghost trace_marked = trace@;
        let ghost st1 = LifecycleState { opened: false, active: false, ..st };
        proof {
            assert(self.lifecycle() =~= st1);
        }
        match self.run_pass(host, window, event_name, trace) {
            Err(message) => {
                proof {
                    let e = event_name@;
                    let full = step(st, e, window.exists, window.is_visible).1;
                    let k = choose|k: int|
                        0 <= k <= pass_trace(st1, e).len() && trace_view(trace@) == trace_view(
                            trace_marked,
                        ) + #[trigger] pass_trace(st1, e).take(k);
                    assert(full.take(1 + k) =~= seq![EffectView::Closed] + pass_trace(st1, e).take(
                        k,
                    ));
                    assert(trace_view(trace@) =~= trace_view(trace0) + full.take(1 + k));
                    assert(dispatch_trace_prefix(
                        st,
                        e,
                        window.exists,
                        window.is_visible,
                        trace0,
                        trace@,
                    )) by {
                        assert(0 <= 1 + k <= step(st, e, window.exists, window.is_visible).1.len()
                            && trace_view(trace@) == trace_view(trace0) + #[trigger] step(
                            st,
                            e,
                            window.exists,
                            window.is_visible,
                        ).1.take(1 + k));
                    }
                }
                Err(message)
            },
            Ok(()) => {
                proof {
                    let outcome = step(st, event_name@, window.exists, window.is_visible);
                    assert(self.lifecycle() =~= outcome.0);
                    assert(trace_view(trace@) =~= trace_view(trace0) + outcome.1);
                }
                Ok(())
            },
        }
    }

    /// Dispatch the `activate` phase: synthesize `open` if never opened, mark
    /// active, resume the scheduler, run the pass, step the scheduler once.
    #[verifier::rlimit(100)]
    #[verifier::spinoff_prover]
    fn dispatch_activate<H: WindowRelativeHost>(
        &mut self,
        host: &mut H,
        window: &WindowSnapshot,
        event_name: &str,
        trace: &mut Vec<Effect>,
    ) -> (r: Result<(), String>)
        requires
            old(self).wf(),
            event_name@ == "activate"@,
        ensures
            final(self).same_identity(*old(self)),
            final(self).is_recursing_scheduler_events == old(self).is_recursing_scheduler_events,
            final(self).wf(),
            old(self).services@.len() == 0 && old(self).event_handler_count == 0 ==> r is Ok,
            r is Ok ==> ({
                let outcome = step(
                    old(self).lifecycle(),
                    event_name@,
                    window.exists,
                    window.is_visible,
                );
                final(self).lifecycle() == outcome.0 && trace_view(final(trace)@) == trace_view(
                    old(trace)@,
                ) + outcome.1
            }),
            r is Err ==> dispatch_trace_prefix(
                old(self).lifecycle(),
                event_name@,
                window.exists,
                window.is_visible,
                old(trace)@,
                final(trace)@,
            ),
    {
        proof {
            lemma_builtin_names_distinct();
        }
        let ghost st = self.lifecycle();
        let ghost trace0 = trace@;
        let ghost ex = window.exists;
        let ghost vis = window.is_visible;
        let ghost opened_outcome = if !st.opened {
            step(st, "open"@, ex, vis)
        } else {
            (st, Seq::<EffectView>::empty())
        };
        if !self.is_opened {
            match self.dispatch_open(host, window, "open", trace) {
                Err(message) => {
                    proof {
                        let e = event_name@;
                        let ofull = step(st, "open"@, ex, vis).1;
                        let k = choose|k: int|
                            0 <= k <= ofull.len() && trace_view(trace@) == trace_view(trace0)
                                + #[trigger] step(st, "open"@, ex, vis).1.take(k);
                        let full = step(st, e, ex, vis).1;
                        assert(full.take(k) =~= ofull.take(k));
                        assert(dispatch_trace_prefix(st, e, ex, vis, trace0, trace@)) by {
                            assert(0 <= k <= step(st, e, ex, vis).1.len() && trace_view(trace@)
                                == trace_view(trace0) + #[trigger] step(st, e, ex, vis).1.take(k));
                        }
                    }
                    return Err(message);
                },
                Ok(()) => {},
            }
        }
        proof {
            assert(self.lifecycle() == opened_outcome.0);
            assert(trace_view(trace@) =~= trace_view(trace0) + opened_outcome.1);
        }
        self.is_active = true;
        proof {
            lemma_trace_view_push(trace@, Effect::Activated);
        }
        trace.push(Effect::Activated);
        host.resume_scheduler(self.id.as_str());
        proof {
            lemma_trace_view_push(trace@, Effect::SchedulerResumed);
        }
        trace.push(Effect::SchedulerResumed);
        let ghost trace_marked = trace@;
        let ghost st1 = LifecycleState { active: true, ..opened_outcome.0 };
        proof {
            assert(self.lifecycle() =~= st1);
        }
        match self.run_pass(host, window, event_name, trace) {
            Err(message) => {
                proof {
                    let e = event_name@;
                    let full = step(st, e, ex, vis).1;
                    let base = opened_outcome.1 + seq![
                        EffectView::Activated,
                        EffectView::SchedulerResumed,
                    ];
                    let k = choose|k: int|
                        0 <= k <= pass_trace(st1, e).len() && trace_view(trace@) == trace_view(
                            trace_marked,
                        ) + #[trigger] pass_trace(st1, e).take(k);
                    assert(trace_view(trace_marked) =~= trace_view(trace0) + base);
                    let kk = base.len() + k;
                    assert(full.take(kk as int) =~= base + pass_trace(st1, e).take(k));
                    assert(trace_view(trace@) =~= trace_view(trace0) + full.take(kk as int));
                    assert(dispatch_trace_prefix(st, e, ex, vis, trace0, trace@)) by {
                        assert(0 <= kk <= step(st, e, ex, vis).1.len() && trace_view(trace@)
                            == trace_view(trace0) + #[trigger] step(st, e, ex, vis).1.take(
                            kk as int,
                        ));
                    }
                }
                return Err(message);
            },
            Ok(()) => {},
        }
        host.step_scheduler(self.id.as_str());
        proof {
            lemma_trace_view_push(trace@, Effect::SchedulerStepped);
        }
        trace.push(Effect::SchedulerStepped);
        proof {
            let outcome = step(st, event_name@, ex, vis);
            assert(self.lifecycle() =~= outcome.0);
            assert(trace_view(trace@) =~= trace_view(trace0) + outcome.1);
        }
        Ok(())
    }

    /// Dispatch the `deactivate` phase: mark inactive, run the pass, step and
    /// pause the scheduler, and synthesize `close` when the window is gone.
    #[verifier::rlimit(100)]
    #[verifier::spinoff_prover]
    fn dispatch_deactivate<H: WindowRelativeHost>(
        &mut self,
        host: &mut H,
        window: &WindowSnapshot,
        event_name: &str,
        trace: &mut Vec<Effect>,
    ) -> (r: Result<(), String>)
        requires
            old(self).wf(),
            event_name@ == "deactivate"@,
        ensures
            final(self).same_identity(*old(self)),
            final(self).is_recursing_scheduler_events == old(self).is_recursing_scheduler_events,
            final(self).wf(),
            old(self).services@.len() == 0 && old(self).event_handler_count == 0 ==> r is Ok,
            r is Ok ==> ({
                let outcome = step(
                    old(self).lifecycle(),
                    event_name@,
                    window.exists,
                    window.is_visible,
                );
                final(self).lifecycle() == outcome.0 && trace_view(final(trace)@) == trace_view(
                    old(trace)@,
                ) + outcome.1
            }),
            r is Err ==> dispatch_trace_prefix(
                old(self).lifecycle(),
                event_name@,
                window.exists,
                window.is_visible,
                old(trace)@,
                final(trace)@,
            ),
    {
        proof {
            lemma_builtin_names_distinct();
        }
        let ghost st = self.lifecycle();
        let ghost trace0 = trace@;
        let ghost ex = window.exists;
        let ghost vis = window.is_visible;
        self.is_active = false;
        proof {
            lemma_trace_view_push(trace@, Effect::Deactivated);
        }
        trace.push(Effect::Deactivated);
        let ghost trace_marked = trace@;
        let ghost st1 = LifecycleState { active: false, ..st };
        proof {
            assert(self.lifecycle() =~= st1);
        }
        match self.run_pass(host, window, event_name, trace) {
            Err(message) => {
                proof {
                    let e = event_name@;
                    let full = step(st, e, ex, vis).1;
                    let k = choose|k: int|
                        0 <= k <= pass_trace(st1, e).len() && trace_view(trace@) == trace_view(
                            trace_marked,
                        ) + #[trigger] pass_trace(st1, e).take(k);
                    assert(full.take(1 + k) =~= seq![EffectView::Deactivated] + pass_trace(
                        st1,
                        e,
                    ).take(k));
                    assert(trace_view(trace@) =~= trace_view(trace0) + full.take(1 + k));
                    assert(dispatch_trace_prefix(st, e, ex, vis, trace0, trace@)) by {
                        assert(0 <= 1 + k <= step(st, e, ex, vis).1.len() && trace_view(trace@)
                            == trace_view(trace0) + #[trigger] step(st, e, ex, vis).1.take(1 + k));
                    }
                }
                return Err(message);
            },
            Ok(()) => {},
        }
        host.step_scheduler(self.id.as_str());
        proof {
            lemma_trace_view_push(trace@, Effect::SchedulerStepped);
        }
        trace.push(Effect::SchedulerStepped);
        host.pause_scheduler(self.id.as_str());
        proof {
            lemma_trace_view_push(trace@, Effect::SchedulerPaused);
        }
        trace.push(Effect::SchedulerPaused);
        let ghost trace_paused = trace@;
        let ghost st2 = pass_state(st1, event_name@);
        proof {
            assert(self.lifecycle() =~= st2);
        }
        if !window.exists || !window.is_visible {
            match self.dispatch_close(host, window, "close", trace) {
                Err(message) => {
                    proof {
                        let e = event_name@;
                        let full = step(st, e, ex, vis).1;
                        let base = seq![EffectView::Deactivated] + pass_trace(st1, e) + seq![
                            EffectView::SchedulerStepped,
                            EffectView::SchedulerPaused,
                        ];
                        let cfull = step(st2, "close"@, ex, vis).1;
                        let k = choose|k: int|
                            0 <= k <= cfull.len() && trace_view(trace@) == trace_view(trace_paused)
                                + #[trigger] step(st2, "close"@, ex, vis).1.take(k);
                        assert(trace_view(trace_paused) =~= trace_view(trace0) + base);
                        let kk = base.len() + k;
                        assert(full.take(kk as int) =~= base + cfull.take(k));
                        assert(trace_view(trace@) =~= trace_view(trace0) + full.take(kk as int));
                        assert(dispatch_trace_prefix(st, e, ex, vis, trace0, trace@)) by {
                            assert(0 <= kk <= step(st, e, ex, vis).1.len() && trace_view(trace@)
                                == trace_view(trace0) + #[trigger] step(st, e, ex, vis).1.take(
                                kk as int,
                            ));
                        }
                    }
                    return Err(message);
                },
                Ok(()) => {},
            }
        }
        proof {
            let outcome = step(st, event_name@, ex, vis);
            assert(self.lifecycle() =~= outcome.0);
            assert(trace_view(trace@) =~= trace_view(trace0) + outcome.1);
        }
        Ok(())
    }

    /// Dispatch one event against this profile: the built-in state change of
    /// the phase happens first, then the matching services and the handlers
    /// run; `activate` on a never-opened profile synthesizes `open` before its
    /// own effects, and `deactivate` synthesizes `close` when the window no
    /// longer exists or is not visible. A host error aborts the rest of the
    /// dispatch. The scheduler's queued events are not fetched here.
    pub fn dispatch_event<H: WindowRelativeHost>(
        &mut self,
        host: &mut H,
        window: &WindowSnapshot,
        event_name: &str,
        trace: &mut Vec<Effect>,
    ) -> (r: Result<(), String>)
        requires
            old(self).wf(),
        ensures
            final(self).same_identity(*old(self)),
            final(self).is_recursing_scheduler_events == old(self).is_recursing_scheduler_events,
            final(self).wf(),
            old(self).services@.len() == 0 && old(self).event_handler_count == 0 ==> r is Ok,
            r is Ok ==> ({
                let outcome = step(
                    old(self).lifecycle(),
                    event_name@,
                    window.exists,
                    window.is_visible,
                );
                final(self).lifecycle() == outcome.0 && trace_view(final(trace)@) == trace_view(
                    old(trace)@,
                ) + outcome.1
            }),
            r is Err ==> dispatch_trace_prefix(
                old(self).lifecycle(),
                event_name@,
                window.exists,
                window.is_visible,
                old(trace)@,
                final(trace)@,
            ),
    {
        proof {
            lemma_builtin_names_distinct();
        }
        let ghost st = self.lifecycle();
        let ghost trace0 = trace@;
        if str_eq(event_name, "open") {
            self.dispatch_open(host, window, event_name, trace)
        } else if str_eq(event_name, "activate") {
            self.dispatch_activate(host, window, event_name, trace)
        } else if str_eq(event_name, "deactivate") {
            self.dispatch_deactivate(host, window, event_name, trace)
        } else if str_eq(event_name, "close") {
            self.dispatch_close(host, window, event_name, trace)
        } else if str_eq(event_name, "update") {
            host.step_scheduler(self.id.as_str());
            proof {
                lemma_trace_view_push(trace@, Effect::SchedulerStepped);
            }
            trace.push(Effect::SchedulerStepped);
            let ghost trace_marked = trace@;
            match self.run_pass(host, window, event_name, trace) {
                Err(message) => {
                    proof {
                        let e = event_name@;
                        let full = step(st, e, window.exists, window.is_visible).1;
                        let k = choose|k: int|
                            0 <= k <= pass_trace(st, e).len() && trace_view(trace@) == trace_view(
                                trace_marked,
                            ) + #[trigger] pass_trace(st, e).take(k);
                        assert(full.take(1 + k) =~= seq![EffectView::SchedulerStepped]
                            + pass_trace(st, e).take(k));
                        assert(trace_view(trace@) =~= trace_view(trace0) + full.take(1 + k));
                        assert(dispatch_trace_prefix(
                            st,
                            e,
                            window.exists,
                            window.is_visible,
                            trace0,
                            trace@,
                        )) by {
                            assert(0 <= 1 + k <= step(
                                st,
                                e,
                                window.exists,
                                window.is_visible,
                            ).1.len() && trace_view(trace@) == trace_view(trace0) + #[trigger] step(
                                st,
                                e,
                                window.exists,
                                window.is_visible,
                            ).1.take(1 + k));
                        }
                    }
                    Err(message)
                },
                Ok(()) => {
                    proof {
                        let outcome = step(st, event_name@, window.exists, window.is_visible);
                        assert(self.lifecycle() =~= outcome.0);
                        assert(trace_view(trace@) =~= trace_view(trace0) + outcome.1);
                    }
                    Ok(())
                },
            }
        } else {
            match self.run_pass(host, window, event_name, trace) {
                Err(message) => {
                    proof {
                        let e = event_name@;
                        let full = step(st, e, window.exists, window.is_visible).1;
                        let k = choose|k: int|
                            0 <= k <= pass_trace(st, e).len() && trace_view(trace@) == trace_view(
                                trace0,
                            ) + #[trigger] pass_trace(st, e).take(k);
                        assert(full.take(k) =~= pass_trace(st, e).take(k));
                        assert(dispatch_trace_prefix(
                            st,
                            e,
                            window.exists,
                            window.is_visible,
                            trace0,
                            trace@,
                        )) by {
                            assert(0 <= k <= step(st, e, window.exists, window.is_visible).1.len()
                                && trace_view(trace@) == trace_view(trace0) + #[trigger] step(
                                st,
                                e,
                                window.exists,
                                window.is_visible,
                            ).1.take(k));
                        }
                    }
                    Err(message)
                },
                Ok(()) => {
                    proof {
                        let outcome = step(st, event_name@, window.exists, window.is_visible);
                        assert(self.lifecycle() =~= outcome.0);
                        assert(trace_view(trace@) =~= trace_view(trace0) + outcome.1);
                    }
                    Ok(())
                },
            }
        }
    }


    /// Trigger an event: first, at the outermost call only, dispatch the
    /// events the scheduler has queued (guarded by the re-entry flag), then
    /// dispatch the event itself. Returns the effect trace beside the outcome:
    /// on success the trace is the whole run's; on a host error the trace is
    /// what ran before the abort — a prefix of one legitimate full run, so no
    /// service or handler ordered after the failing one was invoked — and the
    /// failing call's message is handed back.
    pub fn trigger_event<H: WindowRelativeHost>(
        &mut self,
        host: &mut H,
        window: &WindowSnapshot,
        event_name: &str,
    ) -> (r: (Vec<Effect>, Result<(), String>))
        requires
            old(self).wf(),
        ensures
            final(self).same_identity(*old(self)),
            final(self).is_recursing_scheduler_events == old(self).is_recursing_scheduler_events,
            final(self).wf(),
            old(self).services@.len() == 0 && old(self).event_handler_count == 0 ==> r.1 is Ok,
            r.1 is Ok ==> triggered(
                old(self).lifecycle(),
                event_name@,
                window.exists,
                window.is_visible,
                old(self).is_recursing_scheduler_events,
                final(self).lifecycle(),
                r.0@,
            ),
            r.1 is Err ==> trigger_trace_prefix(
                old(self).lifecycle(),
                window.exists,
                window.is_visible,
                r.0@,
            ),
    {
        let mut trace: Vec<Effect> = Vec::new();
        let ghost st0 = self.lifecycle();
        let ghost mut batch: Seq<Seq<char>> = Seq::empty();
        proof {
            assert(trace_view(trace@) =~= Seq::<EffectView>::empty());
        }
        if !self.is_recursing_scheduler_events {
            let pending = host.pending_scheduler_events(self.id.as_str());
            if pending.len() > 0 {
                self.is_recursing_scheduler_events = true;
                let mut i: usize = 0;
                while i < pending.len()
                    invariant
                        0 <= i <= pending@.len(),
                        st0 == old(self).lifecycle(),
                        !old(self).is_recursing_scheduler_events,
                        self.wf(),
                        self.same_identity(*old(self)),
                        self.is_recursing_scheduler_events,
                        batch == pending@.map_values(|s: String| s@).take(i as int),
                        ({
                            let pre = steps(st0, batch, window.exists, window.is_visible);
                            self.lifecycle() == pre.0 && trace_view(trace@) == pre.1
                        }),
                    decreases pending@.len() - i,
                {
                    proof {
                        if old(self).services@.len() == 0 && old(self).event_handler_count == 0 {
                            lemma_steps_preserve_empty(
                                st0,
                                batch,
                                window.exists,
                                window.is_visible,
                            );
                            assert(self.services@.len() == 0);
                        }
                    }
                    let ghost pre_state = steps(st0, batch, window.exists, window.is_visible);
                    let ghost trace_pre = trace@;
                    match self.dispatch_event(host, window, pending[i].as_str(), &mut trace) {
                        Err(message) => {
                            self.is_recursing_scheduler_events = false;
                            proof {
                                let failing = pending@[i as int]@;
                                let k = choose|k: int|
                                    0 <= k <= step(
                                        pre_state.0,
                                        failing,
                                        window.exists,
                                        window.is_visible,
                                    ).1.len() && trace_view(trace@) == trace_view(trace_pre)
                                        + #[trigger] step(
                                        pre_state.0,
                                        failing,
                                        window.exists,
                                        window.is_visible,
                                    ).1.take(k);
                                assert(trigger_trace_prefix(
                                    old(self).lifecycle(),
                                    window.exists,
                                    window.is_visible,
                                    trace@,
                                )) by {
                                    let pre = steps(
                                        old(self).lifecycle(),
                                        batch,
                                        window.exists,
                                        window.is_visible,
                                    );
                                    let last = step(pre.0, failing, window.exists, window.is_visible);
                                    assert(0 <= k <= last.1.len() && trace_view(trace@) == pre.1
                                        + last.1.take(k));
                                }
                            }
                            return (trace, Err(message));
                        },
                        Ok(()) => {},
                    }
                    proof {
                        lemma_steps_push(
                            st0,
                            batch,
                            pending@[i as int]@,
                            window.exists,
                            window.is_visible,
                        );
                        batch = batch.push(pending@[i as int]@);
                        assert(batch =~= pending@.map_values(|s: String| s@).take(i as int + 1));
                    }
                    i += 1;
                }
                self.is_recursing_scheduler_events = false;
            }
        }
        let ghost pre = steps(st0, batch, window.exists, window.is_visible);
        let ghost trace_pre = trace@;
        proof {
            assert(self.lifecycle() == pre.0 && trace_view(trace@) == pre.1);
            if old(self).services@.len() == 0 && old(self).event_handler_count == 0 {
                lemma_steps_preserve_empty(st0, batch, window.exists, window.is_visible);
                assert(self.services@.len() == 0);
            }
        }
        match self.dispatch_event(host, window, event_name, &mut trace) {
            Err(message) => {
                proof {
                    let k = choose|k: int|
                        0 <= k <= step(pre.0, event_name@, window.exists, window.is_visible).1.len()
                            && trace_view(trace@) == trace_view(trace_pre) + #[trigger] step(
                            pre.0,
                            event_name@,
                            window.exists,
                            window.is_visible,
                        ).1.take(k);
                    assert(trigger_trace_prefix(
                        old(self).lifecycle(),
                        window.exists,
                        window.is_visible,
                        trace@,
                    )) by {
                        let pre2 = steps(
                            old(self).lifecycle(),
                            batch,
                            window.exists,
                            window.is_visible,
                        );
                        let last = step(pre2.0, event_name@, window.exists, window.is_visible);
                        assert(0 <= k <= last.1.len() && trace_view(trace@) == pre2.1 + last.1.take(
                            k,
                        ));
                    }
                }
                (trace, Err(message))
            },
            Ok(()) => {
                proof {
                    assert(trigger_outcome(
                        st0,
                        batch,
                        event_name@,
                        window.exists,
                        window.is_visible,
                        self.lifecycle(),
                        trace@,
                    ));
                    assert(old(self).is_recursing_scheduler_events ==> batch.len() == 0);
                    assert(triggered(
                        old(self).lifecycle(),
                        event_name@,
                        window.exists,
                        window.is_visible,
                        old(self).is_recursing_scheduler_events,
                        self.lifecycle(),
                        trace@,
                    )) by {
                        assert(trigger_outcome(
                            old(self).lifecycle(),
                            batch,
                            event_name@,
                            window.exists,
                            window.is_visible,
                            self.lifecycle(),
                            trace@,
                        ) && (old(self).is_recursing_scheduler_events ==> batch.len() == 0));
                    }
                }
                (trace, Ok(()))
            },
        }
    }
}

/// A successful `trigger_event` from state `st` reached `fin` with trace
/// `trace`: some batch of scheduler-queued events (none, when re-entered) was
/// dispatched, then the event itself.
pub open spec fn triggered(
    st: LifecycleState,
    e: Seq<char>,
    exists_: bool,
    visible: bool,
    was_recursing: bool,
    fin: LifecycleState,
    trace: Seq<Effect>,
) -> bool {
    exists|batch: Seq<Seq<char>>|
        #[trigger] trigger_outcome(st, batch, e, exists_, visible, fin, trace) && (was_recursing
            ==> batch.len() == 0)
}

/// The outcome that a successful `trigger_event` pins down: some batch of
/// scheduler-queued events was dispatched first, then the event itself, and
/// the final lifecycle state and the trace are exactly those dispatches'.
pub open spec fn trigger_outcome(
    st: LifecycleState,
    batch: Seq<Seq<char>>,
    e: Seq<char>,
    exists_: bool,
    visible: bool,
    fin: LifecycleState,
    trace: Seq<Effect>,
) -> bool {
    let pre = steps(st, batch, exists_, visible);
    let last = step(pre.0, e, exists_, visible);
    fin == last.0 && trace_view(trace) == pre.1 + last.1
}

/// The values that applying each modification in turn can produce: `to` is
/// reachable from `from` by some value at every step that the respective
/// modification's postcondition admits.
pub open spec fn modified_chain<F: Fn(WindowRelativeProfile) -> WindowRelativeProfile>(
    modifications: Seq<F>,
    from: WindowRelativeProfile,
    to: WindowRelativeProfile,
) -> bool
    decreases modifications.len(),
{
    if modifications.len() == 0 {
        to == from
    } else {
        exists|mid: WindowRelativeProfile|
            #[trigger] call_ensures(modifications[0], (from,), mid) && modified_chain(
                modifications.drop_first(),
                mid,
                to,
            )
    }
}

/// One more modification extends the chain by its own postcondition.
proof fn lemma_modified_chain_push<F: Fn(WindowRelativeProfile) -> WindowRelativeProfile>(
    modifications: Seq<F>,
    modification: F,
    from: WindowRelativeProfile,
    mid: WindowRelativeProfile,
    to: WindowRelativeProfile,
)
    requires
        modified_chain(modifications, from, mid),
        call_ensures(modification, (mid,), to),
    ensures
        modified_chain(modifications.push(modification), from, to),
    decreases modifications.len(),
{
    if modifications.len() == 0 {
        assert(mid == from);
        assert(modifications.push(modification)[0] == modification);
        assert(modifications.push(modification).drop_first() =~= Seq::<F>::empty());
        assert(modified_chain(Seq::<F>::empty(), to, to));
        assert(modified_chain(modifications.push(modification), from, to)) by {
            assert(call_ensures(modifications.push(modification)[0], (from,), to)
                && modified_chain(modifications.push(modification).drop_first(), to, to));
        }
    } else {
        let m0 = choose|m0: WindowRelativeProfile|
            #[trigger] call_ensures(modifications[0], (from,), m0) && modified_chain(
                modifications.drop_first(),
                m0,
                mid,
            );
        lemma_modified_chain_push(modifications.drop_first(), modification, m0, mid, to);
        assert(modifications.push(modification)[0] == modifications[0]);
        assert(modifications.push(modification).drop_first() =~= modifications.drop_first().push(
            modification,
        ));
        assert(modified_chain(modifications.push(modification), from, to)) by {
            assert(call_ensures(modifications.push(modification)[0], (from,), m0)
                && modified_chain(modifications.push(modification).drop_first(), m0, to));
        }
    }
}

/// The fields that a dispatch never writes agree between the two profiles, and
/// the lifecycle flags agree too (used while only the trace grows).
pub open spec fn same_profile_fields(a: WindowRelativeProfile, b: WindowRelativeProfile) -> bool {
    &&& a.same_identity(b)
    &&& a.is_opened == b.is_opened
    &&& a.is_active == b.is_active
    &&& a.is_recursing_scheduler_events == b.is_recursing_scheduler_events
}

/// Law: every service-run effect of a pass carries the dispatched event's
/// name, so a pass for one phase never runs a service under another phase's
/// name.
pub proof fn lemma_pass_runs_own_event(svcs: Seq<WindowRelativeProfileService>, e: Seq<char>)
    ensures
        forall|i: int|
            0 <= i < service_run_trace(svcs, e).len() ==> ((#[trigger] service_run_trace(
                svcs,
                e,
            )[i]) matches EffectView::ServiceRan { event_name, .. } && event_name == e),
    decreases svcs.len(),
{
    if svcs.len() > 0 {
        lemma_pass_runs_own_event(svcs.drop_first(), e);
    }
}

/// Law: activating a never-opened profile dispatches the full open phase
/// first — the open-triggered services run exactly once, and every one of
/// their effects precedes every activate-phase effect of the same call.
pub proof fn lemma_activate_synthesizes_open(st: LifecycleState, exists_: bool, visible: bool)
    requires
        !st.opened,
    ensures
        ({
            let opened = step(st, "open"@, exists_, visible);
            let st1 = LifecycleState { active: true, ..opened.0 };
            step(st, "activate"@, exists_, visible) == (
                pass_state(st1, "activate"@),
                opened.1 + seq![EffectView::Activated, EffectView::SchedulerResumed] + pass_trace(
                    st1,
                    "activate"@,
                ) + seq![EffectView::SchedulerStepped],
            ) && opened.0.opened && step(st, "activate"@, exists_, visible).0.opened
        }),
{
    lemma_builtin_names_distinct();
}

/// Law: activating an already-opened profile dispatches no open phase: its
/// trace holds only activate-phase effects, so re-activation without an
/// intervening deactivate runs open-triggered services no further time while
/// activate-triggered services run once per call.
pub proof fn lemma_reactivation_skips_open(st: LifecycleState, exists_: bool, visible: bool)
    requires
        st.opened,
    ensures
        ({
            let st1 = LifecycleState { active: true, ..st };
            step(st, "activate"@, exists_, visible) == (
                pass_state(st1, "activate"@),
                seq![EffectView::Activated, EffectView::SchedulerResumed] + pass_trace(
                    st1,
                    "activate"@,
                ) + seq![EffectView::SchedulerStepped],
            )
        }),
{
    lemma_builtin_names_distinct();
    let st1 = LifecycleState { active: true, ..st };
    let outcome = step(st, "activate"@, exists_, visible);
    assert(outcome.1 =~= seq![EffectView::Activated, EffectView::SchedulerResumed] + pass_trace(
        st1,
        "activate"@,
    ) + seq![EffectView::SchedulerStepped]);
}

/// Law: a first activation leaves the profile opened, so a second activation
/// without an intervening deactivate goes through the open-skipping dispatch.
pub proof fn lemma_reactivation_is_idempotent(st: LifecycleState, exists_: bool, visible: bool)
    ensures
        step(st, "activate"@, exists_, visible).0.opened,
        step(st, "activate"@, exists_, visible).0.active,
{
    lemma_builtin_names_distinct();
    if !st.opened {
        assert(step(st, "open"@, exists_, visible).0.opened);
    }
}

/// Law: deactivating with a window that no longer exists or is not visible
/// dispatches the close phase within the same call, leaving the profile
/// closed; with a live, visible window no close phase happens and the profile
/// stays opened.
pub proof fn lemma_deactivate_synthesizes_close(st: LifecycleState, exists_: bool, visible: bool)
    ensures
        ({
            let st1 = LifecycleState { active: false, ..st };
            let st2 = pass_state(st1, "deactivate"@);
            let base = seq![EffectView::Deactivated] + pass_trace(st1, "deactivate"@) + seq![
                EffectView::SchedulerStepped,
                EffectView::SchedulerPaused,
            ];
            let closed = step(st2, "close"@, exists_, visible);
            let outcome = step(st, "deactivate"@, exists_, visible);
            &&& (!exists_ || !visible) ==> outcome == (closed.0, base + closed.1)
                && !outcome.0.opened && !outcome.0.active
            &&& (exists_ && visible) ==> outcome == (st2, base) && outcome.0.opened == st.opened
                && !outcome.0.active
        }),
{
    lemma_builtin_names_distinct();
    let st1 = LifecycleState { active: false, ..st };
    let st2 = pass_state(st1, "deactivate"@);
    let base = seq![EffectView::Deactivated] + pass_trace(st1, "deactivate"@) + seq![
        EffectView::SchedulerStepped,
        EffectView::SchedulerPaused,
    ];
    let closed = step(st2, "close"@, exists_, visible);
    let outcome = step(st, "deactivate"@, exists_, visible);
    if !exists_ || !visible {
        assert(!closed.0.opened && !closed.0.active);
        assert(outcome.1 =~= base + closed.1);
    } else {
        assert(outcome.1 =~= base);
    }
}

} // verus!
