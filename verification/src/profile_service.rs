//! Services: named, pluggable reactions that a profile runs when a dispatched
//! event matches their trigger spec, in attachment order. A service may expire
//! after its first matching run (`trigger_once`).

use crate::effect::{lemma_trace_view_push, trace_view, Effect, EffectView};
use crate::host::WindowRelativeHost;
use crate::trigger::{
    lemma_matches_occurrence, occurring_of_event, spec_matches_event, TriggerSpec,
};
use crate::window::WindowSnapshot;
use vstd::prelude::*;

verus! {

/// A named reaction: when an event matching `trigger` is dispatched, the host
/// runs the service's body under this name. With `trigger_once`, the service
/// is removed after its first matching run.
pub struct WindowRelativeProfileService {
    /// The service's name, under which the host runs its body.
    pub name: String,
    /// When the service runs.
    pub trigger: TriggerSpec,
    /// Whether the service expires after one matching run.
    pub trigger_once: bool,
}

impl WindowRelativeProfileService {
    /// A service with the given name and trigger that never expires.
    pub fn new(name: &str, trigger: TriggerSpec) -> (r: WindowRelativeProfileService)
        ensures
            r.name@ == name@,
            r.trigger == trigger,
            !r.trigger_once,
    {
        WindowRelativeProfileService { name: name.to_owned(), trigger, trigger_once: false }
    }

    /// Return self marked to expire after its first matching run.
    pub fn with_trigger_once(self) -> (r: WindowRelativeProfileService)
        ensures
            r.name == self.name,
            r.trigger == self.trigger,
            r.trigger_once,
    {
        WindowRelativeProfileService { trigger_once: true, ..self }
    }
}

/// The `ServiceRan` effects of one pass over `svcs` for the event `e`: one per
/// service whose trigger matches, in order.
pub open spec fn service_run_trace(
    svcs: Seq<WindowRelativeProfileService>,
    e: Seq<char>,
) -> Seq<EffectView>
    decreases svcs.len(),
{
    if svcs.len() == 0 {
        Seq::empty()
    } else {
        (if spec_matches_event(svcs[0].trigger, e) {
            seq![EffectView::ServiceRan { service_name: svcs[0].name@, event_name: e }]
        } else {
            Seq::empty()
        }) + service_run_trace(svcs.drop_first(), e)
    }
}

/// The services left after one pass for the event `e`: those that did not
/// match, and those that matched but do not expire, in order.
pub open spec fn surviving_services(
    svcs: Seq<WindowRelativeProfileService>,
    e: Seq<char>,
) -> Seq<WindowRelativeProfileService>
    decreases svcs.len(),
{
    if svcs.len() == 0 {
        Seq::empty()
    } else {
        (if spec_matches_event(svcs[0].trigger, e) && svcs[0].trigger_once {
            Seq::empty()
        } else {
            seq![svcs[0]]
        }) + surviving_services(svcs.drop_first(), e)
    }
}

/// Appending a service appends its run, if it matches.
pub proof fn lemma_service_run_trace_push(
    s: Seq<WindowRelativeProfileService>,
    x: WindowRelativeProfileService,
    e: Seq<char>,
)
    ensures
        service_run_trace(s.push(x), e) == service_run_trace(s, e) + (if spec_matches_event(
            x.trigger,
            e,
        ) {
            seq![EffectView::ServiceRan { service_name: x.name@, event_name: e }]
        } else {
            Seq::<EffectView>::empty()
        }),
    decreases s.len(),
{
    let tail = if spec_matches_event(x.trigger, e) {
        seq![EffectView::ServiceRan { service_name: x.name@, event_name: e }]
    } else {
        Seq::<EffectView>::empty()
    };
    if s.len() == 0 {
        assert(s.push(x)[0] == x);
        assert(s.push(x).drop_first() =~= Seq::<WindowRelativeProfileService>::empty());
        assert(service_run_trace(Seq::<WindowRelativeProfileService>::empty(), e)
            == Seq::<EffectView>::empty());
        assert(s =~= Seq::<WindowRelativeProfileService>::empty());
        assert(service_run_trace(s.push(x), e) =~= service_run_trace(s, e) + tail);
    } else {
        assert(s.push(x)[0] == s[0]);
        assert(s.push(x).drop_first() =~= s.drop_first().push(x));
        lemma_service_run_trace_push(s.drop_first(), x, e);
        assert(service_run_trace(s.push(x), e) =~= service_run_trace(s, e) + tail);
    }
}

/// Appending a service appends it to the survivors, unless it expires.
pub proof fn lemma_surviving_services_push(
    s: Seq<WindowRelativeProfileService>,
    x: WindowRelativeProfileService,
    e: Seq<char>,
)
    ensures
        surviving_services(s.push(x), e) == surviving_services(s, e) + (if spec_matches_event(
            x.trigger,
            e,
        ) && x.trigger_once {
            Seq::<WindowRelativeProfileService>::empty()
        } else {
            seq![x]
        }),
    decreases s.len(),
{
    let tail = if spec_matches_event(x.trigger, e) && x.trigger_once {
        Seq::<WindowRelativeProfileService>::empty()
    } else {
        seq![x]
    };
    if s.len() == 0 {
        assert(s.push(x)[0] == x);
        assert(s.push(x).drop_first() =~= Seq::<WindowRelativeProfileService>::empty());
        assert(surviving_services(Seq::<WindowRelativeProfileService>::empty(), e)
            == Seq::<WindowRelativeProfileService>::empty());
        assert(s =~= Seq::<WindowRelativeProfileService>::empty());
        assert(surviving_services(s.push(x), e) =~= surviving_services(s, e) + tail);
    } else {
        assert(s.push(x)[0] == s[0]);
        assert(s.push(x).drop_first() =~= s.drop_first().push(x));
        lemma_surviving_services_push(s.drop_first(), x, e);
        assert(surviving_services(s.push(x), e) =~= surviving_services(s, e) + tail);
    }
}

/// The runs of a pass split at any cut: the runs of the prefix, then the runs
/// of the rest.
pub proof fn lemma_service_run_trace_split(
    svcs: Seq<WindowRelativeProfileService>,
    e: Seq<char>,
    j: int,
)
    requires
        0 <= j <= svcs.len(),
    ensures
        service_run_trace(svcs, e) == service_run_trace(svcs.take(j), e) + service_run_trace(
            svcs.skip(j),
            e,
        ),
    decreases j,
{
    if j == 0 {
        assert(svcs.take(0) =~= Seq::<WindowRelativeProfileService>::empty());
        assert(svcs.skip(0) =~= svcs);
        assert(service_run_trace(Seq::<WindowRelativeProfileService>::empty(), e)
            == Seq::<EffectView>::empty());
        assert(service_run_trace(svcs, e) =~= service_run_trace(svcs.take(j), e)
            + service_run_trace(svcs.skip(j), e));
    } else {
        assert(svcs.take(j)[0] == svcs[0]);
        lemma_service_run_trace_split(svcs.drop_first(), e, j - 1);
        assert(svcs.take(j).drop_first() =~= svcs.drop_first().take(j - 1));
        assert(svcs.skip(j) =~= svcs.drop_first().skip(j - 1));
        assert(service_run_trace(svcs, e) =~= service_run_trace(svcs.take(j), e)
            + service_run_trace(svcs.skip(j), e));
    }
}

/// Law: after one pass, no service that matched the event and expires is left;
/// the others are kept in order; and a matching expiring service ran, exactly
/// once in that pass, before it was removed.
pub proof fn lemma_trigger_once_expiry(svcs: Seq<WindowRelativeProfileService>, e: Seq<char>)
    ensures
        forall|j: int|
            0 <= j < surviving_services(svcs, e).len() ==> !(spec_matches_event(
                (#[trigger] surviving_services(svcs, e)[j]).trigger,
                e,
            ) && surviving_services(svcs, e)[j].trigger_once),
        service_run_trace(svcs, e).len() == svcs.filter(
            |s: WindowRelativeProfileService| spec_matches_event(s.trigger, e),
        ).len(),
    decreases svcs.len(),
{
    if svcs.len() == 0 {
        reveal(Seq::filter);
    } else {
        lemma_trigger_once_expiry(svcs.drop_first(), e);
        assert(svcs =~= seq![svcs[0]] + svcs.drop_first());
        lemma_filter_cons(
            svcs[0],
            svcs.drop_first(),
            |s: WindowRelativeProfileService| spec_matches_event(s.trigger, e),
        );
    }
}

/// Filtering a sequence with one element put in front filters the front
/// element and the rest separately.
proof fn lemma_filter_cons<A>(x: A, s: Seq<A>, pred: spec_fn(A) -> bool)
    ensures
        (seq![x] + s).filter(pred) == (if pred(x) {
            seq![x]
        } else {
            Seq::<A>::empty()
        }) + s.filter(pred),
    decreases s.len(),
{
    reveal(Seq::filter);
    if s.len() == 0 {
        assert((seq![x] + s) =~= seq![x]);
        assert(seq![x].drop_last() =~= Seq::<A>::empty());
        assert(Seq::<A>::empty().filter(pred) =~= Seq::<A>::empty());
        assert((seq![x] + s).filter(pred) =~= (if pred(x) {
            seq![x]
        } else {
            Seq::<A>::empty()
        }) + s.filter(pred));
    } else {
        let last = s.last();
        assert((seq![x] + s).drop_last() =~= seq![x] + s.drop_last());
        lemma_filter_cons(x, s.drop_last(), pred);
        assert((seq![x] + s).last() == last);
        assert((seq![x] + s).filter(pred) =~= (if pred(x) {
            seq![x]
        } else {
            Seq::<A>::empty()
        }) + s.filter(pred));
    }
}

/// The alias target that the event named `e` maps to: the first alias pair
/// whose source is `e` gives its target, an unlisted event maps to nothing.
pub open spec fn spec_alias_target(
    aliases: Seq<(Seq<char>, Seq<char>)>,
    e: Seq<char>,
) -> Option<Seq<char>>
    decreases aliases.len(),
{
    if aliases.len() == 0 {
        None
    } else if aliases[0].0 == e {
        Some(aliases[0].1)
    } else {
        spec_alias_target(aliases.drop_first(), e)
    }
}

/// An event-alias gate for a service body: the body fires only on the alias
/// sources, and the event is renamed to the alias target before the body sees
/// it. A host holds one beside the wrapped body and consults it inside
/// `run_service`: run the body under `run_event`'s name when it is `Some`,
/// skip it otherwise.
pub struct TriggerOverride {
    /// The alias pairs: an event name the override fires on, and the event
    /// name the wrapped body is run under.
    pub trigger_aliases: Vec<(String, String)>,
}

impl TriggerOverride {
    /// Create a new trigger override from its alias pairs.
    pub fn new(trigger_aliases: Vec<(String, String)>) -> (r: TriggerOverride)
        ensures
            r.trigger_aliases == trigger_aliases,
    {
        TriggerOverride { trigger_aliases }
    }

    /// The abstract value of the alias pairs.
    pub open spec fn aliases_view(self) -> Seq<(Seq<char>, Seq<char>)> {
        self.trigger_aliases@.map_values(|p: (String, String)| (p.0@, p.1@))
    }

    /// Whether the wrapped body should fire on the given event: exactly when
    /// some alias names it as a source.
    pub fn trigger_on_event(&self, event_name: &str) -> (r: bool)
        ensures
            r == (spec_alias_target(self.aliases_view(), event_name@) is Some),
    {
        self.run_event(event_name).is_some()
    }

    /// The event name the wrapped body runs under: the first alias whose
    /// source is the given event gives its target.
    pub fn run_event(&self, event_name: &str) -> (r: Option<String>)
        ensures
            match spec_alias_target(self.aliases_view(), event_name@) {
                None => r is None,
                Some(target) => r matches Some(t) && t@ == target,
            },
    {
        let ghost aliases = self.aliases_view();
        proof {
            assert(aliases.skip(0) =~= aliases);
        }
        let mut i: usize = 0;
        while i < self.trigger_aliases.len()
            invariant
                0 <= i <= self.trigger_aliases@.len(),
                aliases == self.aliases_view(),
                spec_alias_target(aliases, event_name@) == spec_alias_target(
                    aliases.skip(i as int),
                    event_name@,
                ),
            decreases self.trigger_aliases@.len() - i,
        {
            proof {
                assert(aliases.skip(i as int)[0] == aliases[i as int]);
                assert(aliases.skip(i as int).drop_first() =~= aliases.skip(i as int + 1));
            }
            if crate::trigger::str_eq(self.trigger_aliases[i].0.as_str(), event_name) {
                return Some(self.trigger_aliases[i].1.clone());
            }
            i += 1;
        }
        proof {
            assert(aliases.skip(i as int) =~= Seq::<(Seq<char>, Seq<char>)>::empty());
        }
        None
    }
}

/// A pass that was aborted by a host error: some prefix of the services was
/// processed (survivors kept, expired removed, matching runs traced) and the
/// rest stands untouched.
pub open spec fn partial_service_run(
    orig: Seq<WindowRelativeProfileService>,
    e: Seq<char>,
    trace0: Seq<Effect>,
    fin: Seq<WindowRelativeProfileService>,
    trace_fin: Seq<Effect>,
) -> bool {
    exists|j: int|
        0 <= j <= orig.len() && fin == surviving_services(#[trigger] orig.take(j), e) + orig.skip(j)
            && trace_view(trace_fin) == trace_view(trace0) + service_run_trace(orig.take(j), e)
}

/// An ordered set of services, owned by one profile.
pub struct WindowRelativeProfileServiceSet {
    services: Vec<WindowRelativeProfileService>,
}

impl View for WindowRelativeProfileServiceSet {
    type V = Seq<WindowRelativeProfileService>;

    closed spec fn view(&self) -> Seq<WindowRelativeProfileService> {
        self.services@
    }
}

impl WindowRelativeProfileServiceSet {
    /// Create a new, empty set.
    pub fn new() -> (r: WindowRelativeProfileServiceSet)
        ensures
            r@ == Seq::<WindowRelativeProfileService>::empty(),
    {
        WindowRelativeProfileServiceSet { services: Vec::new() }
    }

    /// Return self with a new service appended.
    pub fn with_service(self, service: WindowRelativeProfileService) -> (r:
        WindowRelativeProfileServiceSet)
        ensures
            r@ == self@.push(service),
    {
        let mut s = self;
        s.push(service);
        s
    }

    /// Add a new service at the end.
    pub fn push(&mut self, service: WindowRelativeProfileService)
        ensures
            final(self)@ == old(self)@.push(service),
    {
        self.services.push(service);
    }

    /// Remove the service at the given index.
    pub fn remove(&mut self, index: usize)
        requires
            index < old(self)@.len(),
        ensures
            final(self)@ == old(self)@.remove(index as int),
    {
        self.services.remove(index);
    }

    /// The amount of services present.
    pub fn len(&self) -> (r: usize)
        ensures
            r == self@.len(),
    {
        self.services.len()
    }

    /// Run one pass for `event_name`: each service whose trigger matches runs
    /// through the host, in order; expired services are removed after their
    /// run. A host error aborts the pass and leaves the remaining services in
    /// place.
    pub fn run<H: WindowRelativeHost>(
        &mut self,
        host: &mut H,
        profile_id: &str,
        window: &WindowSnapshot,
        event_name: &str,
        trace: &mut Vec<Effect>,
    ) -> (r: Result<(), String>)
        ensures
            (forall|j: int|
                0 <= j < old(self)@.len() ==> !spec_matches_event(
                    (#[trigger] old(self)@[j]).trigger,
                    event_name@,
                )) ==> r is Ok,
            r is Ok ==> final(self)@ == surviving_services(old(self)@, event_name@) && trace_view(
                final(trace)@,
            ) == trace_view(old(trace)@) + service_run_trace(old(self)@, event_name@),
            r is Err ==> partial_service_run(
                old(self)@,
                event_name@,
                old(trace)@,
                final(self)@,
                final(trace)@,
            ),
    {
        let ghost orig = self.services@;
        let ghost trace0 = trace@;
        let occurring = occurring_of_event(event_name);
        let mut remaining: Vec<WindowRelativeProfileService> = Vec::new();
        core::mem::swap(&mut remaining, &mut self.services);
        let ghost j: int = 0;
        proof {
            assert(orig.take(0) =~= Seq::<WindowRelativeProfileService>::empty());
            assert(self.services@ =~= surviving_services(orig.take(0), event_name@));
            assert(trace_view(trace@) =~= trace_view(trace0) + service_run_trace(
                orig.take(0),
                event_name@,
            ));
        }
        while remaining.len() > 0
            invariant
                orig == old(self)@,
                trace0 == old(trace)@,
                0 <= j <= orig.len(),
                remaining@ =~= orig.skip(j),
                self.services@ == surviving_services(orig.take(j), event_name@),
                trace_view(trace@) == trace_view(trace0) + service_run_trace(
                    orig.take(j),
                    event_name@,
                ),
                crate::trigger::is_occurrence_of(occurring, event_name@),
            decreases remaining@.len(),
        {
            let ghost old_rem = remaining@;
            let service = remaining.remove(0);
            proof {
                assert(service == orig[j]);
                assert(remaining@ =~= orig.skip(j + 1));
                lemma_matches_occurrence(service.trigger, occurring, event_name@);
                assert(orig.take(j + 1) =~= orig.take(j).push(orig[j]));
                lemma_service_run_trace_push(orig.take(j), orig[j], event_name@);
                lemma_surviving_services_push(orig.take(j), orig[j], event_name@);
            }
            if service.trigger.matches(&occurring) {
                match host.run_service(profile_id, service.name.as_str(), window, event_name) {
                    Err(message) => {
                        self.services.push(service);
                        self.services.append(&mut remaining);
                        proof {
                            assert(self.services@ =~= surviving_services(
                                orig.take(j),
                                event_name@,
                            ) + orig.skip(j));
                            assert(partial_service_run(
                                orig,
                                event_name@,
                                trace0,
                                self.services@,
                                trace@,
                            )) by {
                                assert(0 <= j <= orig.len() && self.services@
                                    == surviving_services(#[trigger] orig.take(j), event_name@)
                                    + orig.skip(j) && trace_view(trace@) == trace_view(trace0)
                                    + service_run_trace(orig.take(j), event_name@));
                            }
                        }
                        return Err(message);
                    },
                    Ok(()) => {
                        let effect = Effect::ServiceRan {
                            service_name: service.name.clone(),
                            event_name: event_name.to_owned(),
                        };
                        proof {
                            lemma_trace_view_push(trace@, effect);
                        }
                        trace.push(effect);
                        if !service.trigger_once {
                            self.services.push(service);
                        }
                    },
                }
            } else {
                self.services.push(service);
            }
            proof {
                j = j + 1;
                assert(trace_view(trace@) =~= trace_view(trace0) + service_run_trace(
                    orig.take(j),
                    event_name@,
                ));
                assert(self.services@ =~= surviving_services(orig.take(j), event_name@));
            }
        }
        proof {
            assert(orig.take(j) =~= orig);
        }
        Ok(())
    }
}

} // verus!
