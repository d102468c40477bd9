//! The profile system: an ordered collection of profiles with the reserved
//! fallback at slot 0, the index of the active profile, and the switching
//! protocol that follows window-focus changes.
//!
//! The owner of a `WindowRelativeSystem` value plays the part of the system
//! lock: every method takes the whole system exclusively, so each call is
//! atomic with respect to every other.

use crate::effect::Effect;
use crate::host::WindowRelativeHost;
use crate::profile::{triggered, ActiveChecker, WindowRelativeProfile};
use crate::trigger::str_eq;
use crate::window::WindowSnapshot;
use vstd::prelude::*;
use vstd::string::StringExecFns;

verus! {

/// Whether a profile fits the focused window, given what the host answered
/// for it: never for the fallback checker, by process-name equality for the
/// default checker, and as the host said otherwise.
pub open spec fn profile_fits(
    p: WindowRelativeProfile,
    process_name: Seq<char>,
    host_answer: bool,
) -> bool {
    match p.active_checker {
        ActiveChecker::Never => false,
        ActiveChecker::ProcessNameEquals => process_name == p.process_name@,
        ActiveChecker::Host => host_answer,
    }
}

/// A sequence of host answers, one per profile, that agrees with every
/// profile whose checker decides without the host.
pub open spec fn answers_consistent(
    profiles: Seq<WindowRelativeProfile>,
    process_name: Seq<char>,
    answers: Seq<bool>,
) -> bool {
    &&& answers.len() == profiles.len()
    &&& forall|i: int|
        0 <= i < profiles.len() ==> match (#[trigger] profiles[i]).active_checker {
            ActiveChecker::Never => answers[i] == false,
            ActiveChecker::ProcessNameEquals => answers[i] == (process_name
                == profiles[i].process_name@),
            ActiveChecker::Host => true,
        }
}

/// The first index at or after `i` whose profile fits; `0` when none does.
pub open spec fn spec_resolve_from(
    profiles: Seq<WindowRelativeProfile>,
    process_name: Seq<char>,
    answers: Seq<bool>,
    i: int,
) -> int
    decreases profiles.len() - i,
{
    if i < 0 || i >= profiles.len() {
        0
    } else if profile_fits(profiles[i], process_name, answers[i]) {
        i
    } else {
        spec_resolve_from(profiles, process_name, answers, i + 1)
    }
}

/// The index that resolution returns: the first fitting profile's, in
/// registration order, or `0` when no profile fits.
pub open spec fn spec_resolve(
    profiles: Seq<WindowRelativeProfile>,
    process_name: Seq<char>,
    answers: Seq<bool>,
) -> int {
    spec_resolve_from(profiles, process_name, answers, 0)
}

/// Law: resolution returns `0` when no profile fits the given process name,
/// and the first fitting index otherwise, in registration order.
pub proof fn lemma_resolve_first_match(
    profiles: Seq<WindowRelativeProfile>,
    process_name: Seq<char>,
    answers: Seq<bool>,
)
    requires
        answers.len() == profiles.len(),
    ensures
        (forall|i: int|
            0 <= i < profiles.len() ==> !profile_fits(
                #[trigger] profiles[i],
                process_name,
                answers[i],
            )) ==> spec_resolve(profiles, process_name, answers) == 0,
        (exists|i: int|
            0 <= i < profiles.len() && profile_fits(
                #[trigger] profiles[i],
                process_name,
                answers[i],
            )) ==> ({
            let r = spec_resolve(profiles, process_name, answers);
            &&& 0 <= r < profiles.len()
            &&& profile_fits(profiles[r], process_name, answers[r])
            &&& forall|j: int|
                0 <= j < r ==> !profile_fits(#[trigger] profiles[j], process_name, answers[j])
        }),
{
    lemma_resolve_from_props(profiles, process_name, answers, 0);
}

/// What `spec_resolve_from` guarantees of the suffix it scans.
proof fn lemma_resolve_from_props(
    profiles: Seq<WindowRelativeProfile>,
    process_name: Seq<char>,
    answers: Seq<bool>,
    i: int,
)
    requires
        answers.len() == profiles.len(),
        0 <= i <= profiles.len(),
    ensures
        (forall|k: int|
            i <= k < profiles.len() ==> !profile_fits(
                #[trigger] profiles[k],
                process_name,
                answers[k],
            )) ==> spec_resolve_from(profiles, process_name, answers, i) == 0,
        (exists|k: int|
            i <= k < profiles.len() && profile_fits(
                #[trigger] profiles[k],
                process_name,
                answers[k],
            )) ==> ({
            let r = spec_resolve_from(profiles, process_name, answers, i);
            &&& i <= r < profiles.len()
            &&& profile_fits(profiles[r], process_name, answers[r])
            &&& forall|j: int|
                i <= j < r ==> !profile_fits(#[trigger] profiles[j], process_name, answers[j])
        }),
    decreases profiles.len() - i,
{
    if i < profiles.len() {
        lemma_resolve_from_props(profiles, process_name, answers, i + 1);
    }
}

/// One entry of a switch timeline, in occurrence order.
#[derive(Debug, PartialEq, Eq)]
pub enum SystemEffect {
    /// An effect of deactivating the previously active profile.
    Deactivation(Effect),
    /// The active index moved from the old profile to the new one.
    ActiveIndexChanged { from: usize, to: usize },
    /// An effect of activating the newly active profile.
    Activation(Effect),
    /// An effect of the forced scheduler recovery after a failed activation.
    ActivationRecovery(Effect),
}

/// The shape of a switch timeline: every deactivation effect comes before the
/// active-index change, which comes before every activation effect — so
/// anything observing the activation already sees the updated index — and,
/// when the activation failed, the forced resume-and-step recovery comes last.
pub open spec fn switch_timeline(
    timeline: Seq<SystemEffect>,
    d: Seq<Effect>,
    a: Seq<Effect>,
    from: usize,
    to: usize,
    recovered: bool,
) -> bool {
    timeline == d.map_values(|e: Effect| SystemEffect::Deactivation(e)) + seq![
        SystemEffect::ActiveIndexChanged { from, to },
    ] + a.map_values(|e: Effect| SystemEffect::Activation(e)) + (if recovered {
        seq![
            SystemEffect::ActivationRecovery(Effect::SchedulerResumed),
            SystemEffect::ActivationRecovery(Effect::SchedulerStepped),
        ]
    } else {
        Seq::<SystemEffect>::empty()
    })
}

/// What one focus change did: whether the active profile switched, which
/// indices were involved, the ordered timeline of everything that happened,
/// and the errors that were routed to the error handler.
pub struct SwitchReport {
    /// Whether the resolved index differed from the active one.
    pub switched: bool,
    /// The index that was active before the call.
    pub old_index: usize,
    /// The index that resolution chose (the active one after the call).
    pub new_index: usize,
    /// Everything the switch did, in order: the old profile's deactivation
    /// effects, the index change, the new profile's activation effects, and
    /// the scheduler recovery when the activation failed. Empty when no
    /// switch happened.
    pub timeline: Vec<SystemEffect>,
    /// The error the deactivation raised, if any (routed to the handler).
    pub deactivate_error: Option<String>,
    /// The error the activation raised, if any (routed to the handler); the
    /// new profile's scheduler is then force-resumed and stepped once.
    pub activate_error: Option<String>,
}

/// Move profile effects into a switch timeline, tagged as activation or
/// deactivation effects.
fn push_tagged_effects(timeline: &mut Vec<SystemEffect>, effects: Vec<Effect>, activation: bool)
    ensures
        final(timeline)@ == old(timeline)@ + (if activation {
            effects@.map_values(|e: Effect| SystemEffect::Activation(e))
        } else {
            effects@.map_values(|e: Effect| SystemEffect::Deactivation(e))
        }),
{
    let ghost eff0 = effects@;
    let ghost base = timeline@;
    let mut remaining = effects;
    let ghost k: int = 0;
    proof {
        assert(eff0.take(0).map_values(|e: Effect| SystemEffect::Activation(e))
            =~= Seq::<SystemEffect>::empty());
        assert(eff0.take(0).map_values(|e: Effect| SystemEffect::Deactivation(e))
            =~= Seq::<SystemEffect>::empty());
        assert(timeline@ =~= base + eff0.take(0).map_values(
            |e: Effect| SystemEffect::Activation(e),
        ));
        assert(timeline@ =~= base + eff0.take(0).map_values(
            |e: Effect| SystemEffect::Deactivation(e),
        ));
        assert(remaining@ =~= eff0.skip(0));
    }
    while remaining.len() > 0
        invariant
            0 <= k <= eff0.len(),
            remaining@ =~= eff0.skip(k),
            activation ==> timeline@ == base + eff0.take(k).map_values(
                |e: Effect| SystemEffect::Activation(e),
            ),
            !activation ==> timeline@ == base + eff0.take(k).map_values(
                |e: Effect| SystemEffect::Deactivation(e),
            ),
        decreases remaining@.len(),
    {
        let effect = remaining.remove(0);
        proof {
            assert(effect == eff0[k]);
            assert(remaining@ =~= eff0.skip(k + 1));
            assert(eff0.take(k + 1) =~= eff0.take(k).push(eff0[k]));
            assert(eff0.take(k + 1).map_values(|e: Effect| SystemEffect::Activation(e))
                =~= eff0.take(k).map_values(|e: Effect| SystemEffect::Activation(e)).push(
                SystemEffect::Activation(eff0[k]),
            ));
            assert(eff0.take(k + 1).map_values(|e: Effect| SystemEffect::Deactivation(e))
                =~= eff0.take(k).map_values(|e: Effect| SystemEffect::Deactivation(e)).push(
                SystemEffect::Deactivation(eff0[k]),
            ));
        }
        if activation {
            timeline.push(SystemEffect::Activation(effect));
        } else {
            timeline.push(SystemEffect::Deactivation(effect));
        }
        proof {
            k = k + 1;
        }
    }
    proof {
        assert(eff0.take(k) =~= eff0);
    }
}

/// A process-wide ordered collection of profiles: slot 0 is the reserved
/// fallback, exactly one profile is active at a time.
pub struct WindowRelativeSystem {
    /// The profiles, in registration order; index 0 is the fallback.
    pub profiles: Vec<WindowRelativeProfile>,
    /// The index of the active profile; always a valid index.
    pub active_profile_index: usize,
    /// The update loop's target interval, in milliseconds.
    pub interval_ms: u64,
}

impl WindowRelativeSystem {
    /// The system invariant: the fallback profile sits at slot 0 and never
    /// fits, the active index is valid, and every profile is well-formed and
    /// not mid-dispatch.
    pub open spec fn wf(self) -> bool {
        &&& self.profiles@.len() >= 1
        &&& self.profiles@[0].is_default_profile
        &&& self.profiles@[0].active_checker is Never
        &&& self.active_profile_index < self.profiles@.len()
        &&& forall|i: int|
            0 <= i < self.profiles@.len() ==> (#[trigger] self.profiles@[i]).wf()
                && !self.profiles@[i].is_recursing_scheduler_events
    }

    /// Create a system holding only the fallback profile, with it active and
    /// the default update interval of about sixty ticks per second.
    pub fn new() -> (r: WindowRelativeSystem)
        ensures
            r.wf(),
            r.profiles@.len() == 1,
            r.active_profile_index == 0,
            r.interval_ms == 16,
    {
        let mut profiles: Vec<WindowRelativeProfile> = Vec::new();
        profiles.push(WindowRelativeProfile::default_profile());
        WindowRelativeSystem { profiles, active_profile_index: 0, interval_ms: 1000 / 60 }
    }

    /// Add a profile to the system: appended at the end of the registration
    /// order.
    pub fn add_profile(&mut self, profile: WindowRelativeProfile)
        requires
            old(self).wf(),
            profile.wf(),
            !profile.is_recursing_scheduler_events,
        ensures
            final(self).wf(),
            final(self).profiles@ == old(self).profiles@.push(profile),
            final(self).active_profile_index == old(self).active_profile_index,
            final(self).interval_ms == old(self).interval_ms,
    {
        self.profiles.push(profile);
    }

    /// Resolve the active index against host answers gathered beforehand: the
    /// first profile that fits, or `0` when none does.
    pub fn resolve_active_index_from(&self, answers: &Vec<bool>, process_name: &str) -> (r: usize)
        requires
            answers@.len() == self.profiles@.len(),
        ensures
            r == spec_resolve(self.profiles@, process_name@, answers@),
            r < self.profiles@.len() || r == 0,
    {
        let mut i: usize = 0;
        while i < self.profiles.len()
            invariant
                0 <= i <= self.profiles@.len(),
                answers@.len() == self.profiles@.len(),
                forall|j: int|
                    0 <= j < i ==> !profile_fits(
                        #[trigger] self.profiles@[j],
                        process_name@,
                        answers@[j],
                    ),
                spec_resolve(self.profiles@, process_name@, answers@) == spec_resolve_from(
                    self.profiles@,
                    process_name@,
                    answers@,
                    i as int,
                ),
            decreases self.profiles@.len() - i,
        {
            let p = &self.profiles[i];
            let fits = match p.active_checker {
                ActiveChecker::Never => false,
                ActiveChecker::ProcessNameEquals => str_eq(process_name, p.process_name.as_str()),
                ActiveChecker::Host => answers[i],
            };
            if fits {
                return i;
            }
            i += 1;
        }
        0
    }

    /// Resolve the index of the profile that fits the focused window: scan in
    /// registration order (the fallback at 0 never fits), asking the host
    /// where a profile carries a custom checker; `0` when none fits.
    pub fn resolve_active_index<H: WindowRelativeHost>(
        &self,
        host: &mut H,
        window: &WindowSnapshot,
        process_name: &str,
        title: &str,
    ) -> (r: usize)
        ensures
            r < self.profiles@.len() || r == 0,
            exists|answers: Seq<bool>|
                #[trigger] answers_consistent(self.profiles@, process_name@, answers) && r
                    == spec_resolve(self.profiles@, process_name@, answers),
    {
        let mut answers: Vec<bool> = Vec::new();
        let mut i: usize = 0;
        while i < self.profiles.len()
            invariant
                0 <= i <= self.profiles@.len(),
                answers@.len() == i,
                forall|j: int|
                    0 <= j < i ==> match (#[trigger] self.profiles@[j]).active_checker {
                        ActiveChecker::Never => answers@[j] == false,
                        ActiveChecker::ProcessNameEquals => answers@[j] == (process_name@
                            == self.profiles@[j].process_name@),
                        ActiveChecker::Host => true,
                    },
            decreases self.profiles@.len() - i,
        {
            let a = self.profiles[i].is_active(host, window, process_name, title);
            answers.push(a);
            i += 1;
        }
        let r = self.resolve_active_index_from(&answers, process_name);
        proof {
            assert(answers_consistent(self.profiles@, process_name@, answers@));
        }
        r
    }

    /// Trigger an event on the profile at the given index, putting the profile
    /// back in its place afterwards.
    fn trigger_on_profile_at<H: WindowRelativeHost>(
        &mut self,
        host: &mut H,
        index: usize,
        window: &WindowSnapshot,
        event_name: &str,
    ) -> (r: (Vec<Effect>, Result<(), String>))
        requires
            old(self).wf(),
            index < old(self).profiles@.len(),
        ensures
            final(self).wf(),
            final(self).active_profile_index == old(self).active_profile_index,
            final(self).interval_ms == old(self).interval_ms,
            final(self).profiles@.len() == old(self).profiles@.len(),
            forall|i: int|
                0 <= i < old(self).profiles@.len() && i != index ==> final(self).profiles@[i]
                    == old(self).profiles@[i],
            final(self).profiles@[index as int].same_identity(old(self).profiles@[index as int]),
            !final(self).profiles@[index as int].is_recursing_scheduler_events,
            old(self).profiles@[index as int].services@.len() == 0 && old(
                self,
            ).profiles@[index as int].event_handler_count == 0 ==> r.1 is Ok,
            r.1 is Ok ==> triggered(
                old(self).profiles@[index as int].lifecycle(),
                event_name@,
                window.exists,
                window.is_visible,
                false,
                final(self).profiles@[index as int].lifecycle(),
                r.0@,
            ),
            r.1 is Err ==> crate::profile::trigger_trace_prefix(
                old(self).profiles@[index as int].lifecycle(),
                window.exists,
                window.is_visible,
                r.0@,
            ),
    {
        let ghost profiles0 = self.profiles@;
        let mut p = self.profiles.remove(index);
        let r = p.trigger_event(host, window, event_name);
        self.profiles.insert(index, p);
        proof {
            assert(forall|i: int|
                0 <= i < profiles0.len() && i != index ==> self.profiles@[i] == profiles0[i]);
            assert(self.profiles@[index as int] == p);
            assert(self.profiles@.len() == profiles0.len());
            assert(self.profiles@[0].is_default_profile && self.profiles@[0].active_checker
                is Never) by {
                if index != 0 {
                    assert(self.profiles@[0] == profiles0[0]);
                }
            }
        }
        r
    }

    /// Follow a focus change: resolve the profile that fits the new window,
    /// and when it differs from the active one, deactivate the old profile
    /// against the previous window, move the active index, then activate the
    /// new profile against the current window — in that order, as the returned
    /// timeline states. Errors of either transition go to the host's error
    /// handler, never to the caller; when activation itself fails, the new
    /// profile's scheduler is force-resumed and stepped once so it is not left
    /// permanently paused, which the timeline records.
    pub fn update_profile<H: WindowRelativeHost>(
        &mut self,
        host: &mut H,
        previous_window: &WindowSnapshot,
        current_window: &WindowSnapshot,
    ) -> (r: SwitchReport)
        requires
            old(self).wf(),
        ensures
            final(self).wf(),
            final(self).interval_ms == old(self).interval_ms,
            final(self).profiles@.len() == old(self).profiles@.len(),
            r.old_index == old(self).active_profile_index,
            r.new_index < old(self).profiles@.len(),
            exists|answers: Seq<bool>|
                #[trigger] answers_consistent(old(self).profiles@, window_process_name(
                    *current_window,
                ), answers) && r.new_index == spec_resolve(old(self).profiles@, window_process_name(
                    *current_window,
                ), answers),
            r.switched == (r.new_index != old(self).active_profile_index),
            !r.switched ==> *final(self) == *old(self) && r.deactivate_error is None
                && r.activate_error is None && r.timeline@ == Seq::<SystemEffect>::empty(),
            r.switched ==> final(self).active_profile_index == r.new_index,
            r.switched ==> forall|i: int|
                0 <= i < old(self).profiles@.len() && i != r.old_index && i != r.new_index
                    ==> final(self).profiles@[i] == old(self).profiles@[i],
            r.switched && old(self).profiles@[r.old_index as int].services@.len() == 0 && old(
                self,
            ).profiles@[r.old_index as int].event_handler_count == 0 ==> r.deactivate_error
                is None,
            r.switched && old(self).profiles@[r.new_index as int].services@.len() == 0 && old(
                self,
            ).profiles@[r.new_index as int].event_handler_count == 0 ==> r.activate_error is None,
            r.switched ==> exists|d: Seq<Effect>, a: Seq<Effect>|
                {
                    &&& #[trigger] switch_timeline(
                        r.timeline@,
                        d,
                        a,
                        r.old_index,
                        r.new_index,
                        r.activate_error is Some,
                    )
                    &&& (r.deactivate_error is None ==> triggered(
                        old(self).profiles@[r.old_index as int].lifecycle(),
                        "deactivate"@,
                        previous_window.exists,
                        previous_window.is_visible,
                        false,
                        final(self).profiles@[r.old_index as int].lifecycle(),
                        d,
                    ))
                    &&& (r.deactivate_error is Some ==> crate::profile::trigger_trace_prefix(
                        old(self).profiles@[r.old_index as int].lifecycle(),
                        previous_window.exists,
                        previous_window.is_visible,
                        d,
                    ))
                    &&& (r.activate_error is None ==> triggered(
                        old(self).profiles@[r.new_index as int].lifecycle(),
                        "activate"@,
                        current_window.exists,
                        current_window.is_visible,
                        false,
                        final(self).profiles@[r.new_index as int].lifecycle(),
                        a,
                    ))
                    &&& (r.activate_error is Some ==> crate::profile::trigger_trace_prefix(
                        old(self).profiles@[r.new_index as int].lifecycle(),
                        current_window.exists,
                        current_window.is_visible,
                        a,
                    ))
                },
    {
        let process_name: String = match &current_window.process_name {
            Some(name) => name.clone(),
            None => String::new(),
        };
        let new_index = self.resolve_active_index(
            host,
            current_window,
            process_name.as_str(),
            current_window.title.as_str(),
        );
        proof {
            assert(process_name@ == window_process_name(*current_window));
            let ans = choose|ans: Seq<bool>|
                #[trigger] answers_consistent(self.profiles@, process_name@, ans) && new_index
                    == spec_resolve(self.profiles@, process_name@, ans);
            assert(exists|answers: Seq<bool>|
                #[trigger] answers_consistent(
                    old(self).profiles@,
                    window_process_name(*current_window),
                    answers,
                ) && new_index == spec_resolve(
                    old(self).profiles@,
                    window_process_name(*current_window),
                    answers,
                )) by {
                assert(answers_consistent(
                    old(self).profiles@,
                    window_process_name(*current_window),
                    ans,
                ) && new_index == spec_resolve(
                    old(self).profiles@,
                    window_process_name(*current_window),
                    ans,
                ));
            }
        }
        let old_index = self.active_profile_index;
        let mut deactivate_error: Option<String> = None;
        let mut activate_error: Option<String> = None;
        let mut timeline: Vec<SystemEffect> = Vec::new();
        let ghost mut d_view: Seq<Effect> = Seq::empty();
        let ghost mut a_view: Seq<Effect> = Seq::empty();
        if new_index != old_index {
            let (deactivation, outcome) = self.trigger_on_profile_at(
                host,
                old_index,
                previous_window,
                "deactivate",
            );
            proof {
                d_view = deactivation@;
            }
            push_tagged_effects(&mut timeline, deactivation, false);
            match outcome {
                Ok(()) => {},
                Err(message) => {
                    host.handle_error(
                        self.profiles[old_index].id.as_str(),
                        "deactivate",
                        message.as_str(),
                    );
                    deactivate_error = Some(message);
                },
            }
            self.active_profile_index = new_index;
            timeline.push(SystemEffect::ActiveIndexChanged { from: old_index, to: new_index });
            let (activation, outcome) = self.trigger_on_profile_at(
                host,
                new_index,
                current_window,
                "activate",
            );
            proof {
                a_view = activation@;
            }
            push_tagged_effects(&mut timeline, activation, true);
            match outcome {
                Ok(()) => {},
                Err(message) => {
                    host.handle_error(
                        self.profiles[new_index].id.as_str(),
                        "activate",
                        message.as_str(),
                    );
                    host.resume_scheduler(self.profiles[new_index].id.as_str());
                    timeline.push(SystemEffect::ActivationRecovery(Effect::SchedulerResumed));
                    host.step_scheduler(self.profiles[new_index].id.as_str());
                    timeline.push(SystemEffect::ActivationRecovery(Effect::SchedulerStepped));
                    activate_error = Some(message);
                },
            }
        }
        let report = SwitchReport {
            switched: new_index != old_index,
            old_index,
            new_index,
            timeline,
            deactivate_error,
            activate_error,
        };
        proof {
            if report.switched {
                assert(switch_timeline(
                    report.timeline@,
                    d_view,
                    a_view,
                    old_index,
                    new_index,
                    report.activate_error is Some,
                )) by {
                    assert(report.timeline@ =~= d_view.map_values(
                        |e: Effect| SystemEffect::Deactivation(e),
                    ) + seq![SystemEffect::ActiveIndexChanged { from: old_index, to: new_index }]
                        + a_view.map_values(|e: Effect| SystemEffect::Activation(e)) + (
                    if report.activate_error is Some {
                        seq![
                            SystemEffect::ActivationRecovery(Effect::SchedulerResumed),
                            SystemEffect::ActivationRecovery(Effect::SchedulerStepped),
                        ]
                    } else {
                        Seq::<SystemEffect>::empty()
                    }));
                }
            }
        }
        report
    }

    /// One update-loop tick: dispatch `update` once to the active profile,
    /// returning its effect trace and outcome; an error is also routed to the
    /// error handler under the `run` phase.
    pub fn tick<H: WindowRelativeHost>(&mut self, host: &mut H, window: &WindowSnapshot) -> (r: (
        Vec<Effect>,
        Result<(), String>,
    ))
        requires
            old(self).wf(),
        ensures
            final(self).wf(),
            final(self).active_profile_index == old(self).active_profile_index,
            final(self).interval_ms == old(self).interval_ms,
            final(self).profiles@.len() == old(self).profiles@.len(),
            forall|i: int|
                0 <= i < old(self).profiles@.len() && i != old(self).active_profile_index
                    ==> final(self).profiles@[i] == old(self).profiles@[i],
            ({
                let idx = old(self).active_profile_index as int;
                &&& (r.1 is Ok ==> triggered(
                    old(self).profiles@[idx].lifecycle(),
                    "update"@,
                    window.exists,
                    window.is_visible,
                    false,
                    final(self).profiles@[idx].lifecycle(),
                    r.0@,
                ))
                &&& (r.1 is Err ==> crate::profile::trigger_trace_prefix(
                    old(self).profiles@[idx].lifecycle(),
                    window.exists,
                    window.is_visible,
                    r.0@,
                ))
                &&& (old(self).profiles@[idx].services@.len() == 0
                    && old(self).profiles@[idx].event_handler_count == 0 ==> r.1 is Ok)
            }),
    {
        let index = self.active_profile_index;
        let (trace, outcome) = self.trigger_on_profile_at(host, index, window, "update");
        match &outcome {
            Ok(()) => {},
            Err(message) => {
                host.handle_error(self.profiles[index].id.as_str(), "run", message.as_str());
            },
        }
        (trace, outcome)
    }

    /// The sleep that ends one update-loop iteration: what is left of the
    /// interval after the work, never negative, so a slow tick shortens or
    /// eliminates the following sleep instead of queueing catch-up ticks.
    pub fn sleep_duration_ms(loop_start_ms: u64, interval_ms: u64, now_ms: u64) -> (r: u64)
        requires
            loop_start_ms + interval_ms <= u64::MAX,
        ensures
            r == if now_ms < loop_start_ms + interval_ms {
                (loop_start_ms + interval_ms - now_ms) as int
            } else {
                0
            },
    {
        let target = loop_start_ms + interval_ms;
        if now_ms < target {
            target - now_ms
        } else {
            0
        }
    }

    /// The index of the first profile with the given id, if any.
    fn index_of_profile(&self, profile_id: &str) -> (r: Option<usize>)
        ensures
            match r {
                Some(i) => i < self.profiles@.len() && self.profiles@[i as int].id@ == profile_id@
                    && forall|j: int|
                    0 <= j < i ==> (#[trigger] self.profiles@[j]).id@ != profile_id@,
                None => forall|j: int|
                    0 <= j < self.profiles@.len() ==> (#[trigger] self.profiles@[j]).id@
                        != profile_id@,
            },
    {
        let mut i: usize = 0;
        while i < self.profiles.len()
            invariant
                0 <= i <= self.profiles@.len(),
                forall|j: int| 0 <= j < i ==> (#[trigger] self.profiles@[j]).id@ != profile_id@,
            decreases self.profiles@.len() - i,
        {
            if str_eq(self.profiles[i].id.as_str(), profile_id) {
                return Some(i);
            }
            i += 1;
        }
        None
    }

    /// Run a host operation against the active profile, under the system's
    /// exclusive access.
    pub fn execute_on_current_profile<H: WindowRelativeHost>(
        &mut self,
        host: &mut H,
        operation_name: &str,
    ) -> (r: Result<(), String>)
        requires
            old(self).wf(),
        ensures
            *final(self) == *old(self),
    {
        host.run_named_operation(self.profiles[self.active_profile_index].id.as_str(), operation_name)
    }

    /// Run a host operation against the profile with the given id. A missing
    /// id is routed to the error handler, and nothing is returned.
    pub fn execute_on_profile_by_id<H: WindowRelativeHost>(
        &mut self,
        host: &mut H,
        profile_id: &str,
        operation_name: &str,
    ) -> (r: Option<Result<(), String>>)
        requires
            old(self).wf(),
        ensures
            *final(self) == *old(self),
            (exists|i: int|
                0 <= i < old(self).profiles@.len() && (#[trigger] old(self).profiles@[i]).id@
                    == profile_id@) == (r is Some),
    {
        match self.index_of_profile(profile_id) {
            Some(i) => Some(host.run_named_operation(self.profiles[i].id.as_str(), operation_name)),
            None => {
                let message = String::from_str("Could not find profile by id '").concat(
                    profile_id,
                ).concat("'.");
                host.handle_error(
                    self.profiles[self.active_profile_index].id.as_str(),
                    "action on profile by id",
                    message.as_str(),
                );
                None
            },
        }
    }

    /// Run a host operation against every profile, the fallback included, in
    /// registration order.
    pub fn execute_on_all_profiles<H: WindowRelativeHost>(
        &mut self,
        host: &mut H,
        operation_name: &str,
    ) -> (r: Vec<Result<(), String>>)
        requires
            old(self).wf(),
        ensures
            *final(self) == *old(self),
            r@.len() == old(self).profiles@.len(),
    {
        let mut results: Vec<Result<(), String>> = Vec::new();
        let mut i: usize = 0;
        while i < self.profiles.len()
            invariant
                0 <= i <= self.profiles@.len(),
                results@.len() == i,
                *self == *old(self),
            decreases self.profiles@.len() - i,
        {
            results.push(
                host.run_named_operation(self.profiles[i].id.as_str(), operation_name),
            );
            i += 1;
        }
        results
    }

    /// Run the named operation that a profile registered: the first profile
    /// that registered the name runs it through the host, and any error it
    /// returns goes to the error handler; an unregistered name is routed to
    /// the error handler as a lookup error.
    pub fn execute_named_operation<H: WindowRelativeHost>(
        &mut self,
        host: &mut H,
        operation_name: &str,
    )
        requires
            old(self).wf(),
        ensures
            *final(self) == *old(self),
    {
        let mut i: usize = 0;
        while i < self.profiles.len()
            invariant
                0 <= i <= self.profiles@.len(),
                *self == *old(self),
            decreases self.profiles@.len() - i,
        {
            if self.profiles[i].has_named_operation(operation_name) {
                match host.run_named_operation(self.profiles[i].id.as_str(), operation_name) {
                    Ok(()) => {},
                    Err(message) => {
                        host.handle_error(
                            self.profiles[i].id.as_str(),
                            operation_name,
                            message.as_str(),
                        );
                    },
                }
                return ;
            }
            i += 1;
        }
        let message = String::from_str("Could not find named operation '").concat(
            operation_name,
        ).concat("'.");
        host.handle_error(
            self.profiles[self.active_profile_index].id.as_str(),
            "named operation",
            message.as_str(),
        );
    }
}

/// The process name that a window snapshot carries, or the empty name.
pub open spec fn window_process_name(w: WindowSnapshot) -> Seq<char> {
    match w.process_name {
        Some(name) => name@,
        None => Seq::empty(),
    }
}

impl Default for WindowRelativeSystem {
    /// The default system: only the fallback profile, active, at the default
    /// interval.
    fn default() -> (r: WindowRelativeSystem)
        ensures
            r.wf(),
            r.profiles@.len() == 1,
            r.active_profile_index == 0,
            r.interval_ms == 16,
    {
        WindowRelativeSystem::new()
    }
}

} // verus!
