//! The trigger algebra: a small description of "when does a service run".
//!
//! A [`TriggerSpec`] names one of the four built-in lifecycle phases, a custom
//! named event, all built-in phases at once, or a combination. Matching is
//! structural: a combination matches when any member matches, a named event
//! matches only the equally named event, and `All` matches any of the four
//! built-in phases but never a named event.

use vstd::prelude::*;

verus! {

broadcast use vstd::std_specs::vec::group_vec_axioms;

/// When a service should run: a built-in lifecycle phase, a custom named
/// event, every built-in phase, or any of a list of trigger specs.
pub enum TriggerSpec {
    /// Matches nothing.
    Never,
    /// Matches the `open` phase.
    Open,
    /// Matches the `activate` phase.
    Activate,
    /// Matches the `deactivate` phase.
    Deactivate,
    /// Matches the `close` phase.
    Close,
    /// Matches the four built-in phases, but never a named event.
    All,
    /// Matches exactly the custom event with this name.
    NamedEvent(String),
    /// Matches when any member matches.
    Combined(Vec<TriggerSpec>),
}

/// Whether the event name `e` is one of the four built-in phase names.
pub open spec fn is_builtin_event(e: Seq<char>) -> bool {
    e == "open"@ || e == "activate"@ || e == "deactivate"@ || e == "close"@
}

/// Structural matching of a trigger spec against an occurring trigger.
pub open spec fn spec_matches(t: TriggerSpec, occurring: TriggerSpec) -> bool
    decreases t,
{
    match t {
        TriggerSpec::Never => false,
        TriggerSpec::Open => occurring is Open,
        TriggerSpec::Activate => occurring is Activate,
        TriggerSpec::Deactivate => occurring is Deactivate,
        TriggerSpec::Close => occurring is Close,
        TriggerSpec::All => occurring is Open || occurring is Activate || occurring is Deactivate
            || occurring is Close,
        TriggerSpec::NamedEvent(n) => match occurring {
            TriggerSpec::NamedEvent(m) => n@ == m@,
            _ => false,
        },
        TriggerSpec::Combined(l) => exists|i: int|
            0 <= i < l@.len() && spec_matches(#[trigger] l@[i], occurring),
    }
}

/// Matching of a trigger spec directly against an event name: the name of a
/// built-in phase occurs as that phase, any other name as a named event.
pub open spec fn spec_matches_event(t: TriggerSpec, e: Seq<char>) -> bool
    decreases t,
{
    match t {
        TriggerSpec::Never => false,
        TriggerSpec::Open => e == "open"@,
        TriggerSpec::Activate => e == "activate"@,
        TriggerSpec::Deactivate => e == "deactivate"@,
        TriggerSpec::Close => e == "close"@,
        TriggerSpec::All => is_builtin_event(e),
        TriggerSpec::NamedEvent(n) => n@ == e && !is_builtin_event(e),
        TriggerSpec::Combined(l) => exists|i: int|
            0 <= i < l@.len() && spec_matches_event(#[trigger] l@[i], e),
    }
}

/// Whether `t` is the occurring trigger that the event named `e` raises: the
/// four built-in names raise their phase, any other name raises the equally
/// named event.
pub open spec fn is_occurrence_of(t: TriggerSpec, e: Seq<char>) -> bool {
    match t {
        TriggerSpec::Open => e == "open"@,
        TriggerSpec::Activate => e == "activate"@,
        TriggerSpec::Deactivate => e == "deactivate"@,
        TriggerSpec::Close => e == "close"@,
        TriggerSpec::NamedEvent(n) => n@ == e && !is_builtin_event(e),
        _ => false,
    }
}

/// The four built-in phase names and the update event's name are pairwise
/// distinct.
pub proof fn lemma_builtin_names_distinct()
    ensures
        "open"@ != "activate"@,
        "open"@ != "deactivate"@,
        "open"@ != "close"@,
        "activate"@ != "deactivate"@,
        "activate"@ != "close"@,
        "deactivate"@ != "close"@,
        "update"@ != "open"@,
        "update"@ != "activate"@,
        "update"@ != "deactivate"@,
        "update"@ != "close"@,
{
    reveal_strlit("open");
    reveal_strlit("activate");
    reveal_strlit("deactivate");
    reveal_strlit("close");
    reveal_strlit("update");
    assert("open"@.len() == 4);
    assert("activate"@.len() == 8);
    assert("deactivate"@.len() == 10);
    assert("close"@.len() == 5);
    assert("update"@.len() == 6);
}

/// Matching a spec against the trigger that an event raises agrees with
/// matching the spec against the event name itself.
pub proof fn lemma_matches_occurrence(t: TriggerSpec, occurring: TriggerSpec, e: Seq<char>)
    requires
        is_occurrence_of(occurring, e),
    ensures
        spec_matches(t, occurring) == spec_matches_event(t, e),
    decreases t,
{
    lemma_builtin_names_distinct();
    match t {
        TriggerSpec::Combined(l) => {
            if spec_matches(t, occurring) {
                let i = choose|i: int| 0 <= i < l@.len() && spec_matches(#[trigger] l@[i], occurring);
                lemma_matches_occurrence(l@[i], occurring, e);
                assert(spec_matches_event(l@[i], e));
            }
            if spec_matches_event(t, e) {
                let i = choose|i: int| 0 <= i < l@.len() && spec_matches_event(#[trigger] l@[i], e);
                lemma_matches_occurrence(l@[i], occurring, e);
                assert(spec_matches(l@[i], occurring));
            }
        },
        _ => {},
    }
}

impl TriggerSpec {
    /// Pure structural matching of `self` against an occurring trigger.
    pub fn matches(&self, occurring: &TriggerSpec) -> (r: bool)
        ensures
            r == spec_matches(*self, *occurring),
        decreases *self,
    {
        match self {
            TriggerSpec::Never => false,
            TriggerSpec::Open => match occurring {
                TriggerSpec::Open => true,
                _ => false,
            },
            TriggerSpec::Activate => match occurring {
                TriggerSpec::Activate => true,
                _ => false,
            },
            TriggerSpec::Deactivate => match occurring {
                TriggerSpec::Deactivate => true,
                _ => false,
            },
            TriggerSpec::Close => match occurring {
                TriggerSpec::Close => true,
                _ => false,
            },
            TriggerSpec::All => match occurring {
                TriggerSpec::Open | TriggerSpec::Activate | TriggerSpec::Deactivate
                    | TriggerSpec::Close => true,
                _ => false,
            },
            TriggerSpec::NamedEvent(n) => match occurring {
                TriggerSpec::NamedEvent(m) => *n == *m,
                _ => false,
            },
            TriggerSpec::Combined(l) => {
                let mut i: usize = 0;
                while i < l.len()
                    invariant
                        0 <= i <= l@.len(),
                        *self is Combined,
                        l@ == self->Combined_0@,
                        forall|j: int| 0 <= j < i ==> !spec_matches(#[trigger] l@[j], *occurring),
                    decreases l@.len() - i,
                {
                    proof {
                        assert(decreases_to!(*self => self->Combined_0));
                        assert(decreases_to!(self->Combined_0 => self->Combined_0@));
                        assert(decreases_to!(self->Combined_0@ => self->Combined_0@[i as int]));
                        assert(decreases_to!(*self => l@[i as int]));
                    }
                    if l[i].matches(occurring) {
                        proof {
                            assert(spec_matches(l@[i as int], *occurring));
                        }
                        return true;
                    }
                    i += 1;
                }
                proof {
                    assert(!spec_matches(*self, *occurring));
                }
                false
            },
        }
    }

    /// Combine two trigger specs so that the result matches when either does:
    /// appends to an existing combination, else builds a fresh one.
    pub fn or(self, other: TriggerSpec) -> (r: TriggerSpec)
        ensures
            (r matches TriggerSpec::Combined(m) && {
                &&& self matches TriggerSpec::Combined(l) ==> m@ == l@.push(other)
                &&& !(self is Combined) ==> m@ == seq![self, other]
            }),
    {
        match self {
            TriggerSpec::Combined(mut l) => {
                l.push(other);
                TriggerSpec::Combined(l)
            },
            t => TriggerSpec::Combined(vec![t, other]),
        }
    }
}

/// The OR-combinator is disjunction: the combination of two trigger specs
/// matches an occurring trigger exactly when one of the two does.
pub proof fn lemma_or_matches(a: TriggerSpec, b: TriggerSpec, r: TriggerSpec, occ: TriggerSpec)
    requires
        r matches TriggerSpec::Combined(m) && {
            &&& a matches TriggerSpec::Combined(l) ==> m@ == l@.push(b)
            &&& !(a is Combined) ==> m@ == seq![a, b]
        },
    ensures
        spec_matches(r, occ) == (spec_matches(a, occ) || spec_matches(b, occ)),
{
    let m = r->Combined_0;
    match a {
        TriggerSpec::Combined(l) => {
            assert(m@[m@.len() - 1] == b);
            assert(forall|i: int| 0 <= i < l@.len() ==> m@[i] == #[trigger] l@[i]);
            if spec_matches(a, occ) {
                let i = choose|i: int| 0 <= i < l@.len() && spec_matches(#[trigger] l@[i], occ);
                assert(spec_matches(m@[i], occ));
            }
            if spec_matches(r, occ) {
                let i = choose|i: int| 0 <= i < m@.len() && spec_matches(#[trigger] m@[i], occ);
                if i < l@.len() {
                    assert(spec_matches(l@[i], occ));
                }
            }
        },
        _ => {
            assert(m@[0] == a && m@[1] == b);
            if spec_matches(r, occ) {
                let i = choose|i: int| 0 <= i < m@.len() && spec_matches(#[trigger] m@[i], occ);
            }
        },
    }
}

/// The occurring trigger that the event named `event_name` raises.
pub fn occurring_of_event(event_name: &str) -> (r: TriggerSpec)
    ensures
        is_occurrence_of(r, event_name@),
{
    if str_eq(event_name, "open") {
        TriggerSpec::Open
    } else if str_eq(event_name, "activate") {
        TriggerSpec::Activate
    } else if str_eq(event_name, "deactivate") {
        TriggerSpec::Deactivate
    } else if str_eq(event_name, "close") {
        TriggerSpec::Close
    } else {
        TriggerSpec::NamedEvent(event_name.to_owned())
    }
}

/// Character-wise equality of two string slices.
pub fn str_eq(a: &str, b: &str) -> (r: bool)
    ensures
        r == (a@ == b@),
{
    let sa: String = a.to_owned();
    let sb: String = b.to_owned();
    sa == sb
}

} // verus!
