//! Undoing what a deploy did to the host before it failed.

use crate::model::Stage;
use crate::protocol::{HostCall, HostCallView};
use crate::spec::{WorkloadSpec, WorkloadSpecView};
use vstd::prelude::*;

verus! {

/// One step of undoing a deploy.
#[derive(Debug, Clone, Copy, PartialEq, Eq, Structural)]
pub enum Unwind {
    /// The route that was there before, or none.
    Route,
    /// The unit that was there before, or none.
    Apply,
}

/// The request that undoes the unit of an app: the spec that ran before is
/// applied again, and where none did, the unit is removed.
pub open spec fn unit_undone<Plan>(
    name: Seq<char>,
    previous: Option<WorkloadSpecView>,
) -> HostCallView<Plan> {
    match previous {
        Some(spec) => HostCallView::Apply { spec },
        None => HostCallView::Remove { name },
    }
}

/// The request that undoes the route of an app: the route that was served
/// before is applied again, and where none was, the route is removed.
pub open spec fn route_undone<Plan>(
    slug: Seq<char>,
    previous: Option<WorkloadSpecView>,
) -> HostCallView<Plan> {
    if previous is Some && previous->0.route is Some {
        HostCallView::ApplyRoute { slug, route: previous->0.route->0 }
    } else {
        HostCallView::RemoveRoute { slug }
    }
}

/// Everything that undoes a deploy which failed at a stage, in order. Before
/// Apply the host was not touched; from Route on, the route goes first.
pub open spec fn compensation<Plan>(
    name: Seq<char>,
    slug: Seq<char>,
    previous: Option<WorkloadSpecView>,
    failed_at: Stage,
) -> Seq<HostCallView<Plan>> {
    match failed_at {
        Stage::Detect | Stage::Build | Stage::Secrets => Seq::empty(),
        Stage::Apply => seq![unit_undone(name, previous)],
        Stage::Route | Stage::Healthcheck => seq![
            route_undone(slug, previous),
            unit_undone(name, previous),
        ],
    }
}

/// The first step of undoing a deploy that failed at a stage, if the host was
/// touched at all.
pub open spec fn first_unwind(failed_at: Stage) -> Option<Unwind> {
    match failed_at {
        Stage::Detect | Stage::Build | Stage::Secrets => None,
        Stage::Apply => Some(Unwind::Apply),
        Stage::Route | Stage::Healthcheck => Some(Unwind::Route),
    }
}

impl Unwind {
    /// The step that comes after this one.
    pub open spec fn next(self) -> Option<Unwind> {
        match self {
            Unwind::Route => Some(Unwind::Apply),
            Unwind::Apply => None,
        }
    }

    /// How many steps there are from this one on.
    pub open spec fn left(self) -> nat {
        match self {
            Unwind::Route => 2,
            Unwind::Apply => 1,
        }
    }

    /// What the step asks of the host.
    pub open spec fn call<Plan>(
        self,
        name: Seq<char>,
        slug: Seq<char>,
        previous: Option<WorkloadSpecView>,
    ) -> HostCallView<Plan> {
        match self {
            Unwind::Route => route_undone(slug, previous),
            Unwind::Apply => unit_undone(name, previous),
        }
    }

    /// The step that comes after this one.
    pub fn following(self) -> (step: Option<Unwind>)
        ensures
            step == self.next(),
    {
        match self {
            Unwind::Route => Some(Unwind::Apply),
            Unwind::Apply => None,
        }
    }

    /// What the step asks of the host.
    pub fn request<'a, Plan>(
        self,
        name: &'a str,
        slug: &'a str,
        previous: &'a Option<WorkloadSpec>,
    ) -> (call: HostCall<'a, Plan>)
        ensures
            call@ == self.call::<Plan>(name@, slug@, previous.deep_view()),
    {
        match self {
            Unwind::Route => unwind_route(slug, previous),
            Unwind::Apply => unwind_apply(name, previous),
        }
    }
}

/// Where undoing a deploy that failed at `failed_at` starts.
pub fn compensate(failed_at: Stage) -> (first: Option<Unwind>)
    ensures
        first == first_unwind(failed_at),
{
    match failed_at {
        // The host was never touched: the old version is still serving.
        Stage::Detect | Stage::Build | Stage::Secrets => None,
        Stage::Apply => Some(Unwind::Apply),
        Stage::Route | Stage::Healthcheck => Some(Unwind::Route),
    }
}

/// Restores the unit that ran before, or removes the one that this deploy
/// wrote where none did.
pub fn unwind_apply<'a, Plan>(
    name: &'a str,
    previous: &'a Option<WorkloadSpec>,
) -> (call: HostCall<'a, Plan>)
    ensures
        call@ == unit_undone::<Plan>(name@, previous.deep_view()),
{
    match previous {
        Some(spec) => HostCall::Apply { spec },
        None => HostCall::Remove { name },
    }
}

/// Restores the route that was served before, or removes the one that this
/// deploy wrote where none was.
pub fn unwind_route<'a, Plan>(
    slug: &'a str,
    previous: &'a Option<WorkloadSpec>,
) -> (call: HostCall<'a, Plan>)
    ensures
        call@ == route_undone::<Plan>(slug@, previous.deep_view()),
{
    match previous {
        Some(spec) => match &spec.route {
            Some(route) => HostCall::ApplyRoute { slug, route },
            None => HostCall::RemoveRoute { slug },
        },
        None => HostCall::RemoveRoute { slug },
    }
}

/// The steps from `first` on, taken one after the other, make exactly the
/// requests of the compensation: what a stage changed is undone in reverse.
pub proof fn law_unwinding_is_the_compensation<Plan>(
    name: Seq<char>,
    slug: Seq<char>,
    previous: Option<WorkloadSpecView>,
    failed_at: Stage,
)
    ensures
        unwinding::<Plan>(first_unwind(failed_at), name, slug, previous) == compensation::<Plan>(
            name,
            slug,
            previous,
            failed_at,
        ),
{
    reveal_with_fuel(unwinding, 4);
    assert(unwinding::<Plan>(first_unwind(failed_at), name, slug, previous) =~= compensation::<
        Plan,
    >(name, slug, previous, failed_at));
}

/// The requests of the steps from `step` on, one after the other.
pub open spec fn unwinding<Plan>(
    step: Option<Unwind>,
    name: Seq<char>,
    slug: Seq<char>,
    previous: Option<WorkloadSpecView>,
) -> Seq<HostCallView<Plan>>
    decreases
            (match step {
                Some(step) => step.left(),
                None => 0,
            }),
{
    match step {
        Some(step) => seq![step.call(name, slug, previous)] + unwinding(
            step.next(),
            name,
            slug,
            previous,
        ),
        None => Seq::empty(),
    }
}

} // verus!
