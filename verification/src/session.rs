//! Navigators, and sessions around them.
use vstd::prelude::*;

use crate::controller::plan::{has_current_step, Plan};
use crate::controller::state::{
    AdvanceFacts, InitialFacts, NavState, NavigationControllerConfig, UpdateFacts, UpdateOutcome,
};
use crate::controller::{plan_of, NavigationController};
use crate::models::{Route, UserLocation};
use crate::uzmatch::initial_state;
use crate::uzmatch::snap::{segment_count, SegmentMeasure};

verus! {

/// Leads a trip along a route.
///
/// Layers around a controller are navigators too: whatever they add, they lead the trip
/// by the plan of that controller.
pub trait Navigator {
    /// What the navigator leads by.
    spec fn plan(&self) -> Plan;

    /// The route that the navigator leads along.
    spec fn led_along(&self) -> Route;

    /// The route.
    fn route(&self) -> (r: &Route)
        ensures
            *r == self.led_along(),
            r.steps@ == self.plan().steps,
            r.waypoints@ == self.plan().waypoints,
    ;

    /// The state of a navigation at its first fix.
    fn get_initial_state(&self, location: UserLocation, facts: &InitialFacts) -> (r: NavState)
        requires
            self.plan().is_measured(initial_state(), location, facts.measurements),
        ensures
            r@ == self.plan().initial(location, *facts),
    ;

    /// Advances to the next step, or ends the trip on the last one.
    fn advance_to_next_step(&self, state: NavState, facts: &AdvanceFacts) -> (r: NavState)
        ensures
            r@ == self.plan().advanced(state@, *facts),
    ;

    /// The state after a fix, and whether the same fix must be given again. A trip under
    /// way must have a current step.
    fn update_user_location(
        &self,
        location: UserLocation,
        state: NavState,
        facts: &UpdateFacts,
    ) -> (r: UpdateOutcome)
        requires
            has_current_step(state@.trip),
            self.plan().is_measured(state@.uzmatch, location, facts.measurements),
        ensures
            (r.state@, r.again) == self.plan().updated(state@, location, *facts),
    ;
}

/// Who is told of every state of a session.
#[derive(Clone, Copy, PartialEq, Eq, Structural, Debug)]
pub enum NavigationObserver {
    /// The recorder of the host.
    Recorder,
}

/// A controller, and the observers that the host tells of every state.
pub struct NavigationSession {
    controller: NavigationController,
    observers: Vec<NavigationObserver>,
}

impl NavigationSession {
    /// What the controller holds.
    pub closed spec fn led_by(&self) -> Plan {
        self.controller@
    }

    /// The route of the controller.
    pub closed spec fn routed_along(&self) -> Route {
        self.controller.led_route()
    }

    /// The observers.
    pub closed spec fn observed_by(&self) -> Seq<NavigationObserver> {
        self.observers@
    }

    /// The controller and its observers as one.
    pub fn new(controller: NavigationController, observers: Vec<NavigationObserver>) -> (r: Self)
        ensures
            r.led_by() == controller@,
            r.routed_along() == controller.led_route(),
            r.observed_by() == observers@,
    {
        NavigationSession { controller, observers }
    }

    /// The controller: it tells the host what to measure.
    pub fn controller(&self) -> (r: &NavigationController)
        ensures
            r@ == self.led_by(),
            r.led_route() == self.routed_along(),
    {
        &self.controller
    }

    /// The observers.
    pub fn observers(&self) -> (r: &Vec<NavigationObserver>)
        ensures
            r@ == self.observed_by(),
    {
        &self.observers
    }
}

impl Navigator for NavigationSession {
    open spec fn plan(&self) -> Plan {
        self.led_by()
    }

    open spec fn led_along(&self) -> Route {
        self.routed_along()
    }

    fn route(&self) -> (r: &Route) {
        self.controller.route()
    }

    fn get_initial_state(&self, location: UserLocation, facts: &InitialFacts) -> (r: NavState) {
        self.controller.get_initial_state(location, facts)
    }

    fn advance_to_next_step(&self, state: NavState, facts: &AdvanceFacts) -> (r: NavState) {
        self.controller.advance_to_next_step(state, facts)
    }

    fn update_user_location(
        &self,
        location: UserLocation,
        state: NavState,
        facts: &UpdateFacts,
    ) -> (r: UpdateOutcome) {
        self.controller.update_user_location(location, state, facts)
    }
}

/// The observers of a navigator that is recorded or not.
pub open spec fn observers_where(should_record: bool) -> Seq<NavigationObserver> {
    if should_record {
        seq![NavigationObserver::Recorder]
    } else {
        Seq::empty()
    }
}

/// A navigator is observed by the recorder alone where it is recorded, and by none otherwise.
pub proof fn law_navigators_are_recorded_where_asked_for(should_record: bool)
    ensures
        should_record ==> observers_where(should_record) == seq![NavigationObserver::Recorder],
        !should_record ==> observers_where(should_record).len() == 0,
{
}

/// A navigator for a route, given the measures of the route's segments where the
/// matching core runs. It is recorded where that is asked for.
pub fn create_navigator(
    route: Route,
    config: NavigationControllerConfig,
    should_record: bool,
    measures: &Vec<SegmentMeasure>,
) -> (r: NavigationSession)
    requires
        config.uzmatch.enabled ==> measures.len() == segment_count(route.geometry@.len()),
    ensures
        r.plan() == plan_of(route, config, measures@),
        r.led_along() == route,
        r.observed_by() == (if should_record {
            seq![NavigationObserver::Recorder]
        } else {
            Seq::empty()
        }),
        r.observed_by() == observers_where(should_record),
{
    let mut observers: Vec<NavigationObserver> = Vec::new();
    if should_record {
        observers.push(NavigationObserver::Recorder);
    }
    let ghost expected = if should_record {
        seq![NavigationObserver::Recorder]
    } else {
        Seq::empty()
    };
    assert(observers@ =~= expected);
    NavigationSession::new(NavigationController::new(route, config, measures), observers)
}

} // verus!
