//! Metric observations.
//!
//! A projection pass emits a sequence of observations; each names a metric,
//! carries the label values of that metric's fixed label schema, in order,
//! and a numeric value. Within one pass a later observation for the same
//! label tuple supersedes an earlier one; the sink applies them in order.

use vstd::prelude::*;

verus! {

use crate::numeric::Fixed;

/// The metrics the projector emits.
#[derive(Clone, Copy, Debug, PartialEq, Eq, Structural)]
pub enum MetricId {
    CountryPower,
    CountryBalance,
    CountryFleets,
    CountryVictoryStatus,
    CountryWarAllies,
    CountryControlledCelestialBodies,
    CountryColonizedPlanets,
    CountrySurveyedSystems,
    CountryShipSizes,
    CountryWarBattles,
    Megastructures,
}

/// How many label values each metric's schema declares.
pub open spec fn spec_label_count(m: MetricId) -> nat {
    match m {
        MetricId::CountryPower => 3,
        MetricId::CountryBalance => 3,
        MetricId::CountryFleets => 2,
        MetricId::CountryVictoryStatus => 3,
        MetricId::CountryWarAllies => 2,
        MetricId::CountryControlledCelestialBodies => 2,
        MetricId::CountryColonizedPlanets => 2,
        MetricId::CountrySurveyedSystems => 2,
        MetricId::CountryShipSizes => 3,
        MetricId::CountryWarBattles => 8,
        MetricId::Megastructures => 3,
    }
}

/// The declared label count of a metric.
pub fn label_count(m: MetricId) -> (r: usize)
    ensures
        r == spec_label_count(m),
{
    match m {
        MetricId::CountryPower => 3,
        MetricId::CountryBalance => 3,
        MetricId::CountryFleets => 2,
        MetricId::CountryVictoryStatus => 3,
        MetricId::CountryWarAllies => 2,
        MetricId::CountryControlledCelestialBodies => 2,
        MetricId::CountryColonizedPlanets => 2,
        MetricId::CountrySurveyedSystems => 2,
        MetricId::CountryShipSizes => 3,
        MetricId::CountryWarBattles => 8,
        MetricId::Megastructures => 3,
    }
}

/// The wire name each metric is registered under.
pub open spec fn spec_metric_name(m: MetricId) -> Seq<char> {
    match m {
        MetricId::CountryPower => "stellaris_country_power"@,
        MetricId::CountryBalance => "stellaris_country_balance"@,
        MetricId::CountryFleets => "stellaris_country_fleets"@,
        MetricId::CountryVictoryStatus => "stellaris_country_victory_status"@,
        MetricId::CountryWarAllies => "stellaris_country_war_allies"@,
        MetricId::CountryControlledCelestialBodies => "stellaris_country_controlled_celestial_bodies"@,
        MetricId::CountryColonizedPlanets => "stellaris_country_colonized_planets"@,
        MetricId::CountrySurveyedSystems => "stellaris_country_surveyed_systems"@,
        MetricId::CountryShipSizes => "stellaris_country_ship_sizes"@,
        MetricId::CountryWarBattles => "stellaris_country_war_battles"@,
        MetricId::Megastructures => "stellaris_megastructures"@,
    }
}

/// The wire name of a metric.
pub fn metric_name(m: MetricId) -> (r: String)
    ensures
        r@ == spec_metric_name(m),
{
    match m {
        MetricId::CountryPower => "stellaris_country_power".to_owned(),
        MetricId::CountryBalance => "stellaris_country_balance".to_owned(),
        MetricId::CountryFleets => "stellaris_country_fleets".to_owned(),
        MetricId::CountryVictoryStatus => "stellaris_country_victory_status".to_owned(),
        MetricId::CountryWarAllies => "stellaris_country_war_allies".to_owned(),
        MetricId::CountryControlledCelestialBodies => "stellaris_country_controlled_celestial_bodies".to_owned(),
        MetricId::CountryColonizedPlanets => "stellaris_country_colonized_planets".to_owned(),
        MetricId::CountrySurveyedSystems => "stellaris_country_surveyed_systems".to_owned(),
        MetricId::CountryShipSizes => "stellaris_country_ship_sizes".to_owned(),
        MetricId::CountryWarBattles => "stellaris_country_war_battles".to_owned(),
        MetricId::Megastructures => "stellaris_megastructures".to_owned(),
    }
}

/// One emitted observation: a metric, its label values in schema order, and
/// the numeric value.
#[derive(Debug)]
pub struct MetricObservation {
    pub metric: MetricId,
    pub labels: Vec<String>,
    pub value: Fixed,
}

/// The mathematical image of an observation.
pub ghost struct ObsView {
    pub metric: MetricId,
    pub labels: Seq<Seq<char>>,
    pub value: Fixed,
}

impl View for MetricObservation {
    type V = ObsView;

    open spec fn view(&self) -> ObsView {
        ObsView {
            metric: self.metric,
            labels: self.labels@.map_values(|s: String| s@),
            value: self.value,
        }
    }
}

/// The views of a sequence of observations.
pub open spec fn obs_views(s: Seq<MetricObservation>) -> Seq<ObsView> {
    s.map_values(|o: MetricObservation| o@)
}

/// An observation view that matches its metric's label schema.
pub open spec fn obs_wf(o: ObsView) -> bool {
    o.labels.len() == spec_label_count(o.metric)
}

/// Every observation view in the sequence matches its schema.
pub open spec fn all_obs_wf(s: Seq<ObsView>) -> bool {
    forall|i: int| 0 <= i < s.len() ==> obs_wf(#[trigger] s[i])
}

} // verus!
